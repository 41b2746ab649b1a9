//! Module imports, read from the header of each `module` form before
//! expansion.
//!
//! A header is the run of `(import ...)` and `(export ...)` forms right
//! after `(module name`; the first other form starts the body.  An import
//! item is a module name (`kerf-string`, imported unqualified) or a module
//! name followed by `as` and an alias (`kerf-string as str`, a qualified
//! alias).  The module's namespace is its name without the `kerf-` prefix.
use vstd::prelude::*;

use crate::bindings::sym_name;
use crate::diagnostic::{render_diagnostic, Diagnostic, DiagnosticCode, Severity};
use crate::driver::{error_of, DriverError, Stage};
use crate::modules::{
    allowed_modules, exports, is_allowed_module, is_exported, locals_of, push_module_exports,
    rows_view, stdlib_modules, stdlib_table, ExportRow,
};
use crate::source_map::SourceMap;
use crate::parser::{stx_view, stx_views, Stx, StxDatum, StxV};
use crate::span::Span;
use crate::text::{chars_of, push_str, same_text, string_of, string_of_range, texts};

verus! {

/// The text of each pair of strings.
pub open spec fn text_pairs(v: Seq<(String, String)>) -> Seq<(Seq<char>, Seq<char>)> {
    v.map_values(|p: (String, String)| (p.0@, p.1@))
}

/// The namespace of an imported module: its name without the `kerf-`
/// prefix.
pub open spec fn target_ns(name: Seq<char>) -> Seq<char> {
    if name.len() >= 5 && name.subrange(0, 5) == "kerf-"@ {
        name.subrange(5, name.len() as int)
    } else {
        name
    }
}

/// The item lists of the `import` forms in a module header (`items` from
/// position `k` on), in order.
pub open spec fn header_imports(items: Seq<StxV>, k: int) -> Seq<Seq<StxV>>
    decreases items.len() - k,
{
    if k < 2 || k >= items.len() {
        Seq::empty()
    } else {
        match items[k] {
            StxV::List(sub, _) => if sub.len() > 0 && sub[0] is Sym {
                if sub[0]->Sym_0 == "import"@ {
                    seq![sub] + header_imports(items, k + 1)
                } else if sub[0]->Sym_0 == "export"@ {
                    header_imports(items, k + 1)
                } else {
                    Seq::empty()
                }
            } else {
                Seq::empty()
            },
            _ => Seq::empty(),
        }
    }
}

/// The `import` forms of a top-level form (none unless it is a module).
pub open spec fn module_imports(f: StxV) -> Seq<Seq<StxV>> {
    match f {
        StxV::List(items, _) => if items.len() > 0 && sym_name(items[0]) == Some("module"@) {
            header_imports(items, 2)
        } else {
            Seq::empty()
        },
        _ => Seq::empty(),
    }
}

/// The `import` forms of a program, form after form.
pub open spec fn program_imports(fs: Seq<StxV>) -> Seq<Seq<StxV>>
    decreases fs.len(),
{
    if fs.len() == 0 {
        Seq::empty()
    } else {
        program_imports(fs.drop_last()) + module_imports(fs.last())
    }
}

/// What import items contribute: the namespaces imported unqualified and
/// the (alias, namespace) pairs.
pub type ImportParts = (Seq<Seq<char>>, Seq<(Seq<char>, Seq<char>)>);

/// The contribution of the items of one `import` form from position `i` on.
/// A name followed by `as` is aliased by the third item (when that is a
/// symbol); all three are consumed.  Items that are not symbols are
/// skipped.
pub open spec fn import_parts(sub: Seq<StxV>, i: int) -> ImportParts
    decreases sub.len() - i,
{
    if i < 1 || i >= sub.len() {
        (Seq::empty(), Seq::empty())
    } else {
        match sub[i] {
            StxV::Sym(name, _) => if i + 2 < sub.len() && sym_name(sub[i + 1]) == Some("as"@) {
                let rest = import_parts(sub, i + 3);
                match sub[i + 2] {
                    StxV::Sym(alias, _) => (rest.0, seq![(alias, target_ns(name))] + rest.1),
                    _ => rest,
                }
            } else {
                let rest = import_parts(sub, i + 1);
                (seq![target_ns(name)] + rest.0, rest.1)
            },
            _ => import_parts(sub, i + 1),
        }
    }
}

/// The contribution of a sequence of `import` forms, in order.
pub open spec fn parts_of(imps: Seq<Seq<StxV>>) -> ImportParts
    decreases imps.len(),
{
    if imps.len() == 0 {
        (Seq::empty(), Seq::empty())
    } else {
        let a = parts_of(imps.drop_last());
        let b = import_parts(imps.last(), 1);
        (a.0 + b.0, a.1 + b.1)
    }
}

/// The names that unqualified imports inject: each imported module's
/// exports, module after module.
pub open spec fn injected_of(unq: Seq<Seq<char>>) -> Seq<Seq<char>>
    decreases unq.len(),
{
    if unq.len() == 0 {
        Seq::empty()
    } else {
        injected_of(unq.drop_last()) + locals_of(stdlib_table(), unq.last())
    }
}

/// A program's import face: the namespaces it imports unqualified, its
/// aliases, and the names the unqualified imports inject.
#[derive(Debug)]
pub struct ImportFace {
    pub unqualified: Vec<String>,
    pub aliases: Vec<(String, String)>,
    pub injected_names: Vec<String>,
}

impl Default for ImportFace {
    /// The face of a program without imports.
    fn default() -> (f: ImportFace)
        ensures
            f.unqualified@.len() == 0,
            f.aliases@.len() == 0,
            f.injected_names@.len() == 0,
    {
        ImportFace { unqualified: Vec::new(), aliases: Vec::new(), injected_names: Vec::new() }
    }
}

/// The import face of a program with top-level forms `fs`.
pub open spec fn face_of(face: ImportFace, fs: Seq<StxV>) -> bool {
    let parts = parts_of(program_imports(fs));
    &&& texts(face.unqualified@) == parts.0
    &&& text_pairs(face.aliases@) == parts.1
    &&& texts(face.injected_names@) == injected_of(parts.0)
}

/// The namespace of an imported module name (`kerf-string` is `string`).
pub fn import_target_ns(name: &str) -> (s: String)
    ensures
        s@ == target_ns(name@),
{
    let t = chars_of(name);
    proof {
        reveal_strlit("kerf-");
    }
    if t.len() >= 5 && t[0] == 'k' && t[1] == 'e' && t[2] == 'r' && t[3] == 'f' && t[4] == '-' {
        proof {
            assert(t@.subrange(0, 5) =~= "kerf-"@);
        }
        string_of_range(&t, 5, t.len())
    } else {
        proof {
            if t@.len() >= 5 {
                assert(t@.subrange(0, 5) != "kerf-"@) by {
                    if t@.subrange(0, 5) == "kerf-"@ {
                        assert(t@.subrange(0, 5)[0] == 'k');
                        assert(t@.subrange(0, 5)[1] == 'e');
                        assert(t@.subrange(0, 5)[2] == 'r');
                        assert(t@.subrange(0, 5)[3] == 'f');
                        assert(t@.subrange(0, 5)[4] == '-');
                    }
                }
            }
            assert(t@.subrange(0, t@.len() as int) =~= t@);
        }
        string_of_range(&t, 0, t.len())
    }
}

/// Whether the symbol value of `s` is the text `lit`.
fn symbol_is(s: &Stx, lit: &str) -> (b: bool)
    ensures
        b == (sym_name(stx_view(*s)) == Some(lit@)),
{
    match &s.datum {
        StxDatum::Symbol(n) => same_text(n.as_str(), lit),
        _ => false,
    }
}

/// The positions in `items` of the `import` forms of a module header.
fn header_import_positions(items: &Vec<Stx>) -> (v: Vec<usize>)
    ensures
        v@.len() == header_imports(stx_views(items@), 2).len(),
        forall|j: int|
            0 <= j < v@.len() ==> (v@[j] as int) < items@.len() && #[trigger] stx_views(items@)[v@[j] as int]
                is List && stx_views(items@)[v@[j] as int]->List_0 == header_imports(
                stx_views(items@),
                2,
            )[j],
{
    let ghost views = stx_views(items@);
    proof {
        crate::parser::lemma_views_index(items@);
    }
    let mut v: Vec<usize> = Vec::new();
    let mut k: usize = 2;
    while k < items.len()
        invariant
            views == stx_views(items@),
            views.len() == items@.len(),
            forall|j: int| 0 <= j < items@.len() ==> #[trigger] views[j] == stx_view(items@[j]),
            2 <= k,
            v@.len() + header_imports(views, k as int).len() == header_imports(views, 2).len(),
            forall|j: int|
                0 <= j < v@.len() ==> (v@[j] as int) < items@.len() && #[trigger] views[v@[j] as int]
                    is List && views[v@[j] as int]->List_0 == header_imports(views, 2)[j],
            forall|j: int|
                0 <= j < header_imports(views, k as int).len() ==> header_imports(views, 2)[v@.len()
                    + j] == #[trigger] header_imports(views, k as int)[j],
        ensures
            header_imports(views, k as int).len() == 0,
        decreases items@.len() - k,
    {
        assert(views[k as int] == stx_view(items@[k as int]));
        let cont = match &items[k].datum {
            StxDatum::List(sub) => {
                proof {
                    crate::parser::lemma_views_index(sub@);
                }
                if sub.len() > 0 {
                    assert(stx_views(sub@)[0] == stx_view(sub@[0]));
                    if symbol_is(&sub[0], "import") {
                        let ghost h = header_imports(views, k as int);
                        let ghost h1 = header_imports(views, k + 1);
                        proof {
                            assert(h =~= seq![stx_views(sub@)] + h1);
                            assert(h[0] == stx_views(sub@));
                            assert forall|j: int| 0 <= j < h1.len() implies header_imports(
                                views,
                                2,
                            )[v@.len() + 1 + j] == #[trigger] h1[j] by {
                                assert(h[j + 1] == h1[j]);
                            }
                        }
                        v.push(k);
                        true
                    } else if symbol_is(&sub[0], "export") {
                        true
                    } else {
                        false
                    }
                } else {
                    false
                }
            },
            _ => false,
        };
        if !cont {
            break ;
        }
        k = k + 1;
    }
    v
}

proof fn lemma_texts_push(v: Seq<String>, x: String)
    ensures
        texts(v.push(x)) == texts(v).push(x@),
{
    assert(texts(v.push(x)) =~= texts(v).push(x@));
}

proof fn lemma_pairs_push(v: Seq<(String, String)>, x: (String, String))
    ensures
        text_pairs(v.push(x)) == text_pairs(v).push((x.0@, x.1@)),
{
    assert(text_pairs(v.push(x)) =~= text_pairs(v).push((x.0@, x.1@)));
}

/// Appends the contribution of one `import` form's items.
fn push_import_parts(sub: &Vec<Stx>, unq: &mut Vec<String>, aliases: &mut Vec<(String, String)>)
    ensures
        texts(final(unq)@) == texts(old(unq)@) + import_parts(stx_views(sub@), 1).0,
        text_pairs(final(aliases)@) == text_pairs(old(aliases)@) + import_parts(stx_views(sub@), 1).1,
{
    let ghost views = stx_views(sub@);
    let ghost u0 = texts(unq@);
    let ghost a0 = text_pairs(aliases@);
    proof {
        crate::parser::lemma_views_index(sub@);
    }
    let mut i: usize = 1;
    while i < sub.len()
        invariant
            views == stx_views(sub@),
            views.len() == sub@.len(),
            forall|j: int| 0 <= j < sub@.len() ==> #[trigger] views[j] == stx_view(sub@[j]),
            1 <= i,
            texts(unq@) + import_parts(views, i as int).0 == u0 + import_parts(views, 1).0,
            text_pairs(aliases@) + import_parts(views, i as int).1 == a0 + import_parts(views, 1).1,
        decreases sub@.len() - i,
    {
        assert(views[i as int] == stx_view(sub@[i as int]));
        match &sub[i].datum {
            StxDatum::Symbol(name) => {
                let aliased = if sub.len() - i > 2 {
                    assert(views[i + 1] == stx_view(sub@[i + 1]));
                    symbol_is(&sub[i + 1], "as")
                } else {
                    false
                };
                if aliased {
                    assert(views[i + 2] == stx_view(sub@[i + 2]));
                    match &sub[i + 2].datum {
                        StxDatum::Symbol(alias) => {
                            let pair = (alias.clone(), import_target_ns(name.as_str()));
                            aliases.push(pair);
                            proof {
                                lemma_pairs_push(aliases@.drop_last(), pair);
                            }
                        },
                        _ => {},
                    }
                    i = i + 3;
                } else {
                    let ns = import_target_ns(name.as_str());
                    unq.push(ns);
                    i = i + 1;
                }
            },
            _ => {
                i = i + 1;
            },
        }
    }
}

proof fn lemma_parts_concat(a: Seq<Seq<StxV>>, b: Seq<Seq<StxV>>)
    ensures
        parts_of(a + b) == (parts_of(a).0 + parts_of(b).0, parts_of(a).1 + parts_of(b).1),
    decreases b.len(),
{
    if b.len() == 0 {
        assert(a + b =~= a);
        assert(parts_of(a).0 + parts_of(b).0 =~= parts_of(a).0);
        assert(parts_of(a).1 + parts_of(b).1 =~= parts_of(a).1);
    } else {
        assert((a + b).drop_last() =~= a + b.drop_last());
        assert((a + b).last() == b.last());
        lemma_parts_concat(a, b.drop_last());
        let x = parts_of(b.drop_last());
        let y = import_parts(b.last(), 1);
        assert(parts_of(a).0 + x.0 + y.0 =~= parts_of(a).0 + (x.0 + y.0));
        assert(parts_of(a).1 + x.1 + y.1 =~= parts_of(a).1 + (x.1 + y.1));
    }
}

/// The item lists of the `import` forms of a top-level form, in order.
fn form_imports<'a>(f: &'a Stx) -> (v: Vec<&'a Vec<Stx>>)
    ensures
        v@.len() == module_imports(stx_view(*f)).len(),
        forall|j: int| 0 <= j < v@.len() ==> stx_views((#[trigger] v@[j])@) == module_imports(stx_view(*f))[j],
{
    let mut out: Vec<&'a Vec<Stx>> = Vec::new();
    match &f.datum {
        StxDatum::List(items) => {
            proof {
                crate::parser::lemma_views_index(items@);
            }
            if items.len() > 0 && symbol_is(&items[0], "module") {
                let ghost h = header_imports(stx_views(items@), 2);
                let pos = header_import_positions(items);
                let mut j: usize = 0;
                while j < pos.len()
                    invariant
                        h == header_imports(stx_views(items@), 2),
                        h == module_imports(stx_view(*f)),
                        pos@.len() == h.len(),
                        forall|q: int|
                            0 <= q < pos@.len() ==> (pos@[q] as int) < items@.len()
                                && #[trigger] stx_views(items@)[pos@[q] as int] is List && stx_views(
                                items@,
                            )[pos@[q] as int]->List_0 == h[q],
                        forall|q: int|
                            0 <= q < items@.len() ==> #[trigger] stx_views(items@)[q] == stx_view(
                                items@[q],
                            ),
                        j <= pos@.len(),
                        out@.len() == j,
                        forall|q: int| 0 <= q < j ==> stx_views((#[trigger] out@[q])@) == h[q],
                    decreases pos@.len() - j,
                {
                    let p = pos[j];
                    assert(stx_views(items@)[p as int] == stx_view(items@[p as int]));
                    match &items[p].datum {
                        StxDatum::List(sub) => {
                            out.push(sub);
                        },
                        _ => {
                            assert(false);
                        },
                    }
                    j = j + 1;
                }
            }
        },
        _ => {},
    }
    out
}

/// Appends the contribution of the imports of one top-level form.
fn push_form_parts(f: &Stx, unq: &mut Vec<String>, aliases: &mut Vec<(String, String)>)
    ensures
        texts(final(unq)@) == texts(old(unq)@) + parts_of(module_imports(stx_view(*f))).0,
        text_pairs(final(aliases)@) == text_pairs(old(aliases)@) + parts_of(
            module_imports(stx_view(*f)),
        ).1,
{
    let ghost u0 = texts(unq@);
    let ghost a0 = text_pairs(aliases@);
    let ghost h = module_imports(stx_view(*f));
    let lists = form_imports(f);
    let mut j: usize = 0;
    proof {
        assert(h.subrange(0, 0) =~= Seq::<Seq<StxV>>::empty());
        assert(u0 + parts_of(h.subrange(0, 0)).0 =~= u0);
        assert(a0 + parts_of(h.subrange(0, 0)).1 =~= a0);
    }
    while j < lists.len()
        invariant
            h == module_imports(stx_view(*f)),
            lists@.len() == h.len(),
            forall|q: int| 0 <= q < lists@.len() ==> stx_views((#[trigger] lists@[q])@) == h[q],
            j <= lists@.len(),
            texts(unq@) == u0 + parts_of(h.subrange(0, j as int)).0,
            text_pairs(aliases@) == a0 + parts_of(h.subrange(0, j as int)).1,
        decreases lists@.len() - j,
    {
        proof {
            assert(h.subrange(0, j + 1).drop_last() =~= h.subrange(0, j as int));
            assert(h.subrange(0, j + 1).last() == h[j as int]);
            assert(stx_views(lists@[j as int]@) == h[j as int]);
        }
        push_import_parts(lists[j], unq, aliases);
        proof {
            let x = parts_of(h.subrange(0, j as int));
            let y = import_parts(h[j as int], 1);
            assert(u0 + x.0 + y.0 =~= u0 + (x.0 + y.0));
            assert(a0 + x.1 + y.1 =~= a0 + (x.1 + y.1));
        }
        j = j + 1;
    }
    proof {
        assert(h.subrange(0, j as int) =~= h);
    }
}

/// The import face of a program: the module namespaces imported
/// unqualified and the aliases, in source order, and the names injected by
/// the unqualified imports.
pub fn collect_import_face(forms: &Vec<Stx>) -> (face: ImportFace)
    ensures
        face_of(face, stx_views(forms@)),
{
    let ghost views = stx_views(forms@);
    proof {
        crate::parser::lemma_views_index(forms@);
        assert(views.subrange(0, 0) =~= Seq::<StxV>::empty());
        assert(texts(Seq::<String>::empty()) =~= Seq::<Seq<char>>::empty());
        assert(text_pairs(Seq::<(String, String)>::empty()) =~= Seq::<(Seq<char>, Seq<char>)>::empty());
    }
    let mut unqualified: Vec<String> = Vec::new();
    let mut aliases: Vec<(String, String)> = Vec::new();
    let mut i: usize = 0;
    while i < forms.len()
        invariant
            views == stx_views(forms@),
            views.len() == forms@.len(),
            forall|q: int| 0 <= q < forms@.len() ==> #[trigger] views[q] == stx_view(forms@[q]),
            i <= forms@.len(),
            texts(unqualified@) == parts_of(program_imports(views.subrange(0, i as int))).0,
            text_pairs(aliases@) == parts_of(program_imports(views.subrange(0, i as int))).1,
        decreases forms@.len() - i,
    {
        let ghost pre = views.subrange(0, i as int);
        proof {
            assert(views.subrange(0, i + 1).drop_last() =~= pre);
            assert(views.subrange(0, i + 1).last() == views[i as int]);
            lemma_parts_concat(program_imports(pre), module_imports(views[i as int]));
        }
        push_form_parts(&forms[i], &mut unqualified, &mut aliases);
        i = i + 1;
    }
    proof {
        assert(views.subrange(0, i as int) =~= views);
    }
    let ghost unq = texts(unqualified@);
    let mut injected_names: Vec<String> = Vec::new();
    let mut j: usize = 0;
    proof {
        assert(unq.subrange(0, 0) =~= Seq::<Seq<char>>::empty());
    }
    while j < unqualified.len()
        invariant
            unq == texts(unqualified@),
            j <= unqualified@.len(),
            texts(injected_names@) == injected_of(unq.subrange(0, j as int)),
        decreases unqualified@.len() - j,
    {
        proof {
            assert(unq.subrange(0, j + 1).drop_last() =~= unq.subrange(0, j as int));
            assert(unq.subrange(0, j + 1).last() == unq[j as int]);
        }
        push_module_exports(unqualified[j].as_str(), &mut injected_names);
        j = j + 1;
    }
    proof {
        assert(unq.subrange(0, j as int) =~= unq);
    }
    ImportFace { unqualified, aliases, injected_names }
}

// ---- import targets and the prelude ----

/// The import targets (name and span) named by the items of one `import`
/// form from position `i` on; `as` and the alias after it are skipped.
pub open spec fn import_targets_in(sub: Seq<StxV>, i: int) -> Seq<(Seq<char>, Span)>
    decreases sub.len() - i,
{
    if i < 1 || i >= sub.len() {
        Seq::empty()
    } else {
        match sub[i] {
            StxV::Sym(name, sp) => if name == "as"@ {
                if i + 2 < sub.len() {
                    import_targets_in(sub, i + 2)
                } else {
                    Seq::empty()
                }
            } else {
                seq![(name, sp)] + import_targets_in(sub, i + 1)
            },
            _ => import_targets_in(sub, i + 1),
        }
    }
}

/// The import targets of a sequence of `import` forms, in order.
pub open spec fn targets_of(imps: Seq<Seq<StxV>>) -> Seq<(Seq<char>, Span)>
    decreases imps.len(),
{
    if imps.len() == 0 {
        Seq::empty()
    } else {
        targets_of(imps.drop_last()) + import_targets_in(imps.last(), 1)
    }
}

/// The text and span of each target.
pub open spec fn target_view(v: Seq<(String, Span)>) -> Seq<(Seq<char>, Span)> {
    v.map_values(|p: (String, Span)| (p.0@, p.1))
}

proof fn lemma_targets_concat(a: Seq<Seq<StxV>>, b: Seq<Seq<StxV>>)
    ensures
        targets_of(a + b) == targets_of(a) + targets_of(b),
    decreases b.len(),
{
    if b.len() == 0 {
        assert(a + b =~= a);
        assert(targets_of(a) + targets_of(b) =~= targets_of(a));
    } else {
        assert((a + b).drop_last() =~= a + b.drop_last());
        assert((a + b).last() == b.last());
        lemma_targets_concat(a, b.drop_last());
        assert(targets_of(a) + targets_of(b.drop_last()) + import_targets_in(b.last(), 1)
            =~= targets_of(a) + (targets_of(b.drop_last()) + import_targets_in(b.last(), 1)));
    }
}

/// Appends the targets named by one `import` form.
fn push_import_targets(sub: &Vec<Stx>, out: &mut Vec<(String, Span)>)
    ensures
        target_view(final(out)@) == target_view(old(out)@) + import_targets_in(stx_views(sub@), 1),
{
    let ghost views = stx_views(sub@);
    let ghost o0 = target_view(out@);
    proof {
        crate::parser::lemma_views_index(sub@);
    }
    let mut i: usize = 1;
    while i < sub.len()
        invariant
            views == stx_views(sub@),
            views.len() == sub@.len(),
            forall|j: int| 0 <= j < sub@.len() ==> #[trigger] views[j] == stx_view(sub@[j]),
            1 <= i,
            target_view(out@) + import_targets_in(views, i as int) == o0 + import_targets_in(views, 1),
        decreases sub@.len() - i,
    {
        assert(views[i as int] == stx_view(sub@[i as int]));
        match &sub[i].datum {
            StxDatum::Symbol(name) => {
                if same_text(name.as_str(), "as") {
                    i = if sub.len() - i > 2 {
                        i + 2
                    } else {
                        sub.len()
                    };
                } else {
                    let ghost before = out@;
                    out.push((name.clone(), sub[i].span));
                    proof {
                        assert(target_view(out@) =~= target_view(before).push((name@, sub@[i as int].span)));
                    }
                    i = i + 1;
                }
            },
            _ => {
                i = i + 1;
            },
        }
    }
}

/// The import targets of a program: every module name its modules' headers
/// import, with its span, in source order (aliases are not targets).
pub fn collect_import_targets(forms: &Vec<Stx>) -> (v: Vec<(String, Span)>)
    ensures
        target_view(v@) == targets_of(program_imports(stx_views(forms@))),
{
    let ghost views = stx_views(forms@);
    proof {
        crate::parser::lemma_views_index(forms@);
        assert(views.subrange(0, 0) =~= Seq::<StxV>::empty());
        assert(target_view(Seq::<(String, Span)>::empty()) =~= Seq::<(Seq<char>, Span)>::empty());
    }
    let mut out: Vec<(String, Span)> = Vec::new();
    let mut i: usize = 0;
    while i < forms.len()
        invariant
            views == stx_views(forms@),
            views.len() == forms@.len(),
            forall|q: int| 0 <= q < forms@.len() ==> #[trigger] views[q] == stx_view(forms@[q]),
            i <= forms@.len(),
            target_view(out@) == targets_of(program_imports(views.subrange(0, i as int))),
        decreases forms@.len() - i,
    {
        let ghost pre = views.subrange(0, i as int);
        let ghost h = module_imports(views[i as int]);
        let ghost o1 = target_view(out@);
        proof {
            assert(views.subrange(0, i + 1).drop_last() =~= pre);
            assert(views.subrange(0, i + 1).last() == views[i as int]);
            lemma_targets_concat(program_imports(pre), h);
        }
        let lists = form_imports(&forms[i]);
        let mut j: usize = 0;
        proof {
            assert(h.subrange(0, 0) =~= Seq::<Seq<StxV>>::empty());
            assert(o1 + targets_of(h.subrange(0, 0)) =~= o1);
        }
        while j < lists.len()
            invariant
                h == module_imports(stx_view(forms@[i as int])),
                lists@.len() == h.len(),
                forall|q: int| 0 <= q < lists@.len() ==> stx_views((#[trigger] lists@[q])@) == h[q],
                j <= lists@.len(),
                target_view(out@) == o1 + targets_of(h.subrange(0, j as int)),
            decreases lists@.len() - j,
        {
            proof {
                assert(h.subrange(0, j + 1).drop_last() =~= h.subrange(0, j as int));
                assert(h.subrange(0, j + 1).last() == h[j as int]);
                assert(stx_views(lists@[j as int]@) == h[j as int]);
            }
            push_import_targets(lists[j], &mut out);
            proof {
                assert(o1 + targets_of(h.subrange(0, j as int)) + import_targets_in(h[j as int], 1)
                    =~= o1 + (targets_of(h.subrange(0, j as int)) + import_targets_in(h[j as int], 1)));
            }
            j = j + 1;
        }
        proof {
            assert(h.subrange(0, j as int) =~= h);
        }
        i = i + 1;
    }
    proof {
        assert(views.subrange(0, i as int) =~= views);
    }
    out
}

/// The name of the prelude module.
pub open spec fn prelude_name() -> Seq<char> {
    "kerf-prelude"@
}

/// Some item of an `import` form (after its head) is the symbol
/// `kerf-prelude`.
pub open spec fn names_prelude(sub: Seq<StxV>) -> bool {
    exists|i: int| 1 <= i < sub.len() && sym_name(#[trigger] sub[i]) == Some(prelude_name())
}

/// A top-level form is a module whose header imports the prelude.
pub open spec fn form_imports_prelude(f: StxV) -> bool {
    exists|j: int| 0 <= j < module_imports(f).len() && names_prelude(#[trigger] module_imports(f)[j])
}

/// Whether one `import` form names the prelude.
fn import_names_prelude(sub: &Vec<Stx>) -> (b: bool)
    ensures
        b == names_prelude(stx_views(sub@)),
{
    let ghost views = stx_views(sub@);
    proof {
        crate::parser::lemma_views_index(sub@);
    }
    let mut i: usize = 1;
    while i < sub.len()
        invariant
            views == stx_views(sub@),
            views.len() == sub@.len(),
            forall|j: int| 0 <= j < sub@.len() ==> #[trigger] views[j] == stx_view(sub@[j]),
            1 <= i,
            forall|j: int| 1 <= j < i && j < views.len() ==> sym_name(#[trigger] views[j]) != Some(prelude_name()),
        decreases sub@.len() - i,
    {
        assert(views[i as int] == stx_view(sub@[i as int]));
        if symbol_is(&sub[i], "kerf-prelude") {
            return true;
        }
        i = i + 1;
    }
    false
}

/// Whether a top-level form is a module whose header imports the prelude.
pub fn imports_prelude(f: &Stx) -> (b: bool)
    ensures
        b == form_imports_prelude(stx_view(*f)),
{
    let ghost h = module_imports(stx_view(*f));
    let lists = form_imports(f);
    let mut j: usize = 0;
    while j < lists.len()
        invariant
            h == module_imports(stx_view(*f)),
            lists@.len() == h.len(),
            forall|q: int| 0 <= q < lists@.len() ==> stx_views((#[trigger] lists@[q])@) == h[q],
            j <= lists@.len(),
            forall|q: int| 0 <= q < j ==> !names_prelude(#[trigger] h[q]),
        decreases lists@.len() - j,
    {
        assert(stx_views(lists@[j as int]@) == h[j as int]);
        if import_names_prelude(lists[j]) {
            return true;
        }
        j = j + 1;
    }
    false
}

/// Whether some top-level form of a program is a module that imports the
/// prelude (the prelude's forms are then read in front of the program).
pub fn program_imports_prelude(forms: &Vec<Stx>) -> (b: bool)
    ensures
        b == exists|k: int| 0 <= k < forms@.len() && form_imports_prelude(stx_view(#[trigger] forms@[k])),
{
    let mut k: usize = 0;
    while k < forms.len()
        invariant
            k <= forms@.len(),
            forall|j: int| 0 <= j < k ==> !form_imports_prelude(stx_view(#[trigger] forms@[j])),
        decreases forms@.len() - k,
    {
        if imports_prelude(&forms[k]) {
            return true;
        }
        k = k + 1;
    }
    false
}

// ---- checking the import face ----

/// The diagnostic code of an import of an unknown module (E0019).
pub const UNKNOWN_IMPORT_CODE: u32 = 19;
/// The diagnostic code of two unqualified imports exporting one name (E0013).
pub const IMPORT_CONFLICT_CODE: u32 = 13;
/// The diagnostic code of an alias bound twice (E0017).
pub const ALIAS_DUPLICATE_CODE: u32 = 17;

/// What is wrong with an import face.
pub ghost enum FaceIssue {
    /// An import of a module outside the standard library.
    Unknown(Seq<char>, Span),
    /// Two modules imported unqualified both export `local`.
    Conflict { local: Seq<char>, first: Seq<char>, second: Seq<char>, span: Span },
    /// An alias bound a second time.
    DuplicateAlias(Seq<char>, Span),
}

/// The first target (from position `k` on) that names no importable module.
pub open spec fn first_unknown(ts: Seq<(Seq<char>, Span)>, k: int) -> Option<(Seq<char>, Span)>
    decreases ts.len() - k,
{
    if k < 0 || k >= ts.len() {
        None
    } else if !allowed_modules().contains(ts[k].0) {
        Some(ts[k])
    } else {
        first_unknown(ts, k + 1)
    }
}

/// The first local name of module `ma` (rows from `k` on, in table order)
/// that module `mb` exports too.
pub open spec fn clash_from(t: Seq<ExportRow>, k: int, ma: Seq<char>, mb: Seq<char>) -> Option<Seq<char>>
    decreases t.len() - k,
{
    if k < 0 || k >= t.len() {
        None
    } else if t[k].0 == ma && exports(mb, t[k].1) {
        Some(t[k].1)
    } else {
        clash_from(t, k + 1, ma, mb)
    }
}

/// The name two unqualified imports both export, if any; a module does not
/// clash with itself, and the prelude with nothing.
pub open spec fn module_clash(ma: Seq<char>, mb: Seq<char>) -> Option<Seq<char>> {
    if ma == mb || ma == "prelude"@ || mb == "prelude"@ {
        None
    } else {
        clash_from(stdlib_table(), 0, ma, mb)
    }
}

/// The first clash of import `ia` with a later import (from `ib` on): the
/// name and the two namespaces.
pub open spec fn clash_with(unq: Seq<Seq<char>>, ia: int, ib: int) -> Option<
    (Seq<char>, Seq<char>, Seq<char>),
>
    decreases unq.len() - ib,
{
    if ia < 0 || ib < 0 || ia >= unq.len() || ib >= unq.len() {
        None
    } else {
        match module_clash(unq[ia], unq[ib]) {
            Some(l) => Some((l, unq[ia], unq[ib])),
            None => clash_with(unq, ia, ib + 1),
        }
    }
}

/// The first clash among the unqualified imports (from import `ia` on),
/// pair by pair in order.
pub open spec fn first_clash(unq: Seq<Seq<char>>, ia: int) -> Option<(Seq<char>, Seq<char>, Seq<char>)>
    decreases unq.len() - ia,
{
    if ia < 0 || ia >= unq.len() {
        None
    } else {
        match clash_with(unq, ia, ia + 1) {
            Some(x) => Some(x),
            None => first_clash(unq, ia + 1),
        }
    }
}

/// The first alias (from position `k` on) that an earlier alias already
/// binds.
pub open spec fn first_duplicate_alias(al: Seq<(Seq<char>, Seq<char>)>, k: int) -> Option<Seq<char>>
    decreases al.len() - k,
{
    if k < 0 || k >= al.len() {
        None
    } else if exists|j: int| 0 <= j < k && (#[trigger] al[j]).0 == al[k].0 {
        Some(al[k].0)
    } else {
        first_duplicate_alias(al, k + 1)
    }
}

/// Where a face-wide error is reported: the first import target, else the
/// placeholder span.
pub open spec fn face_span(ts: Seq<(Seq<char>, Span)>) -> Span {
    if ts.len() > 0 {
        ts[0].1
    } else {
        Span { file_id: 0, start: 0, end: 0, expansion_id: 0 }
    }
}

/// The first problem of an import face, checked in this order: unknown
/// modules, clashing unqualified imports, duplicate aliases.
pub open spec fn face_issue(
    unq: Seq<Seq<char>>,
    al: Seq<(Seq<char>, Seq<char>)>,
    ts: Seq<(Seq<char>, Span)>,
) -> Option<FaceIssue> {
    match first_unknown(ts, 0) {
        Some(u) => Some(FaceIssue::Unknown(u.0, u.1)),
        None => match first_clash(unq, 0) {
            Some(c) => Some(
                FaceIssue::Conflict { local: c.0, first: c.1, second: c.2, span: face_span(ts) },
            ),
            None => match first_duplicate_alias(al, 0) {
                Some(a) => Some(FaceIssue::DuplicateAlias(a, face_span(ts))),
                None => None,
            },
        },
    }
}

/// The importable modules, as the error message lists them.
pub open spec fn allowed_list_text() -> Seq<char> {
    "kerf-prelude / kerf-core / kerf-pair / kerf-list / kerf-string / kerf-symbol / kerf-io / kerf-char"@
}

/// The diagnostic of a face problem: its code, message and span.
pub open spec fn face_diagnostic(issue: FaceIssue, d: Diagnostic) -> bool {
    &&& d.severity == Severity::Error
    &&& d.children@.len() == 0
    &&& d.suggestions@.len() == 0
    &&& match issue {
        FaceIssue::Unknown(name, span) => {
            &&& d.code == Some(DiagnosticCode(UNKNOWN_IMPORT_CODE))
            &&& d.message@ == "未知导入模块「"@ + name + "」（在册名单："@ + allowed_list_text()
                + "——import 仅接标准库模块，用户模块间导入属 Stage 3 编译单元窗口）"@
            &&& d.primary_span == span
        },
        FaceIssue::Conflict { local, first, second, span } => {
            &&& d.code == Some(DiagnosticCode(IMPORT_CONFLICT_CODE))
            &&& d.message@ == "import 冲突：「"@ + local + "」来自 kerf-"@ + first + " 与 kerf-"@
                + second + "（两模块同名导出——显式错误非静默遮蔽；逃生阀 = 限定导入 (import kerf-"@
                + first + " as 别名)）"@
            &&& d.primary_span == span
        },
        FaceIssue::DuplicateAlias(alias, span) => {
            &&& d.code == Some(DiagnosticCode(ALIAS_DUPLICATE_CODE))
            &&& d.message@ == "别名重复：「"@ + alias
                + "」被多次绑定（别名是模块体内局部绑定——同名重复属重复定义错误；22 §3.5 R-N5）"@
            &&& d.primary_span == span
        },
    }
}

/// The first name of module `ma` that module `mb` exports too.
fn clash_between(ma: &str, mb: &str) -> (r: Option<&'static str>)
    ensures
        match clash_from(stdlib_table(), 0, ma@, mb@) {
            Some(l) => r matches Some(x) && x@ == l,
            None => r is None,
        },
{
    let v = stdlib_modules();
    let ghost t = stdlib_table();
    let mut k: usize = 0;
    while k < v.len()
        invariant
            rows_view(v@) == t,
            t == stdlib_table(),
            k <= v@.len(),
            clash_from(t, k as int, ma@, mb@) == clash_from(t, 0, ma@, mb@),
        decreases v@.len() - k,
    {
        assert(t[k as int] == (v@[k as int].0@, v@[k as int].1@, v@[k as int].2@));
        if same_text(v[k].0, ma) && is_exported(mb, v[k].1) {
            return Some(v[k].1);
        }
        k = k + 1;
    }
    None
}

/// The clash between two unqualified imports, if any.
fn module_clash_of(ma: &str, mb: &str) -> (r: Option<&'static str>)
    ensures
        match module_clash(ma@, mb@) {
            Some(l) => r matches Some(x) && x@ == l,
            None => r is None,
        },
{
    if same_text(ma, mb) || same_text(ma, "prelude") || same_text(mb, "prelude") {
        None
    } else {
        clash_between(ma, mb)
    }
}

/// The conflict diagnostic.
fn conflict_diag(local: &str, ma: &str, mb: &str, span: Span) -> (d: Diagnostic)
    ensures
        face_diagnostic(FaceIssue::Conflict { local: local@, first: ma@, second: mb@, span }, d),
{
    let mut m = string_of("import 冲突：「");
    push_str(&mut m, local);
    push_str(&mut m, "」来自 kerf-");
    push_str(&mut m, ma);
    push_str(&mut m, " 与 kerf-");
    push_str(&mut m, mb);
    push_str(&mut m, "（两模块同名导出——显式错误非静默遮蔽；逃生阀 = 限定导入 (import kerf-");
    push_str(&mut m, ma);
    push_str(&mut m, " as 别名)）");
    Diagnostic::error(Some(DiagnosticCode(IMPORT_CONFLICT_CODE)), m.as_str(), span)
}

/// The first clash among the unqualified imports.
fn find_clash(unq: &Vec<String>) -> (r: Option<(&'static str, usize, usize)>)
    ensures
        match first_clash(texts(unq@), 0) {
            Some(c) => r matches Some(x) && x.0@ == c.0 && x.1 < unq@.len() && x.2 < unq@.len()
                && unq@[x.1 as int]@ == c.1 && unq@[x.2 as int]@ == c.2,
            None => r is None,
        },
{
    let ghost u = texts(unq@);
    let mut ia: usize = 0;
    while ia < unq.len()
        invariant
            u == texts(unq@),
            ia <= unq@.len(),
            first_clash(u, ia as int) == first_clash(u, 0),
        decreases unq@.len() - ia,
    {
        let mut ib: usize = ia + 1;
        while ib < unq.len()
            invariant
                u == texts(unq@),
                ia < unq@.len(),
                ia + 1 <= ib <= unq@.len(),
                first_clash(u, ia as int) == first_clash(u, 0),
                clash_with(u, ia as int, ib as int) == clash_with(u, ia as int, ia + 1),
            decreases unq@.len() - ib,
        {
            match module_clash_of(unq[ia].as_str(), unq[ib].as_str()) {
                Some(l) => {
                    return Some((l, ia, ib));
                },
                None => {},
            }
            ib = ib + 1;
        }
        ia = ia + 1;
    }
    None
}

/// The first alias that an earlier alias already binds.
fn find_duplicate_alias(al: &Vec<(String, String)>) -> (r: Option<usize>)
    ensures
        match first_duplicate_alias(text_pairs(al@), 0) {
            Some(a) => r matches Some(k) && k < al@.len() && al@[k as int].0@ == a,
            None => r is None,
        },
{
    let ghost p = text_pairs(al@);
    let mut k: usize = 0;
    while k < al.len()
        invariant
            p == text_pairs(al@),
            p.len() == al@.len(),
            k <= al@.len(),
            first_duplicate_alias(p, k as int) == first_duplicate_alias(p, 0),
        decreases al@.len() - k,
    {
        let mut j: usize = 0;
        while j < k
            invariant
                p == text_pairs(al@),
                p.len() == al@.len(),
                j <= k < al@.len(),
                first_duplicate_alias(p, k as int) == first_duplicate_alias(p, 0),
                forall|q: int| 0 <= q < j ==> (#[trigger] p[q]).0 != p[k as int].0,
            decreases k - j,
        {
            if al[j].0 == al[k].0 {
                assert(p[j as int].0 == p[k as int].0);
                assert(first_duplicate_alias(p, k as int) == Some(p[k as int].0));
                return Some(k);
            }
            j = j + 1;
        }
        k = k + 1;
    }
    None
}

/// The import-face rule: every import names a standard module (E0019);
/// no two modules imported unqualified export the same name (E0013); no
/// alias is bound twice (E0017).  The first problem, in that order, is a
/// compile-stage error.
pub fn verify_import_face(face: &ImportFace, sm: &SourceMap, import_spans: &Vec<(String, Span)>) -> (r:
    Result<(), DriverError>)
    requires
        sm.wf(),
        forall|k: int|
            0 <= k < import_spans@.len() ==> sm.position_ok(
                (#[trigger] import_spans@[k]).1.file_id,
                import_spans@[k].1.start,
            ),
    ensures
        match face_issue(texts(face.unqualified@), text_pairs(face.aliases@), target_view(import_spans@)) {
            None => r is Ok,
            Some(issue) => r matches Err(e) && face_diagnostic(issue, e.diagnostic) && error_of(
                Stage::Compile,
                e.diagnostic,
                *sm,
                e,
            ),
        },
{
    let ghost ts = target_view(import_spans@);
    let mut k: usize = 0;
    while k < import_spans.len()
        invariant
            ts == target_view(import_spans@),
            ts.len() == import_spans@.len(),
            k <= import_spans@.len(),
            first_unknown(ts, k as int) == first_unknown(ts, 0),
            sm.wf(),
            forall|q: int|
                0 <= q < import_spans@.len() ==> sm.position_ok(
                    (#[trigger] import_spans@[q]).1.file_id,
                    import_spans@[q].1.start,
                ),
        decreases import_spans@.len() - k,
    {
        if !is_allowed_module(import_spans[k].0.as_str()) {
            let name = import_spans[k].0.as_str();
            let span = import_spans[k].1;
            let mut m = string_of("未知导入模块「");
            push_str(&mut m, name);
            push_str(&mut m, "」（在册名单：");
            push_str(
                &mut m,
                "kerf-prelude / kerf-core / kerf-pair / kerf-list / kerf-string / kerf-symbol / kerf-io / kerf-char",
            );
            push_str(&mut m, "——import 仅接标准库模块，用户模块间导入属 Stage 3 编译单元窗口）");
            let diag = Diagnostic::error(Some(DiagnosticCode(UNKNOWN_IMPORT_CODE)), m.as_str(), span);
            let rendered = render_diagnostic(&diag, sm);
            return Err(DriverError { stage: Stage::Compile, diagnostic: diag, rendered });
        }
        k = k + 1;
    }
    let span = if import_spans.len() > 0 {
        import_spans[0].1
    } else {
        Span::dummy()
    };
    proof {
        crate::source_map::lemma_file_start_ok(*sm, 0);
    }
    match find_clash(&face.unqualified) {
        Some((local, ia, ib)) => {
            let diag = conflict_diag(
                local,
                face.unqualified[ia].as_str(),
                face.unqualified[ib].as_str(),
                span,
            );
            let rendered = render_diagnostic(&diag, sm);
            return Err(DriverError { stage: Stage::Compile, diagnostic: diag, rendered });
        },
        None => {},
    }
    match find_duplicate_alias(&face.aliases) {
        Some(k) => {
            let mut m = string_of("别名重复：「");
            push_str(&mut m, face.aliases[k].0.as_str());
            push_str(
                &mut m,
                "」被多次绑定（别名是模块体内局部绑定——同名重复属重复定义错误；22 §3.5 R-N5）",
            );
            let diag = Diagnostic::error(Some(DiagnosticCode(ALIAS_DUPLICATE_CODE)), m.as_str(), span);
            let rendered = render_diagnostic(&diag, sm);
            Err(DriverError { stage: Stage::Compile, diagnostic: diag, rendered })
        },
        None => Ok(()),
    }
}

} // verus!
