//! The front end's compile-time checks on an expanded program, in the
//! order they run, then the alias rewrite and the module bookkeeping.
use vstd::prelude::*;

use crate::bindings::{binding_diagnostic, core_binding_violation_all, verify_reserved_bindings_core};
use crate::capability::{
    first_violation, permission_diagnostic, references_placed, requirements_of, verify_io_capabilities,
};
use crate::core_expr::{core_views, placed_all, preorder_all, CoreExpr};
use crate::diagnostic::{render_diagnostic, Diagnostic, DiagnosticCode};
use crate::driver::{error_of, DriverError, Stage};
use crate::imports::{face_diagnostic, face_issue, target_view, text_pairs, verify_import_face, ImportFace};
use crate::module_rules::{
    duplicate_diagnostic, duplicate_in_all, misplaced_require_all, require_diagnostic,
    verify_module_define_duplicates, verify_require_positions,
};
use crate::qualified::{
    qualified_diagnostic, qualified_issue_all, rewrite_alias_refs, rewritten_all, takeover_set,
    verify_qualified_refs,
};
use crate::phase::{
    declared, exports_in, imports_in, lemma_no_imports_visits, lemma_only_visits_keeps, lemma_push_entry,
    lemma_same_modules_visit, names_distinct, only_visits, reaches, same_modules, visit_fails, visit_failure,
    visited_in, ModuleEntry, ModuleRegistry,
};
use crate::source_map::SourceMap;
use crate::symbol::Symbol;
use crate::span::Span;
use crate::text::texts;

verus! {

/// The checks of an expanded program, run in order until one fails: keyword
/// bindings (E0020), the import face (E0019, E0013, E0017), duplicate
/// module definitions (E0016), `require` positions (E0018), I/O permissions
/// (E0006), qualified names (E0021, E0014, E0015).  A program that passes
/// them all comes back with its aliased references rewritten.
pub fn front_checks(
    core: Vec<CoreExpr>,
    face: &ImportFace,
    import_targets: &Vec<(String, Span)>,
    keywords: &Vec<String>,
    sm: &SourceMap,
) -> (r: Result<Vec<CoreExpr>, DriverError>)
    requires
        sm.wf(),
        placed_all(core@, *sm),
        forall|k: int|
            0 <= k < import_targets@.len() ==> sm.position_ok(
                (#[trigger] import_targets@[k]).1.file_id,
                import_targets@[k].1.start,
            ),
    ensures
        match core_binding_violation_all(core@, keywords@) {
            Some(v) => r matches Err(e) && binding_diagnostic(v, e.diagnostic) && error_of(
                Stage::Compile,
                e.diagnostic,
                *sm,
                e,
            ),
            None => match face_issue(
                texts(face.unqualified@),
                text_pairs(face.aliases@),
                target_view(import_targets@),
            ) {
                Some(i) => r matches Err(e) && face_diagnostic(i, e.diagnostic) && error_of(
                    Stage::Compile,
                    e.diagnostic,
                    *sm,
                    e,
                ),
                None => match duplicate_in_all(core@) {
                    Some(x) => r matches Err(e) && duplicate_diagnostic(x, e.diagnostic) && error_of(
                        Stage::Compile,
                        e.diagnostic,
                        *sm,
                        e,
                    ),
                    None => match misplaced_require_all(core@, true) {
                        Some(s) => r matches Err(e) && require_diagnostic(s, e.diagnostic) && error_of(
                            Stage::Compile,
                            e.diagnostic,
                            *sm,
                            e,
                        ),
                        None => match first_violation(
                            preorder_all(core@),
                            requirements_of(core@),
                            preorder_all(core@),
                        ) {
                            Some(v) => r matches Err(e) && permission_diagnostic(v, e.diagnostic)
                                && error_of(Stage::Compile, e.diagnostic, *sm, e),
                            None => match qualified_issue_all(
                                core@,
                                takeover_set(core@),
                                Set::empty(),
                                text_pairs(face.aliases@),
                            ) {
                                Some(i) => r matches Err(e) && qualified_diagnostic(i, e.diagnostic)
                                    && error_of(Stage::Compile, e.diagnostic, *sm, e),
                                None => r matches Ok(out) && core_views(out@) == rewritten_all(
                                    core_views(core@),
                                    text_pairs(face.aliases@),
                                ),
                            },
                        },
                    },
                },
            },
        },
{
    proof {
        crate::capability::lemma_placed_references(core@, *sm);
    }
    verify_reserved_bindings_core(&core, keywords, sm)?;
    verify_import_face(face, sm, import_targets)?;
    verify_module_define_duplicates(&core, sm)?;
    verify_require_positions(&core, sm)?;
    verify_io_capabilities(&core, sm)?;
    verify_qualified_refs(&core, face, sm)?;
    Ok(rewrite_alias_refs(core, face))
}

/// A module form of an expanded program, by interned names.
#[derive(Debug, Clone)]
pub struct ModuleForm {
    pub name: Symbol,
    pub imports: Vec<Symbol>,
    pub exports: Vec<Symbol>,
    pub span: Span,
}

/// The module `register_modules` visits: the last module form, or `main`
/// for a program without one.
pub open spec fn main_module(forms: Seq<ModuleForm>, main: Symbol) -> Symbol {
    if forms.len() > 0 {
        forms.last().name
    } else {
        main
    }
}

/// The span a failed visit is reported at: the last module form's.
pub open spec fn main_span(forms: Seq<ModuleForm>) -> Span {
    if forms.len() > 0 {
        forms.last().span
    } else {
        Span { file_id: 0, start: 0, end: 0, expansion_id: 0 }
    }
}

/// Some standard module or module form before position `k` is named `n`.
pub open spec fn named_before(stdlib: Seq<Symbol>, forms: Seq<ModuleForm>, k: int, n: Symbol) -> bool {
    stdlib.contains(n) || exists|j: int| 0 <= j < k && (#[trigger] forms[j]).name == n
}

/// The first module form (by position) whose name a standard module or an
/// earlier form already has.
pub open spec fn first_redeclared(stdlib: Seq<Symbol>, forms: Seq<ModuleForm>, k: int) -> Option<int>
    decreases forms.len() - k,
{
    if k < 0 || k >= forms.len() {
        None
    } else if named_before(stdlib, forms, k, forms[k].name) {
        Some(k)
    } else {
        first_redeclared(stdlib, forms, k + 1)
    }
}

/// A bookkeeping error: code E0002 at the expand stage, with `message` at
/// `span`.
pub open spec fn bookkeeping_error(e: DriverError, message: Seq<char>, span: Span, sm: SourceMap) -> bool {
    &&& e.diagnostic.code == Some(DiagnosticCode(2))
    &&& e.diagnostic.message@ == message
    &&& e.diagnostic.primary_span == span
    &&& e.diagnostic.severity == crate::diagnostic::Severity::Error
    &&& error_of(Stage::Expand, e.diagnostic, sm, e)
}

/// An expand-stage error for `msg` at `span`.
fn bookkeeping_err(msg: String, span: Span, sm: &SourceMap) -> (e: DriverError)
    requires
        sm.wf(),
        sm.position_ok(span.file_id, span.start),
    ensures
        bookkeeping_error(e, msg@, span, *sm),
{
    let diag = Diagnostic::error(Some(DiagnosticCode(2)), msg.as_str(), span);
    let rendered = render_diagnostic(&diag, sm);
    DriverError { stage: Stage::Expand, diagnostic: diag, rendered }
}

/// A copy of a list of symbols.
fn copy_symbols(v: &Vec<Symbol>) -> (r: Vec<Symbol>)
    ensures
        r@ == v@,
{
    let mut r: Vec<Symbol> = Vec::new();
    let mut i: usize = 0;
    while i < v.len()
        invariant
            i <= v@.len(),
            r@ == v@.subrange(0, i as int),
        decreases v@.len() - i,
    {
        r.push(v[i]);
        proof {
            assert(r@ =~= v@.subrange(0, i + 1));
        }
        i = i + 1;
    }
    proof {
        assert(v@.subrange(0, i as int) =~= v@);
    }
    r
}

proof fn lemma_declared_kept(old: Seq<ModuleEntry>, new: Seq<ModuleEntry>)
    requires
        only_visits(old, new),
    ensures
        forall|n: Symbol| #[trigger] declared(new, n) == declared(old, n),
{
    assert forall|n: Symbol| #[trigger] declared(new, n) == declared(old, n) by {
        if declared(old, n) {
            let i = choose|i: int| 0 <= i < old.len() && old[i].name == n;
            assert(new[i].name == n);
        }
        if declared(new, n) {
            let i = choose|i: int| 0 <= i < new.len() && new[i].name == n;
            assert(new[i].name == old[i].name);
        }
    }
}

proof fn lemma_declared_push(old: Seq<ModuleEntry>, new: Seq<ModuleEntry>, name: Symbol)
    requires
        new.len() == old.len() + 1,
        new.subrange(0, old.len() as int) == old,
        new.last().name == name,
    ensures
        forall|n: Symbol| #[trigger] declared(new, n) == (declared(old, n) || n == name),
{
    assert forall|n: Symbol| #[trigger] declared(new, n) == (declared(old, n) || n == name) by {
        if declared(old, n) {
            let i = choose|i: int| 0 <= i < old.len() && old[i].name == n;
            assert(new.subrange(0, old.len() as int)[i] == new[i]);
        }
        if n == name {
            assert(new[new.len() - 1].name == n);
        }
        if declared(new, n) {
            let i = choose|i: int| 0 <= i < new.len() && new[i].name == n;
            if i < old.len() {
                assert(new.subrange(0, old.len() as int)[i] == new[i]);
            }
        }
    }
}

/// The registry that the module bookkeeping builds before its final
/// visit: every standard module declared with no imports and visited, every
/// module form declared with its imports and exports and not visited,
/// `main` declared with nothing when there is no module form, and no other
/// module.
pub open spec fn built_registry(
    es: Seq<ModuleEntry>,
    stdlib: Seq<Symbol>,
    forms: Seq<ModuleForm>,
    main: Symbol,
) -> bool {
    &&& names_distinct(es)
    &&& forall|n: Symbol|
        #[trigger] declared(es, n) == (named_before(stdlib, forms, forms.len() as int, n) || (forms.len()
            == 0 && n == main))
    &&& forall|k: int|
        0 <= k < stdlib.len() ==> visited_in(es, #[trigger] stdlib[k]) && imports_in(es, stdlib[k])
            == Seq::<Symbol>::empty()
    &&& forall|k: int|
        0 <= k < forms.len() ==> {
            &&& !visited_in(es, (#[trigger] forms[k]).name)
            &&& imports_in(es, forms[k].name) == forms[k].imports@
            &&& exports_in(es, forms[k].name) == forms[k].exports@
        }
    &&& forms.len() == 0 ==> !visited_in(es, main) && imports_in(es, main) == Seq::<Symbol>::empty()
}

/// The registry is determined as far as visits go: any two registries
/// built for the same program fail on the same modules, with the same
/// possible messages.
pub proof fn lemma_built_registry_unique(
    a: Seq<ModuleEntry>,
    b: Seq<ModuleEntry>,
    stdlib: Seq<Symbol>,
    forms: Seq<ModuleForm>,
    main: Symbol,
)
    requires
        built_registry(a, stdlib, forms, main),
        built_registry(b, stdlib, forms, main),
    ensures
        forall|m: Symbol| #[trigger] visit_fails(a, m) == visit_fails(b, m),
        forall|m: Symbol, msg: Seq<char>| #[trigger] visit_failure(a, m, msg) == visit_failure(b, m, msg),
{
    assert forall|n: Symbol| declared(a, n) implies #[trigger] visited_in(a, n) == visited_in(b, n)
        && imports_in(a, n) == imports_in(b, n) by {
        assert(declared(b, n));
        if stdlib.contains(n) {
            let k = choose|k: int| 0 <= k < stdlib.len() && stdlib[k] == n;
            assert(visited_in(a, stdlib[k]) && visited_in(b, stdlib[k]));
        } else if exists|j: int| 0 <= j < forms.len() && (#[trigger] forms[j]).name == n {
            let j = choose|j: int| 0 <= j < forms.len() && (#[trigger] forms[j]).name == n;
            assert(!visited_in(a, forms[j].name) && !visited_in(b, forms[j].name));
        } else {
            assert(forms.len() == 0 && n == main);
        }
    }
    assert forall|n: Symbol| declared(a, n) implies #[trigger] imports_in(a, n) == imports_in(b, n) by {
        assert(visited_in(a, n) == visited_in(b, n));
    }
    assert(same_modules(a, b));
    lemma_same_modules_visit(a, b);
}

/// The module bookkeeping of a checked program: the standard modules are
/// declared and visited first; then every module form is declared in
/// order (a name declared twice is an error at that form); a program
/// without module forms declares `main`; finally the last module form (or
/// `main`) is visited, imports first (an undeclared import or a cycle is an
/// error at the last module form).  All errors are E0002 at the expand
/// stage.
pub fn register_modules(
    forms: &Vec<ModuleForm>,
    stdlib: &Vec<Symbol>,
    main: Symbol,
    sm: &SourceMap,
) -> (r: Result<ModuleRegistry, DriverError>)
    requires
        sm.wf(),
        forall|k: int|
            0 <= k < forms@.len() ==> sm.position_ok(
                (#[trigger] forms@[k]).span.file_id,
                forms@[k].span.start,
            ),
    ensures
        match first_redeclared(stdlib@, forms@, 0) {
            Some(k) => r matches Err(e) && bookkeeping_error(
                e,
                "模块重复声明（Symbol "@ + crate::text::dec(forms@[k].name.0 as nat) + "）"@,
                forms@[k].span,
                *sm,
            ),
            None => if forms@.len() == 0 && stdlib@.contains(main) {
                r matches Err(e) && bookkeeping_error(
                    e,
                    "模块重复声明（Symbol "@ + crate::text::dec(main.0 as nat) + "）"@,
                    Span { file_id: 0, start: 0, end: 0, expansion_id: 0 },
                    *sm,
                )
            } else {
                &&& exists|es: Seq<ModuleEntry>|
                    #[trigger] built_registry(es, stdlib@, forms@, main) && {
                        let m = main_module(forms@, main);
                        &&& (r is Ok <==> !visit_fails(es, m))
                        &&& r matches Err(e) ==> visit_failure(es, m, e.diagnostic.message@)
                        &&& r matches Ok(reg) ==> forall|n: Symbol|
                            #[trigger] reaches(es, m, n) ==> visited_in(reg@, n)
                    }
                &&& r matches Ok(reg) ==> visited_in(reg@, main_module(forms@, main))
                &&& r matches Err(e) ==> bookkeeping_error(e, e.diagnostic.message@, main_span(forms@), *sm)
            },
        },
        r matches Ok(reg) ==> {
            &&& reg.wf()
            &&& forall|k: int| 0 <= k < forms@.len() ==> declared(reg@, (#[trigger] forms@[k]).name)
            &&& forall|k: int| 0 <= k < stdlib@.len() ==> declared(reg@, #[trigger] stdlib@[k])
            &&& forall|k: int|
                0 <= k < forms@.len() ==> imports_in(reg@, (#[trigger] forms@[k]).name) == forms@[k].imports@
                    && exports_in(reg@, forms@[k].name) == forms@[k].exports@
        },
{
    let mut registry = ModuleRegistry::new();
    let mut i: usize = 0;
    while i < stdlib.len()
        invariant
            registry.wf(),
            i <= stdlib@.len(),
            forall|n: Symbol| #[trigger] declared(registry@, n) == stdlib@.subrange(0, i as int).contains(n),
            forall|j: int|
                0 <= j < i ==> visited_in(registry@, #[trigger] stdlib@[j]) && imports_in(registry@, stdlib@[j])
                    == Seq::<Symbol>::empty(),
        decreases stdlib@.len() - i,
    {
        let ghost r0 = registry@;
        let ghost pre = stdlib@.subrange(0, i as int);
        let ghost s = stdlib@[i as int];
        proof {
            assert(stdlib@.subrange(0, i + 1) =~= pre.push(s));
            assert forall|n: Symbol| #[trigger] pre.push(s).contains(n) == (pre.contains(n) || n == s) by {
                if pre.push(s).contains(n) {
                    let j = choose|j: int| 0 <= j < pre.len() + 1 && pre.push(s)[j] == n;
                    if j < pre.len() {
                        assert(pre[j] == n);
                    }
                }
                if pre.contains(n) {
                    let j = choose|j: int| 0 <= j < pre.len() && pre[j] == n;
                    assert(pre.push(s)[j] == n);
                }
                if n == s {
                    assert(pre.push(s)[pre.len() as int] == n);
                }
            }
        }
        let d = registry.declare(stdlib[i], Vec::new(), Vec::new());
        proof {
            if d is Ok {
                lemma_declared_push(r0, registry@, s);
                lemma_push_entry(r0, registry@, s);
                assert forall|j: int| 0 <= j < i implies visited_in(registry@, #[trigger] stdlib@[j])
                    && imports_in(registry@, stdlib@[j]) == Seq::<Symbol>::empty() by {
                    assert(pre[j] == stdlib@[j]);
                    assert(declared(r0, stdlib@[j]));
                }
            } else {
                assert(pre.contains(s));
                let j = choose|j: int| 0 <= j < pre.len() && pre[j] == s;
                assert(stdlib@[j] == s);
            }
        }
        let ghost r1 = registry@;
        proof {
            lemma_no_imports_visits(r1, s);
        }
        let _ = registry.visit(stdlib[i]);
        proof {
            lemma_declared_kept(r1, registry@);
            assert forall|j: int| 0 <= j < i + 1 implies visited_in(registry@, #[trigger] stdlib@[j])
                && imports_in(registry@, stdlib@[j]) == Seq::<Symbol>::empty() by {
                lemma_only_visits_keeps(r1, registry@, stdlib@[j]);
            }
        }
        i = i + 1;
    }
    proof {
        assert(stdlib@.subrange(0, i as int) =~= stdlib@);
    }
    let mut k: usize = 0;
    while k < forms.len()
        invariant
            registry.wf(),
            sm.wf(),
            k <= forms@.len(),
            forall|n: Symbol| #[trigger] declared(registry@, n) == named_before(stdlib@, forms@, k as int, n),
            first_redeclared(stdlib@, forms@, k as int) == first_redeclared(stdlib@, forms@, 0),
            forall|q: int|
                0 <= q < forms@.len() ==> sm.position_ok(
                    (#[trigger] forms@[q]).span.file_id,
                    forms@[q].span.start,
                ),
            forall|j: int|
                0 <= j < stdlib@.len() ==> visited_in(registry@, #[trigger] stdlib@[j]) && imports_in(
                    registry@,
                    stdlib@[j],
                ) == Seq::<Symbol>::empty(),
            forall|j: int|
                0 <= j < k ==> {
                    &&& !visited_in(registry@, (#[trigger] forms@[j]).name)
                    &&& imports_in(registry@, forms@[j].name) == forms@[j].imports@
                    &&& exports_in(registry@, forms@[j].name) == forms@[j].exports@
                },
        decreases forms@.len() - k,
    {
        let f = &forms[k];
        let ghost r0 = registry@;
        proof {
            assert forall|n: Symbol| #[trigger] named_before(stdlib@, forms@, k + 1, n) == (named_before(stdlib@, forms@, k as int, n) || n == forms@[k as int].name) by {
                if exists|j: int| 0 <= j < k + 1 && (#[trigger] forms@[j]).name == n {
                    let j = choose|j: int| 0 <= j < k + 1 && (#[trigger] forms@[j]).name == n;
                    if j < k {
                        assert(exists|q: int| 0 <= q < k && (#[trigger] forms@[q]).name == n);
                    }
                }
                if exists|j: int| 0 <= j < k && (#[trigger] forms@[j]).name == n {
                    let j = choose|j: int| 0 <= j < k && (#[trigger] forms@[j]).name == n;
                    assert(0 <= j < k + 1 && forms@[j].name == n);
                }
                if n == forms@[k as int].name {
                    assert(0 <= k < k + 1 && forms@[k as int].name == n);
                }
            }
        }
        match registry.declare(f.name, copy_symbols(&f.imports), copy_symbols(&f.exports)) {
            Ok(()) => {
                proof {
                    lemma_declared_push(r0, registry@, f.name);
                    lemma_push_entry(r0, registry@, f.name);
                    assert forall|j: int| 0 <= j < stdlib@.len() implies visited_in(registry@, #[trigger] stdlib@[j])
                        && imports_in(registry@, stdlib@[j]) == Seq::<Symbol>::empty() by {
                        assert(named_before(stdlib@, forms@, k as int, stdlib@[j]));
                        assert(declared(r0, stdlib@[j]));
                    }
                    assert forall|j: int| 0 <= j < k + 1 implies {
                        &&& !visited_in(registry@, (#[trigger] forms@[j]).name)
                        &&& imports_in(registry@, forms@[j].name) == forms@[j].imports@
                        &&& exports_in(registry@, forms@[j].name) == forms@[j].exports@
                    } by {
                        if j < k {
                            assert(named_before(stdlib@, forms@, k as int, forms@[j].name));
                            assert(declared(r0, forms@[j].name));
                        }
                    }
                }
            },
            Err(m) => {
                return Err(bookkeeping_err(m, f.span, sm));
            },
        }
        k = k + 1;
    }
    proof {
        assert(first_redeclared(stdlib@, forms@, k as int) is None);
    }
    let target = if forms.len() == 0 {
        let ghost r0 = registry@;
        match registry.declare(main, Vec::new(), Vec::new()) {
            Ok(()) => {
                proof {
                    lemma_declared_push(r0, registry@, main);
                    lemma_push_entry(r0, registry@, main);
                    assert forall|j: int| 0 <= j < stdlib@.len() implies visited_in(registry@, #[trigger] stdlib@[j])
                        && imports_in(registry@, stdlib@[j]) == Seq::<Symbol>::empty() by {
                        assert(named_before(stdlib@, forms@, k as int, stdlib@[j]));
                        assert(declared(r0, stdlib@[j]));
                    }
                }
            },
            Err(m) => {
                proof {
                    crate::source_map::lemma_file_start_ok(*sm, 0);
                }
                return Err(bookkeeping_err(m, Span::dummy(), sm));
            },
        }
        main
    } else {
        forms[forms.len() - 1].name
    };
    let span = if forms.len() == 0 {
        Span::dummy()
    } else {
        forms[forms.len() - 1].span
    };
    proof {
        crate::source_map::lemma_file_start_ok(*sm, 0);
    }
    let ghost r1 = registry@;
    proof {
        assert(built_registry(r1, stdlib@, forms@, main));
    }
    match registry.visit(target) {
        Ok(()) => {
            proof {
                lemma_declared_kept(r1, registry@);
                assert forall|j: int| 0 <= j < forms@.len() implies imports_in(registry@, (#[trigger] forms@[j]).name)
                    == forms@[j].imports@ && exports_in(registry@, forms@[j].name) == forms@[j].exports@ by {
                    lemma_only_visits_keeps(r1, registry@, forms@[j].name);
                }
            }
            Ok(registry)
        },
        Err(m) => {
            let e = bookkeeping_err(m, span, sm);
            proof {
                assert(visit_failure(r1, main_module(forms@, main), e.diagnostic.message@));
            }
            Err(e)
        },
    }
}

} // verus!
