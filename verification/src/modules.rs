//! The standard library's module table: what each of its modules exports,
//! the builtin names that were retired (with their modern names), and the
//! modules a program may import.
use vstd::prelude::*;

use crate::text::same_text;

verus! {

/// One row of the module table: namespace, local name, underlying builtin.
pub type ExportRow = (Seq<char>, Seq<char>, Seq<char>);

/// The module table: `ns/local` is the qualified name of the builtin
/// `underlying`.
pub open spec fn stdlib_table() -> Seq<ExportRow> {
    seq![
        ("core"@, "is-nil"@, "is-nil"@),
        ("core"@, "is-bool"@, "is-bool"@),
        ("core"@, "is-int"@, "is-int"@),
        ("core"@, "is-float"@, "is-float"@),
        ("core"@, "is-number"@, "is-number"@),
        ("core"@, "is-string"@, "is-string"@),
        ("core"@, "is-symbol"@, "is-symbol"@),
        ("core"@, "is-pair"@, "is-pair"@),
        ("core"@, "is-list"@, "is-list"@),
        ("core"@, "is-procedure"@, "is-procedure"@),
        ("core"@, "eq"@, "eq"@),
        ("core"@, "not"@, "not"@),
        ("core"@, "error"@, "error"@),
        ("core"@, "assert-eq"@, "assert-eq"@),
        ("pair"@, "cons"@, "cons"@),
        ("pair"@, "head"@, "head"@),
        ("pair"@, "tail"@, "tail"@),
        ("list"@, "list"@, "list"@),
        ("list"@, "length"@, "length"@),
        ("list"@, "append"@, "append"@),
        ("list"@, "reverse"@, "reverse"@),
        ("list"@, "nth"@, "nth"@),
        ("list"@, "drop"@, "drop"@),
        ("list"@, "member"@, "member"@),
        ("list"@, "assoc"@, "assoc"@),
        ("list"@, "last-pair"@, "last-pair"@),
        ("string"@, "append"@, "string-append"@),
        ("string"@, "length"@, "string-length"@),
        ("string"@, "substring"@, "string-substring"@),
        ("string"@, "index-of"@, "string-index-of"@),
        ("string"@, "contains"@, "string-contains"@),
        ("string"@, "starts-with"@, "string-starts-with"@),
        ("string"@, "ends-with"@, "string-ends-with"@),
        ("string"@, "to-upper"@, "string-to-upper"@),
        ("string"@, "to-lower"@, "string-to-lower"@),
        ("string"@, "to-symbol"@, "string-to-symbol"@),
        ("string"@, "from-symbol"@, "symbol-to-string"@),
        ("symbol"@, "to-string"@, "symbol-to-string"@),
        ("symbol"@, "from-string"@, "string-to-symbol"@),
        ("io"@, "print"@, "print"@),
        ("io"@, "write-string"@, "write-string"@),
        ("io"@, "newline"@, "newline"@),
        ("io"@, "read-line"@, "read-line"@),
        ("io"@, "read-int"@, "read-int"@),
        ("io"@, "read-num"@, "read-num"@),
        ("char"@, "is-whitespace"@, "char-whitespace?"@),
        ("char"@, "is-alphabetic"@, "char-alphabetic?"@),
    ]
}

/// The retired builtin names, each with its modern name.
pub open spec fn removed_table() -> Seq<(Seq<char>, Seq<char>)> {
    seq![
        ("car"@, "head"@),
        ("cdr"@, "tail"@),
        ("list-ref"@, "nth"@),
        ("list-tail"@, "drop"@),
        ("null?"@, "is-nil"@),
        ("pair?"@, "is-pair"@),
        ("int?"@, "is-int"@),
        ("bool?"@, "is-bool"@),
        ("procedure?"@, "is-procedure"@),
        ("string?"@, "is-string"@),
        ("symbol?"@, "is-symbol"@),
        ("float?"@, "is-float"@),
        ("number?"@, "is-number"@),
        ("list?"@, "is-list"@),
        ("eq?"@, "eq"@),
        ("str-append"@, "string-append"@),
        ("str-length"@, "string-length"@),
        ("str-substring"@, "string-substring"@),
        ("str-index-of"@, "string-index-of"@),
        ("str-contains?"@, "string-contains"@),
        ("str-prefix?"@, "string-starts-with"@),
        ("str-suffix?"@, "string-ends-with"@),
        ("str-upcase"@, "string-to-upper"@),
        ("str-downcase"@, "string-to-lower"@),
        ("string->symbol"@, "string-to-symbol"@),
        ("symbol->string"@, "symbol-to-string"@),
        ("assert-eq?"@, "assert-eq"@),
    ]
}

/// The rows of an executable table, as text.
pub open spec fn rows_view(v: Seq<(&'static str, &'static str, &'static str)>) -> Seq<ExportRow> {
    v.map_values(|r: (&'static str, &'static str, &'static str)| (r.0@, r.1@, r.2@))
}

/// The pairs of an executable table, as text.
pub open spec fn pairs_view(v: Seq<(&'static str, &'static str)>) -> Seq<(Seq<char>, Seq<char>)> {
    v.map_values(|r: (&'static str, &'static str)| (r.0@, r.1@))
}

/// The module table, in order.
pub fn stdlib_modules() -> (v: Vec<(&'static str, &'static str, &'static str)>)
    ensures
        rows_view(v@) == stdlib_table(),
{
    let mut v: Vec<(&'static str, &'static str, &'static str)> = Vec::new();
    v.push(("core", "is-nil", "is-nil"));
    v.push(("core", "is-bool", "is-bool"));
    v.push(("core", "is-int", "is-int"));
    v.push(("core", "is-float", "is-float"));
    v.push(("core", "is-number", "is-number"));
    v.push(("core", "is-string", "is-string"));
    v.push(("core", "is-symbol", "is-symbol"));
    v.push(("core", "is-pair", "is-pair"));
    v.push(("core", "is-list", "is-list"));
    v.push(("core", "is-procedure", "is-procedure"));
    v.push(("core", "eq", "eq"));
    v.push(("core", "not", "not"));
    v.push(("core", "error", "error"));
    v.push(("core", "assert-eq", "assert-eq"));
    v.push(("pair", "cons", "cons"));
    v.push(("pair", "head", "head"));
    v.push(("pair", "tail", "tail"));
    v.push(("list", "list", "list"));
    v.push(("list", "length", "length"));
    v.push(("list", "append", "append"));
    v.push(("list", "reverse", "reverse"));
    v.push(("list", "nth", "nth"));
    v.push(("list", "drop", "drop"));
    v.push(("list", "member", "member"));
    v.push(("list", "assoc", "assoc"));
    v.push(("list", "last-pair", "last-pair"));
    v.push(("string", "append", "string-append"));
    v.push(("string", "length", "string-length"));
    v.push(("string", "substring", "string-substring"));
    v.push(("string", "index-of", "string-index-of"));
    v.push(("string", "contains", "string-contains"));
    v.push(("string", "starts-with", "string-starts-with"));
    v.push(("string", "ends-with", "string-ends-with"));
    v.push(("string", "to-upper", "string-to-upper"));
    v.push(("string", "to-lower", "string-to-lower"));
    v.push(("string", "to-symbol", "string-to-symbol"));
    v.push(("string", "from-symbol", "symbol-to-string"));
    v.push(("symbol", "to-string", "symbol-to-string"));
    v.push(("symbol", "from-string", "string-to-symbol"));
    v.push(("io", "print", "print"));
    v.push(("io", "write-string", "write-string"));
    v.push(("io", "newline", "newline"));
    v.push(("io", "read-line", "read-line"));
    v.push(("io", "read-int", "read-int"));
    v.push(("io", "read-num", "read-num"));
    v.push(("char", "is-whitespace", "char-whitespace?"));
    v.push(("char", "is-alphabetic", "char-alphabetic?"));
    proof {
        assert(rows_view(v@) =~= stdlib_table());
    }
    v
}

/// The retired names and their modern names, in order.
pub fn removed_builtin_names() -> (v: Vec<(&'static str, &'static str)>)
    ensures
        pairs_view(v@) == removed_table(),
{
    let mut v: Vec<(&'static str, &'static str)> = Vec::new();
    v.push(("car", "head"));
    v.push(("cdr", "tail"));
    v.push(("list-ref", "nth"));
    v.push(("list-tail", "drop"));
    v.push(("null?", "is-nil"));
    v.push(("pair?", "is-pair"));
    v.push(("int?", "is-int"));
    v.push(("bool?", "is-bool"));
    v.push(("procedure?", "is-procedure"));
    v.push(("string?", "is-string"));
    v.push(("symbol?", "is-symbol"));
    v.push(("float?", "is-float"));
    v.push(("number?", "is-number"));
    v.push(("list?", "is-list"));
    v.push(("eq?", "eq"));
    v.push(("str-append", "string-append"));
    v.push(("str-length", "string-length"));
    v.push(("str-substring", "string-substring"));
    v.push(("str-index-of", "string-index-of"));
    v.push(("str-contains?", "string-contains"));
    v.push(("str-prefix?", "string-starts-with"));
    v.push(("str-suffix?", "string-ends-with"));
    v.push(("str-upcase", "string-to-upper"));
    v.push(("str-downcase", "string-to-lower"));
    v.push(("string->symbol", "string-to-symbol"));
    v.push(("symbol->string", "symbol-to-string"));
    v.push(("assert-eq?", "assert-eq"));
    proof {
        assert(pairs_view(v@) =~= removed_table());
    }
    v
}

/// `local` is exported by the standard module `ns`.
pub open spec fn exports(ns: Seq<char>, local: Seq<char>) -> bool {
    exists|i: int|
        0 <= i < stdlib_table().len() && (#[trigger] stdlib_table()[i]).0 == ns && stdlib_table()[i].1
            == local
}

/// The local names that module `ns` exports, in table order, among rows `t`.
pub open spec fn locals_of(t: Seq<ExportRow>, ns: Seq<char>) -> Seq<Seq<char>>
    decreases t.len(),
{
    if t.len() == 0 {
        Seq::empty()
    } else if t.last().0 == ns {
        locals_of(t.drop_last(), ns).push(t.last().1)
    } else {
        locals_of(t.drop_last(), ns)
    }
}

/// The modern name of a retired builtin name, among pairs `t`.
pub open spec fn modern_in(t: Seq<(Seq<char>, Seq<char>)>, name: Seq<char>) -> Option<Seq<char>>
    decreases t.len(),
{
    if t.len() == 0 {
        None
    } else if t[0].0 == name {
        Some(t[0].1)
    } else {
        modern_in(t.drop_first(), name)
    }
}

/// The modern name of `name`, if `name` is a retired builtin name.
pub open spec fn removed_modern(name: Seq<char>) -> Option<Seq<char>> {
    modern_in(removed_table(), name)
}

/// The modules a program may import: the prelude and the standard modules.
pub open spec fn allowed_modules() -> Seq<Seq<char>> {
    seq![
        "kerf-prelude"@,
        "kerf-core"@,
        "kerf-pair"@,
        "kerf-list"@,
        "kerf-string"@,
        "kerf-symbol"@,
        "kerf-io"@,
        "kerf-char"@,
    ]
}

/// Whether module `ns` exports `local`.
pub fn is_exported(ns: &str, local: &str) -> (b: bool)
    ensures
        b == exports(ns@, local@),
{
    let v = stdlib_modules();
    let ghost t = stdlib_table();
    let mut i: usize = 0;
    while i < v.len()
        invariant
            rows_view(v@) == t,
            t == stdlib_table(),
            i <= v@.len(),
            forall|j: int| 0 <= j < i ==> !((#[trigger] t[j]).0 == ns@ && t[j].1 == local@),
        decreases v@.len() - i,
    {
        assert(t[i as int] == (v@[i as int].0@, v@[i as int].1@, v@[i as int].2@));
        if same_text(v[i].0, ns) && same_text(v[i].1, local) {
            return true;
        }
        i = i + 1;
    }
    false
}

/// Appends the local names that module `ns` exports, in table order.
pub fn push_module_exports(ns: &str, out: &mut Vec<String>)
    ensures
        final(out)@.map_values(|s: String| s@) == old(out)@.map_values(|s: String| s@) + locals_of(
            stdlib_table(),
            ns@,
        ),
{
    let v = stdlib_modules();
    let ghost t = stdlib_table();
    let ghost o0 = out@.map_values(|s: String| s@);
    let mut i: usize = 0;
    proof {
        assert(t.subrange(0, 0) =~= Seq::<ExportRow>::empty());
        assert(o0 =~= o0 + locals_of(t.subrange(0, 0), ns@));
    }
    while i < v.len()
        invariant
            rows_view(v@) == t,
            t == stdlib_table(),
            i <= v@.len(),
            out@.map_values(|s: String| s@) == o0 + locals_of(t.subrange(0, i as int), ns@),
        decreases v@.len() - i,
    {
        assert(t[i as int] == (v@[i as int].0@, v@[i as int].1@, v@[i as int].2@));
        let ghost pre = out@;
        proof {
            assert(t.subrange(0, i + 1).drop_last() =~= t.subrange(0, i as int));
        }
        if same_text(v[i].0, ns) {
            out.push(crate::text::string_of(v[i].1));
            proof {
                assert(out@.map_values(|s: String| s@) =~= pre.map_values(|s: String| s@).push(
                    v@[i as int].1@,
                ));
            }
        }
        i = i + 1;
    }
    proof {
        assert(t.subrange(0, i as int) =~= t);
    }
}

/// The modern name of `name`, if it is a retired builtin name.
pub fn removed_builtin_modern(name: &str) -> (r: Option<&'static str>)
    ensures
        match removed_modern(name@) {
            Some(m) => r matches Some(x) && x@ == m,
            None => r is None,
        },
{
    let v = removed_builtin_names();
    let ghost t = removed_table();
    let mut i: usize = 0;
    proof {
        assert(t.subrange(0, t.len() as int) =~= t);
    }
    while i < v.len()
        invariant
            pairs_view(v@) == t,
            t == removed_table(),
            i <= v@.len(),
            modern_in(t.subrange(i as int, t.len() as int), name@) == removed_modern(name@),
        decreases v@.len() - i,
    {
        assert(t[i as int] == (v@[i as int].0@, v@[i as int].1@));
        assert(t.subrange(i as int, t.len() as int).drop_first() =~= t.subrange(i + 1, t.len() as int));
        if same_text(v[i].0, name) {
            return Some(v[i].1);
        }
        i = i + 1;
    }
    None
}

/// Whether a program may import the module `name`.
pub fn is_allowed_module(name: &str) -> (b: bool)
    ensures
        b == allowed_modules().contains(name@),
{
    let ghost a = allowed_modules();
    let r = same_text(name, "kerf-prelude") || same_text(name, "kerf-core") || same_text(
        name,
        "kerf-pair",
    ) || same_text(name, "kerf-list") || same_text(name, "kerf-string") || same_text(
        name,
        "kerf-symbol",
    ) || same_text(name, "kerf-io") || same_text(name, "kerf-char");
    proof {
        if r {
            if name@ == "kerf-prelude"@ { assert(a[0] == name@); }
            if name@ == "kerf-core"@ { assert(a[1] == name@); }
            if name@ == "kerf-pair"@ { assert(a[2] == name@); }
            if name@ == "kerf-list"@ { assert(a[3] == name@); }
            if name@ == "kerf-string"@ { assert(a[4] == name@); }
            if name@ == "kerf-symbol"@ { assert(a[5] == name@); }
            if name@ == "kerf-io"@ { assert(a[6] == name@); }
            if name@ == "kerf-char"@ { assert(a[7] == name@); }
        }
    }
    r
}

/// The builtins with a type signature, by their unqualified names.
pub open spec fn signed_builtins() -> Seq<Seq<char>> {
    seq![
        "+"@,
        "-"@,
        "*"@,
        "/"@,
        "mod"@,
        "="@,
        "<"@,
        ">"@,
        "<="@,
        ">="@,
        "cons"@,
        "head"@,
        "tail"@,
        "list"@,
        "is-nil"@,
        "is-pair"@,
        "is-int"@,
        "is-bool"@,
        "is-string"@,
        "is-symbol"@,
        "is-float"@,
        "is-number"@,
        "is-list"@,
        "is-procedure"@,
        "eq"@,
        "not"@,
        "print"@,
        "newline"@,
        "write-string"@,
        "read-int"@,
        "read-num"@,
        "error"@,
        "length"@,
        "reverse"@,
        "append"@,
        "nth"@,
        "drop"@,
        "member"@,
        "assoc"@,
        "last-pair"@,
        "string-length"@,
        "string-append"@,
        "string-substring"@,
        "string-index-of"@,
        "string-contains"@,
        "string-starts-with"@,
        "string-ends-with"@,
        "string-to-upper"@,
        "string-to-lower"@,
        "string-to-symbol"@,
        "symbol-to-string"@,
        "str->pos-chars"@,
        "char-whitespace?"@,
        "char-alphabetic?"@,
        "str-int-valid?"@,
        "assert-eq"@,
    ]
}

/// The texts of an executable list of names.
pub open spec fn names_view(v: Seq<&'static str>) -> Seq<Seq<char>> {
    v.map_values(|s: &'static str| s@)
}

/// The builtins with a type signature, in order.
pub fn signed_builtin_names() -> (v: Vec<&'static str>)
    ensures
        names_view(v@) == signed_builtins(),
{
    let mut v: Vec<&'static str> = Vec::new();
    v.push("+");
    v.push("-");
    v.push("*");
    v.push("/");
    v.push("mod");
    v.push("=");
    v.push("<");
    v.push(">");
    v.push("<=");
    v.push(">=");
    v.push("cons");
    v.push("head");
    v.push("tail");
    v.push("list");
    v.push("is-nil");
    v.push("is-pair");
    v.push("is-int");
    v.push("is-bool");
    v.push("is-string");
    v.push("is-symbol");
    v.push("is-float");
    v.push("is-number");
    v.push("is-list");
    v.push("is-procedure");
    v.push("eq");
    v.push("not");
    v.push("print");
    v.push("newline");
    v.push("write-string");
    v.push("read-int");
    v.push("read-num");
    v.push("error");
    v.push("length");
    v.push("reverse");
    v.push("append");
    v.push("nth");
    v.push("drop");
    v.push("member");
    v.push("assoc");
    v.push("last-pair");
    v.push("string-length");
    v.push("string-append");
    v.push("string-substring");
    v.push("string-index-of");
    v.push("string-contains");
    v.push("string-starts-with");
    v.push("string-ends-with");
    v.push("string-to-upper");
    v.push("string-to-lower");
    v.push("string-to-symbol");
    v.push("symbol-to-string");
    v.push("str->pos-chars");
    v.push("char-whitespace?");
    v.push("char-alphabetic?");
    v.push("str-int-valid?");
    v.push("assert-eq");
    proof {
        assert(names_view(v@) =~= signed_builtins());
    }
    v
}

/// `name` is a registered builtin: one with a signature, `read-line`, or
/// the qualified name `ns/local` of a module export.
pub open spec fn builtin_name_exists(name: Seq<char>) -> bool {
    ||| name == "read-line"@
    ||| signed_builtins().contains(name)
    ||| exists|i: int|
        0 <= i < stdlib_table().len() && name == (#[trigger] stdlib_table()[i]).0 + "/"@
            + stdlib_table()[i].1
}

/// Whether `name` is a registered builtin.
pub fn is_builtin_name(name: &str) -> (b: bool)
    ensures
        b == builtin_name_exists(name@),
{
    if same_text(name, "read-line") {
        return true;
    }
    let sigs = signed_builtin_names();
    let ghost sv = signed_builtins();
    let mut k: usize = 0;
    while k < sigs.len()
        invariant
            names_view(sigs@) == sv,
            sv == signed_builtins(),
            k <= sigs@.len(),
            forall|j: int| 0 <= j < k ==> (#[trigger] sv[j]) != name@,
        decreases sigs@.len() - k,
    {
        assert(sv[k as int] == sigs@[k as int]@);
        if same_text(sigs[k], name) {
            return true;
        }
        k = k + 1;
    }
    let rows = stdlib_modules();
    let ghost t = stdlib_table();
    let mut i: usize = 0;
    while i < rows.len()
        invariant
            rows_view(rows@) == t,
            t == stdlib_table(),
            !signed_builtins().contains(name@),
            name@ != "read-line"@,
            i <= rows@.len(),
            forall|j: int| 0 <= j < i ==> name@ != (#[trigger] t[j]).0 + "/"@ + t[j].1,
        decreases rows@.len() - i,
    {
        assert(t[i as int] == (rows@[i as int].0@, rows@[i as int].1@, rows@[i as int].2@));
        let mut q = crate::text::string_of(rows[i].0);
        crate::text::push_str(&mut q, "/");
        crate::text::push_str(&mut q, rows[i].1);
        if same_text(q.as_str(), name) {
            return true;
        }
        i = i + 1;
    }
    false
}

/// The standard modules (every importable module but the prelude), in
/// order.
pub fn standard_modules() -> (v: Vec<&'static str>)
    ensures
        names_view(v@) == allowed_modules().drop_first(),
{
    let mut v: Vec<&'static str> = Vec::new();
    v.push("kerf-core");
    v.push("kerf-pair");
    v.push("kerf-list");
    v.push("kerf-string");
    v.push("kerf-symbol");
    v.push("kerf-io");
    v.push("kerf-char");
    proof {
        assert(names_view(v@) =~= allowed_modules().drop_first());
    }
    v
}

} // verus!
