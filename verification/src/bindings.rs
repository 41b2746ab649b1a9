//! The reserved-word binding rule, on source syntax: a keyword can never be
//! bound — not by `define`, `set!`, `module`, `define-syntax`, a `lambda`
//! parameter, a `let`/`letrec`/`let*` binding, nor an `import ... as`
//! alias (error E0020).  The keywords are those of the symbol table, given
//! by their names.
use vstd::prelude::*;

use crate::core_expr::{placed, placed_all, CoreExpr};
use crate::diagnostic::{render_diagnostic, Diagnostic, DiagnosticCode, Severity};
use crate::driver::{error_of, DriverError, Stage};
use crate::parser::{stx_view, stx_views, Stx, StxDatum, StxV};
use crate::source_map::SourceMap;
use crate::span::Span;
use crate::text::{chars_of, push_str, string_of};

verus! {

/// The diagnostic code of a keyword bound by a program (E0020).
pub const RESERVED_BINDING_CODE: u32 = 20;

/// A violation: the keyword, where it is bound, and by what kind of binder.
pub type BindingViolation = (Seq<char>, Span, Seq<char>);

/// `name` is one of the keywords `kw`.
pub open spec fn is_keyword(kw: Seq<String>, name: Seq<char>) -> bool {
    exists|k: int| 0 <= k < kw.len() && (#[trigger] kw[k])@ == name
}

/// The name of a symbol value, if it is one.
pub open spec fn sym_name(v: StxV) -> Option<Seq<char>> {
    match v {
        StxV::Sym(n, _) => Some(n),
        _ => None,
    }
}

/// The first of `vs` (from position `k` on) that is a symbol naming a
/// keyword, reported as bound by `kind`.
pub open spec fn first_keyword_symbol(vs: Seq<StxV>, k: int, kw: Seq<String>, kind: Seq<char>) -> Option<
    BindingViolation,
>
    decreases vs.len() - k,
{
    if k < 0 || k >= vs.len() {
        None
    } else {
        match vs[k] {
            StxV::Sym(n, sp) => if is_keyword(kw, n) {
                Some((n, sp, kind))
            } else {
                first_keyword_symbol(vs, k + 1, kw, kind)
            },
            _ => first_keyword_symbol(vs, k + 1, kw, kind),
        }
    }
}

/// The first `let` binding pair of `bs` (from `k` on) whose name is a
/// keyword.
pub open spec fn first_keyword_binding(bs: Seq<StxV>, k: int, kw: Seq<String>) -> Option<
    BindingViolation,
>
    decreases bs.len() - k,
{
    if k < 0 || k >= bs.len() {
        None
    } else {
        match bs[k] {
            StxV::List(pair, _) => if pair.len() > 0 && pair[0] is Sym && is_keyword(kw, pair[0]->Sym_0) {
                Some((pair[0]->Sym_0, pair[0]->Sym_1, "let 绑定名"@))
            } else {
                first_keyword_binding(bs, k + 1, kw)
            },
            _ => first_keyword_binding(bs, k + 1, kw),
        }
    }
}

/// The first `as` alias of an `import` form (items from `i` on) that is a
/// keyword.
pub open spec fn first_keyword_alias(items: Seq<StxV>, i: int, kw: Seq<String>) -> Option<
    BindingViolation,
>
    decreases items.len() - i,
{
    if i < 1 || i >= items.len() {
        None
    } else if sym_name(items[i]) == Some("as"@) && i + 1 < items.len() && items[i + 1] is Sym
        && is_keyword(kw, items[i + 1]->Sym_0) {
        Some((items[i + 1]->Sym_0, items[i + 1]->Sym_1, "import 别名"@))
    } else {
        first_keyword_alias(items, i + 1, kw)
    }
}

/// The kind of binder a single-name form is.
pub open spec fn single_binder_kind(head: Seq<char>) -> Seq<char> {
    if head == "module"@ {
        "模块名"@
    } else if head == "set!"@ {
        "赋值目标"@
    } else {
        "绑定名"@
    }
}

/// The violation in the binders of the form `items` itself (not inside
/// its sub-forms).
pub open spec fn own_violation(head: Seq<char>, items: Seq<StxV>, kw: Seq<String>) -> Option<
    BindingViolation,
> {
    if head == "define"@ || head == "set!"@ || head == "module"@ || head == "define-syntax"@ {
        if items.len() >= 2 && items[1] is Sym && is_keyword(kw, items[1]->Sym_0) {
            Some(
                (
                    items[1]->Sym_0,
                    items[1]->Sym_1,
                    if head == "define-syntax"@ {
                        "宏名"@
                    } else {
                        single_binder_kind(head)
                    },
                ),
            )
        } else {
            None
        }
    } else if head == "lambda"@ {
        if items.len() >= 2 && items[1] is List {
            first_keyword_symbol(items[1]->List_0, 0, kw, "lambda 参数"@)
        } else {
            None
        }
    } else if head == "let"@ || head == "letrec"@ || head == "let*"@ {
        if items.len() >= 2 && items[1] is List {
            first_keyword_binding(items[1]->List_0, 0, kw)
        } else {
            None
        }
    } else if head == "import"@ {
        first_keyword_alias(items, 1, kw)
    } else {
        None
    }
}

/// The first keyword bound in `v` or in its sub-forms, in source order.
/// The template of a `define-syntax` is data and is not looked into.
pub open spec fn binding_violation(v: StxV, kw: Seq<String>) -> Option<BindingViolation>
    decreases v,
{
    match v {
        StxV::List(items, _) => if items.len() == 0 {
            None
        } else {
            let head = match sym_name(items[0]) {
                Some(n) => n,
                None => Seq::empty(),
            };
            match own_violation(head, items, kw) {
                Some(x) => Some(x),
                None => if head == "define-syntax"@ {
                    None
                } else {
                    first_violation_in(items, kw)
                },
            }
        },
        _ => None,
    }
}

/// The first violation among a sequence of forms.
pub open spec fn first_violation_in(vs: Seq<StxV>, kw: Seq<String>) -> Option<BindingViolation>
    decreases vs,
{
    if vs.len() == 0 {
        None
    } else {
        match binding_violation(vs[0], kw) {
            Some(x) => Some(x),
            None => first_violation_in(vs.drop_first(), kw),
        }
    }
}

// ---- the check ----

/// A found violation `r` is the violation `v` of the rule.
pub open spec fn found_binding(r: Option<(String, Span, String)>, v: Option<BindingViolation>) -> bool {
    match v {
        Some(x) => r matches Some(y) && y.0@ == x.0 && y.1 == x.1 && y.2@ == x.2,
        None => r is None,
    }
}

/// Whether `name` is one of the keywords.
fn keyword_in(kw: &Vec<String>, name: &String) -> (b: bool)
    ensures
        b == is_keyword(kw@, name@),
{
    let mut k: usize = 0;
    while k < kw.len()
        invariant
            k <= kw@.len(),
            forall|j: int| 0 <= j < k ==> (#[trigger] kw@[j])@ != name@,
        decreases kw@.len() - k,
    {
        if kw[k] == *name {
            return true;
        }
        k = k + 1;
    }
    false
}

/// The first symbol of `vs` naming a keyword.
fn first_keyword_symbol_of(vs: &Vec<Stx>, kw: &Vec<String>, kind: &str) -> (r: Option<(String, Span, String)>)
    ensures
        found_binding(r, first_keyword_symbol(stx_views(vs@), 0, kw@, kind@)),
{
    let ghost views = stx_views(vs@);
    proof {
        crate::parser::lemma_views_index(vs@);
    }
    let mut k: usize = 0;
    while k < vs.len()
        invariant
            views == stx_views(vs@),
            views.len() == vs@.len(),
            forall|j: int| 0 <= j < vs@.len() ==> #[trigger] views[j] == stx_view(vs@[j]),
            k <= vs@.len(),
            first_keyword_symbol(views, k as int, kw@, kind@) == first_keyword_symbol(
                views,
                0,
                kw@,
                kind@,
            ),
        decreases vs@.len() - k,
    {
        assert(views[k as int] == stx_view(vs@[k as int]));
        match &vs[k].datum {
            StxDatum::Symbol(n) => {
                if keyword_in(kw, n) {
                    return Some((n.clone(), vs[k].span, string_of(kind)));
                }
            },
            _ => {},
        }
        k = k + 1;
    }
    None
}

/// The first binding pair of `bs` whose name is a keyword.
fn first_keyword_binding_of(bs: &Vec<Stx>, kw: &Vec<String>) -> (r: Option<(String, Span, String)>)
    ensures
        found_binding(r, first_keyword_binding(stx_views(bs@), 0, kw@)),
{
    let ghost views = stx_views(bs@);
    proof {
        crate::parser::lemma_views_index(bs@);
    }
    let mut k: usize = 0;
    while k < bs.len()
        invariant
            views == stx_views(bs@),
            views.len() == bs@.len(),
            forall|j: int| 0 <= j < bs@.len() ==> #[trigger] views[j] == stx_view(bs@[j]),
            k <= bs@.len(),
            first_keyword_binding(views, k as int, kw@) == first_keyword_binding(views, 0, kw@),
        decreases bs@.len() - k,
    {
        assert(views[k as int] == stx_view(bs@[k as int]));
        match &bs[k].datum {
            StxDatum::List(pair) => {
                proof {
                    crate::parser::lemma_views_index(pair@);
                }
                if pair.len() > 0 {
                    match &pair[0].datum {
                        StxDatum::Symbol(n) => {
                            assert(stx_views(pair@)[0] == stx_view(pair@[0]));
                            if keyword_in(kw, n) {
                                return Some((n.clone(), pair[0].span, string_of("let 绑定名")));
                            }
                        },
                        _ => {
                            assert(stx_views(pair@)[0] == stx_view(pair@[0]));
                        },
                    }
                }
            },
            _ => {},
        }
        k = k + 1;
    }
    None
}

/// The first `as` alias of an `import` form that is a keyword.
fn first_keyword_alias_of(items: &Vec<Stx>, kw: &Vec<String>) -> (r: Option<(String, Span, String)>)
    ensures
        found_binding(r, first_keyword_alias(stx_views(items@), 1, kw@)),
{
    let ghost views = stx_views(items@);
    proof {
        crate::parser::lemma_views_index(items@);
    }
    let mut i: usize = 1;
    while i < items.len()
        invariant
            views == stx_views(items@),
            views.len() == items@.len(),
            forall|j: int| 0 <= j < items@.len() ==> #[trigger] views[j] == stx_view(items@[j]),
            1 <= i,
            first_keyword_alias(views, i as int, kw@) == first_keyword_alias(views, 1, kw@),
        decreases items@.len() - i,
    {
        assert(views[i as int] == stx_view(items@[i as int]));
        let is_as = match &items[i].datum {
            StxDatum::Symbol(n) => crate::text::same_text(n.as_str(), "as"),
            _ => false,
        };
        if is_as && i + 1 < items.len() {
            assert(views[i + 1] == stx_view(items@[i + 1]));
            match &items[i + 1].datum {
                StxDatum::Symbol(a) => {
                    if keyword_in(kw, a) {
                        return Some((a.clone(), items[i + 1].span, string_of("import 别名")));
                    }
                },
                _ => {},
            }
        }
        i = i + 1;
    }
    None
}

/// The violation in the binders of the form `items` (headed by `head`).
fn own_violation_of(head: &String, items: &Vec<Stx>, kw: &Vec<String>) -> (r: Option<(String, Span, String)>)
    ensures
        found_binding(r, own_violation(head@, stx_views(items@), kw@)),
{
    let ghost views = stx_views(items@);
    proof {
        crate::parser::lemma_views_index(items@);
    }
    let h = head.as_str();
    let is_define = crate::text::same_text(h, "define");
    let is_set = crate::text::same_text(h, "set!");
    let is_module = crate::text::same_text(h, "module");
    let is_syntax = crate::text::same_text(h, "define-syntax");
    if is_define || is_set || is_module || is_syntax {
        if items.len() >= 2 {
            assert(views[1] == stx_view(items@[1]));
            match &items[1].datum {
                StxDatum::Symbol(n) => {
                    if keyword_in(kw, n) {
                        let kind = if is_syntax {
                            string_of("宏名")
                        } else if is_module {
                            string_of("模块名")
                        } else if is_set {
                            string_of("赋值目标")
                        } else {
                            string_of("绑定名")
                        };
                        return Some((n.clone(), items[1].span, kind));
                    }
                },
                _ => {},
            }
        }
        return None;
    }
    if crate::text::same_text(h, "lambda") {
        if items.len() >= 2 {
            assert(views[1] == stx_view(items@[1]));
            match &items[1].datum {
                StxDatum::List(params) => {
                    return first_keyword_symbol_of(params, kw, "lambda 参数");
                },
                _ => {},
            }
        }
        return None;
    }
    if crate::text::same_text(h, "let") || crate::text::same_text(h, "letrec")
        || crate::text::same_text(h, "let*") {
        if items.len() >= 2 {
            assert(views[1] == stx_view(items@[1]));
            match &items[1].datum {
                StxDatum::List(bs) => {
                    return first_keyword_binding_of(bs, kw);
                },
                _ => {},
            }
        }
        return None;
    }
    if crate::text::same_text(h, "import") {
        return first_keyword_alias_of(items, kw);
    }
    None
}

/// The first keyword bound in form `f` or its sub-forms.
pub fn reserved_stx_diag(f: &Stx, kw: &Vec<String>) -> (r: Option<(String, Span, String)>)
    ensures
        found_binding(r, binding_violation(stx_view(*f), kw@)),
    decreases f,
{
    match &f.datum {
        StxDatum::List(items) => {
            if items.len() == 0 {
                return None;
            }
            proof {
                crate::parser::lemma_views_index(items@);
            }
            let head = match &items[0].datum {
                StxDatum::Symbol(n) => n.clone(),
                _ => String::new(),
            };
            proof {
                assert(stx_views(items@)[0] == stx_view(items@[0]));
            }
            let own = own_violation_of(&head, items, kw);
            if own.is_some() {
                return own;
            }
            if crate::text::same_text(head.as_str(), "define-syntax") {
                return None;
            }
            first_violation_among(items, kw)
        },
        _ => None,
    }
}

/// The first keyword bound in any of `items`, in order.
fn first_violation_among(items: &Vec<Stx>, kw: &Vec<String>) -> (r: Option<(String, Span, String)>)
    ensures
        found_binding(r, first_violation_in(stx_views(items@), kw@)),
    decreases items,
{
    let ghost views = stx_views(items@);
    proof {
        crate::parser::lemma_views_index(items@);
        assert(views.subrange(0, views.len() as int) =~= views);
    }
    let mut k: usize = 0;
    while k < items.len()
        invariant
            views == stx_views(items@),
            views.len() == items@.len(),
            forall|j: int| 0 <= j < items@.len() ==> #[trigger] views[j] == stx_view(items@[j]),
            k <= items@.len(),
            first_violation_in(views.subrange(k as int, views.len() as int), kw@) == first_violation_in(
                views,
                kw@,
            ),
        decreases items@.len() - k,
    {
        let ghost rest = views.subrange(k as int, views.len() as int);
        proof {
            assert(rest[0] == views[k as int]);
            assert(rest.drop_first() =~= views.subrange(k + 1, views.len() as int));
            assert(views[k as int] == stx_view(items@[k as int]));
        }
        let r = reserved_stx_diag(&items[k], kw);
        if r.is_some() {
            return r;
        }
        k = k + 1;
    }
    proof {
        assert(views.subrange(k as int, views.len() as int) =~= Seq::<StxV>::empty());
    }
    None
}

/// The message of a bound keyword.
pub open spec fn binding_message(name: Seq<char>, kind: Seq<char>) -> Seq<char> {
    "保留字不可绑定：「"@ + name + "」是 N4 关键字（"@ + kind
        + "）——关键字不是值、不可引用、不可遮蔽（22 §2.1）；同名绑定在操作位将被关键字形式静默覆盖，故编译期显式拒绝（E0020，深审 D10）"@
}

/// The diagnostic of a bound keyword: error E0020 at the binding.
pub open spec fn binding_diagnostic(v: BindingViolation, d: Diagnostic) -> bool {
    &&& d.severity == Severity::Error
    &&& d.code == Some(DiagnosticCode(RESERVED_BINDING_CODE))
    &&& d.message@ == binding_message(v.0, v.2)
    &&& d.primary_span == v.1
    &&& d.children@.len() == 0
    &&& d.suggestions@.len() == 0
}

/// The diagnostic for keyword `name` bound at `span` by a `kind` binder.
pub fn reserved_binding_diag(name: &str, span: Span, kind: &str) -> (d: Diagnostic)
    ensures
        binding_diagnostic((name@, span, kind@), d),
{
    let mut m = string_of("保留字不可绑定：「");
    push_str(&mut m, name);
    push_str(&mut m, "」是 N4 关键字（");
    push_str(&mut m, kind);
    push_str(
        &mut m,
        "）——关键字不是值、不可引用、不可遮蔽（22 §2.1）；同名绑定在操作位将被关键字形式静默覆盖，故编译期显式拒绝（E0020，深审 D10）",
    );
    Diagnostic::error(Some(DiagnosticCode(RESERVED_BINDING_CODE)), m.as_str(), span)
}

/// The reserved-word rule on a program's source forms: the first keyword
/// bound (in source order) is a compile-stage error E0020; `kw` are the
/// keywords' names.
pub fn verify_reserved_bindings_stx(forms: &Vec<Stx>, kw: &Vec<String>, sm: &SourceMap) -> (r: Result<
    (),
    DriverError,
>)
    requires
        sm.wf(),
        first_violation_in(stx_views(forms@), kw@) matches Some(v) ==> sm.position_ok(
            v.1.file_id,
            v.1.start,
        ),
    ensures
        match first_violation_in(stx_views(forms@), kw@) {
            None => r is Ok,
            Some(v) => r matches Err(e) && binding_diagnostic(v, e.diagnostic) && error_of(
                Stage::Compile,
                e.diagnostic,
                *sm,
                e,
            ),
        },
{
    match first_violation_among(forms, kw) {
        None => Ok(()),
        Some((name, span, kind)) => {
            let diag = reserved_binding_diag(name.as_str(), span, kind.as_str());
            let rendered = render_diagnostic(&diag, sm);
            Err(DriverError { stage: Stage::Compile, diagnostic: diag, rendered })
        },
    }
}

// ---- the rule on expanded programs ----

/// The first of the parameters `ps` (from `k` on) that is a keyword.
pub open spec fn first_keyword_param(ps: Seq<String>, k: int, kw: Seq<String>) -> Option<Seq<char>>
    decreases ps.len() - k,
{
    if k < 0 || k >= ps.len() {
        None
    } else if is_keyword(kw, ps[k]@) {
        Some(ps[k]@)
    } else {
        first_keyword_param(ps, k + 1, kw)
    }
}

/// The first keyword bound in an expanded expression, in program order:
/// by `define`, `set!` (whose values are not looked into), a lambda's
/// parameters, a module's name, or a handler's payload and continuation
/// names; each reported at the binding form.
pub open spec fn core_binding_violation(e: CoreExpr, kw: Seq<String>) -> Option<BindingViolation>
    decreases e,
{
    match e {
        CoreExpr::Define { name, span, .. } => if is_keyword(kw, name@) {
            Some((name@, span, "绑定名（展开产物）"@))
        } else {
            None
        },
        CoreExpr::SetBang { name, span, .. } => if is_keyword(kw, name@) {
            Some((name@, span, "赋值目标（展开产物）"@))
        } else {
            None
        },
        CoreExpr::Lambda { params, body, span } => match first_keyword_param(params@, 0, kw) {
            Some(n) => Some((n, span, "lambda 参数（展开产物）"@)),
            None => core_binding_violation(*body, kw),
        },
        CoreExpr::Module { name, body, span, .. } => if is_keyword(kw, name@) {
            Some((name@, span, "模块名（展开产物）"@))
        } else {
            core_binding_violation_all(body@, kw)
        },
        CoreExpr::Handle { payload_var, resume_var, handler_body, body, span } => if is_keyword(
            kw,
            payload_var@,
        ) {
            Some((payload_var@, span, "handle 载荷绑定"@))
        } else if is_keyword(kw, resume_var@) {
            Some((resume_var@, span, "handle 恢复绑定"@))
        } else {
            match core_binding_violation(*handler_body, kw) {
                Some(x) => Some(x),
                None => core_binding_violation(*body, kw),
            }
        },
        CoreExpr::Begin { body, .. } => core_binding_violation_all(body@, kw),
        CoreExpr::App { fn_expr, args, .. } => match core_binding_violation(*fn_expr, kw) {
            Some(x) => Some(x),
            None => core_binding_violation_all(args@, kw),
        },
        CoreExpr::If { cond, then_branch, else_branch, .. } => match core_binding_violation(
            *cond,
            kw,
        ) {
            Some(x) => Some(x),
            None => match core_binding_violation(*then_branch, kw) {
                Some(x) => Some(x),
                None => core_binding_violation(*else_branch, kw),
            },
        },
        CoreExpr::Perform { effect, .. } => core_binding_violation(*effect, kw),
        _ => None,
    }
}

/// The first keyword bound among `es`, one expression after another.
pub open spec fn core_binding_violation_all(es: Seq<CoreExpr>, kw: Seq<String>) -> Option<
    BindingViolation,
>
    decreases es,
{
    if es.len() == 0 {
        None
    } else {
        match core_binding_violation_all(es.drop_last(), kw) {
            Some(x) => Some(x),
            None => core_binding_violation(es.last(), kw),
        }
    }
}

/// The diagnostic `r` reports violation `v`.
pub open spec fn reports_binding(r: Option<Diagnostic>, v: Option<BindingViolation>) -> bool {
    match v {
        Some(x) => r matches Some(d) && binding_diagnostic(x, d),
        None => r is None,
    }
}

/// The first keyword among the parameters.
fn first_keyword_param_of(ps: &Vec<String>, kw: &Vec<String>) -> (r: Option<usize>)
    ensures
        match first_keyword_param(ps@, 0, kw@) {
            Some(n) => r matches Some(k) && k < ps@.len() && ps@[k as int]@ == n,
            None => r is None,
        },
{
    let mut k: usize = 0;
    while k < ps.len()
        invariant
            k <= ps@.len(),
            first_keyword_param(ps@, k as int, kw@) == first_keyword_param(ps@, 0, kw@),
        decreases ps@.len() - k,
    {
        if keyword_in(kw, &ps[k]) {
            return Some(k);
        }
        k = k + 1;
    }
    None
}

/// The diagnostic of the first keyword bound in an expanded expression.
pub fn reserved_core_diag(e: &CoreExpr, kw: &Vec<String>) -> (r: Option<Diagnostic>)
    ensures
        reports_binding(r, core_binding_violation(*e, kw@)),
    decreases e,
{
    match e {
        CoreExpr::Define { name, span, .. } => {
            if keyword_in(kw, name) {
                Some(reserved_binding_diag(name.as_str(), *span, "绑定名（展开产物）"))
            } else {
                None
            }
        },
        CoreExpr::SetBang { name, span, .. } => {
            if keyword_in(kw, name) {
                Some(reserved_binding_diag(name.as_str(), *span, "赋值目标（展开产物）"))
            } else {
                None
            }
        },
        CoreExpr::Lambda { params, body, span } => {
            match first_keyword_param_of(params, kw) {
                Some(k) => Some(
                    reserved_binding_diag(params[k].as_str(), *span, "lambda 参数（展开产物）"),
                ),
                None => reserved_core_diag(body, kw),
            }
        },
        CoreExpr::Module { name, body, span, .. } => {
            if keyword_in(kw, name) {
                Some(reserved_binding_diag(name.as_str(), *span, "模块名（展开产物）"))
            } else {
                reserved_core_seq(body, kw)
            }
        },
        CoreExpr::Handle { payload_var, resume_var, handler_body, body, span } => {
            if keyword_in(kw, payload_var) {
                Some(reserved_binding_diag(payload_var.as_str(), *span, "handle 载荷绑定"))
            } else if keyword_in(kw, resume_var) {
                Some(reserved_binding_diag(resume_var.as_str(), *span, "handle 恢复绑定"))
            } else {
                let r = reserved_core_diag(handler_body, kw);
                if r.is_some() {
                    return r;
                }
                reserved_core_diag(body, kw)
            }
        },
        CoreExpr::Begin { body, .. } => reserved_core_seq(body, kw),
        CoreExpr::App { fn_expr, args, .. } => {
            let r = reserved_core_diag(fn_expr, kw);
            if r.is_some() {
                return r;
            }
            reserved_core_seq(args, kw)
        },
        CoreExpr::If { cond, then_branch, else_branch, .. } => {
            let r = reserved_core_diag(cond, kw);
            if r.is_some() {
                return r;
            }
            let r = reserved_core_diag(then_branch, kw);
            if r.is_some() {
                return r;
            }
            reserved_core_diag(else_branch, kw)
        },
        CoreExpr::Perform { effect, .. } => reserved_core_diag(effect, kw),
        _ => None,
    }
}

proof fn lemma_core_violation_tail(es: Seq<CoreExpr>, i: int, kw: Seq<String>)
    requires
        0 <= i < es.len(),
        core_binding_violation_all(es.subrange(0, i + 1), kw) is Some,
    ensures
        core_binding_violation_all(es, kw) == core_binding_violation_all(es.subrange(0, i + 1), kw),
    decreases es.len() - i,
{
    if i + 1 < es.len() {
        assert(es.subrange(0, i + 2).drop_last() =~= es.subrange(0, i + 1));
        lemma_core_violation_tail(es, i + 1, kw);
    } else {
        assert(es.subrange(0, i + 1) =~= es);
    }
}

/// The diagnostic of the first keyword bound among `es`.
fn reserved_core_seq(es: &Vec<CoreExpr>, kw: &Vec<String>) -> (r: Option<Diagnostic>)
    ensures
        reports_binding(r, core_binding_violation_all(es@, kw@)),
    decreases es,
{
    let mut i: usize = 0;
    proof {
        assert(es@.subrange(0, 0) =~= Seq::<CoreExpr>::empty());
    }
    while i < es.len()
        invariant
            i <= es@.len(),
            core_binding_violation_all(es@.subrange(0, i as int), kw@) is None,
        decreases es@.len() - i,
    {
        proof {
            assert(es@.subrange(0, i + 1).drop_last() =~= es@.subrange(0, i as int));
            assert(es@.subrange(0, i + 1).last() == es@[i as int]);
        }
        let r = reserved_core_diag(&es[i], kw);
        if r.is_some() {
            proof {
                lemma_core_violation_tail(es@, i as int, kw@);
            }
            return r;
        }
        i = i + 1;
    }
    proof {
        assert(es@.subrange(0, i as int) =~= es@);
    }
    None
}

proof fn lemma_core_violation_placed(e: CoreExpr, kw: Seq<String>, sm: SourceMap)
    requires
        placed(e, sm),
    ensures
        core_binding_violation(e, kw) matches Some(v) ==> sm.position_ok(v.1.file_id, v.1.start),
    decreases e,
{
    match e {
        CoreExpr::Lambda { body, .. } => lemma_core_violation_placed(*body, kw, sm),
        CoreExpr::Module { body, .. } => lemma_core_violation_placed_all(body@, kw, sm),
        CoreExpr::Handle { handler_body, body, .. } => {
            lemma_core_violation_placed(*handler_body, kw, sm);
            lemma_core_violation_placed(*body, kw, sm);
        },
        CoreExpr::Begin { body, .. } => lemma_core_violation_placed_all(body@, kw, sm),
        CoreExpr::App { fn_expr, args, .. } => {
            lemma_core_violation_placed(*fn_expr, kw, sm);
            lemma_core_violation_placed_all(args@, kw, sm);
        },
        CoreExpr::If { cond, then_branch, else_branch, .. } => {
            lemma_core_violation_placed(*cond, kw, sm);
            lemma_core_violation_placed(*then_branch, kw, sm);
            lemma_core_violation_placed(*else_branch, kw, sm);
        },
        CoreExpr::Perform { effect, .. } => lemma_core_violation_placed(*effect, kw, sm),
        _ => {},
    }
}

proof fn lemma_core_violation_placed_all(es: Seq<CoreExpr>, kw: Seq<String>, sm: SourceMap)
    requires
        placed_all(es, sm),
    ensures
        core_binding_violation_all(es, kw) matches Some(v) ==> sm.position_ok(v.1.file_id, v.1.start),
    decreases es,
{
    if es.len() > 0 {
        lemma_core_violation_placed_all(es.drop_last(), kw, sm);
        lemma_core_violation_placed(es.last(), kw, sm);
    }
}

/// The reserved-word rule on an expanded program (names a macro
/// template introduced are checked too): the first keyword bound is a
/// compile-stage error E0020.
pub fn verify_reserved_bindings_core(core: &Vec<CoreExpr>, kw: &Vec<String>, sm: &SourceMap) -> (r:
    Result<(), DriverError>)
    requires
        sm.wf(),
        placed_all(core@, *sm),
    ensures
        match core_binding_violation_all(core@, kw@) {
            None => r is Ok,
            Some(v) => r matches Err(e) && binding_diagnostic(v, e.diagnostic) && error_of(
                Stage::Compile,
                e.diagnostic,
                *sm,
                e,
            ),
        },
{
    proof {
        lemma_core_violation_placed_all(core@, kw@, *sm);
    }
    match reserved_core_seq(core, kw) {
        None => Ok(()),
        Some(diag) => {
            let rendered = render_diagnostic(&diag, sm);
            Err(DriverError { stage: Stage::Compile, diagnostic: diag, rendered })
        },
    }
}

} // verus!
