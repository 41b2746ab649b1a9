//! Rules on the structure of an expanded program: a module defines each
//! name once (E0016); `require` is a declaration and stands only at the
//! top of the program or of a module body (E0018); and the warnings for a
//! binding that shadows an imported name (W1002) or a macro that shadows a
//! builtin (W1003).
use vstd::prelude::*;

use crate::bindings::sym_name;
use crate::core_expr::{placed, placed_all, CoreExpr};
use crate::diagnostic::{render_diagnostic, Diagnostic, DiagnosticCode, Severity};
use crate::driver::{error_of, DriverError, Stage};
use crate::parser::{stx_view, stx_views, Stx, StxDatum, StxV};
use crate::source_map::SourceMap;
use crate::span::Span;
use crate::capability::{holds, holds_text, hygienic_base, lemma_holds_push, spec_hygienic_base};
use crate::imports::ImportFace;
use crate::modules::{builtin_name_exists, is_builtin_name};
use crate::qualified::text_set;
use crate::text::{push_str, same_text, string_of, texts};

verus! {

/// The diagnostic code of a name defined twice in one module (E0016).
pub const MODULE_DUPLICATE_CODE: u32 = 16;
/// The diagnostic code of a `require` inside an expression (E0018).
pub const REQUIRE_POSITION_CODE: u32 = 18;

// ---- one definition per name ----

/// A duplicate definition: the module, the name, and the second `define`.
pub type Duplicate = (Seq<char>, Seq<char>, Span);

/// Some `define` among `items` before position `k` defines `n`.
pub open spec fn defined_before(items: Seq<CoreExpr>, k: int, n: Seq<char>) -> bool {
    exists|j: int| 0 <= j < k && (#[trigger] items[j]) is Define && items[j]->Define_name@ == n
}

/// The first duplicate in `e`: in a module body, a `define` of a name an
/// earlier `define` of the same body defined, or one inside a body item;
/// modules nested in `begin` forms are checked too.
pub open spec fn duplicate_in(e: CoreExpr) -> Option<Duplicate>
    decreases e,
{
    match e {
        CoreExpr::Module { name, body, .. } => duplicate_in_body(name@, body@),
        CoreExpr::Begin { body, .. } => duplicate_in_all(body@),
        _ => None,
    }
}

/// The first duplicate in the body `items` of module `m`.
pub open spec fn duplicate_in_body(m: Seq<char>, items: Seq<CoreExpr>) -> Option<Duplicate>
    decreases items,
{
    if items.len() == 0 {
        None
    } else {
        match duplicate_in_body(m, items.drop_last()) {
            Some(x) => Some(x),
            None => {
                let k = items.len() - 1;
                let item = items[k];
                if item is Define && defined_before(items, k, item->Define_name@) {
                    Some((m, item->Define_name@, item->Define_span))
                } else {
                    duplicate_in(item)
                }
            },
        }
    }
}

/// The first duplicate among `es`.
pub open spec fn duplicate_in_all(es: Seq<CoreExpr>) -> Option<Duplicate>
    decreases es,
{
    if es.len() == 0 {
        None
    } else {
        match duplicate_in_all(es.drop_last()) {
            Some(x) => Some(x),
            None => duplicate_in(es.last()),
        }
    }
}

/// The diagnostic of a duplicate definition.
pub open spec fn duplicate_diagnostic(x: Duplicate, d: Diagnostic) -> bool {
    &&& d.severity == Severity::Error
    &&& d.code == Some(DiagnosticCode(MODULE_DUPLICATE_CODE))
    &&& d.message@ == "重复定义：模块「"@ + x.0 + "」内 define「"@ + x.1
        + "」重复（09 v6.2 既有裁定——显式报重复定义非静默遮蔽）"@
    &&& d.primary_span == x.2
    &&& d.children@.len() == 0
    &&& d.suggestions@.len() == 0
}

/// `r` reports the duplicate `x`.
pub open spec fn reports_duplicate(r: Option<Diagnostic>, x: Option<Duplicate>) -> bool {
    match x {
        Some(v) => r matches Some(d) && duplicate_diagnostic(v, d),
        None => r is None,
    }
}

proof fn lemma_defined_before_step(items: Seq<CoreExpr>, k: int, n: Seq<char>)
    requires
        0 <= k < items.len(),
    ensures
        defined_before(items, k + 1, n) == (defined_before(items, k, n) || (items[k] is Define
            && items[k]->Define_name@ == n)),
{
    if defined_before(items, k + 1, n) {
        let j = choose|j: int| 0 <= j < k + 1 && (#[trigger] items[j]) is Define && items[j]->Define_name@ == n;
        if j < k {
            assert(defined_before(items, k, n));
        }
    }
}

proof fn lemma_defined_before_prefix(items: Seq<CoreExpr>, k: int, n: Seq<char>, len: int)
    requires
        0 <= k <= len <= items.len(),
    ensures
        defined_before(items.subrange(0, len), k, n) == defined_before(items, k, n),
{
    let p = items.subrange(0, len);
    if defined_before(p, k, n) {
        let j = choose|j: int| 0 <= j < k && (#[trigger] p[j]) is Define && p[j]->Define_name@ == n;
        assert(items[j] == p[j]);
    }
    if defined_before(items, k, n) {
        let j = choose|j: int| 0 <= j < k && (#[trigger] items[j]) is Define && items[j]->Define_name@ == n;
        assert(items[j] == p[j]);
    }
}

/// The names defined by the `define` forms of `v`.
pub open spec fn define_names(v: Seq<CoreExpr>, k: int) -> Set<Seq<char>> {
    Set::new(|n: Seq<char>| defined_before(v, k, n))
}

/// The first duplicate in `e`.
pub fn module_dup_diag(e: &CoreExpr) -> (r: Option<Diagnostic>)
    ensures
        reports_duplicate(r, duplicate_in(*e)),
    decreases e,
{
    match e {
        CoreExpr::Module { name, body, .. } => module_body_dup(name, body),
        CoreExpr::Begin { body, .. } => module_dup_seq(body),
        _ => None,
    }
}

/// The first duplicate in the body of module `name`.
fn module_body_dup(name: &String, body: &Vec<CoreExpr>) -> (r: Option<Diagnostic>)
    ensures
        reports_duplicate(r, duplicate_in_body(name@, body@)),
    decreases body,
{
    let ghost items = body@;
    let mut seen: Vec<String> = Vec::new();
    let mut k: usize = 0;
    proof {
        assert(items.subrange(0, 0) =~= Seq::<CoreExpr>::empty());
    }
    while k < body.len()
        invariant
            items == body@,
            k <= items.len(),
            duplicate_in_body(name@, items.subrange(0, k as int)) is None,
            forall|n: Seq<char>|
                #![trigger crate::capability::holds_text(seen@, n)]
                crate::capability::holds_text(seen@, n) == defined_before(items, k as int, n),
        decreases items.len() - k,
    {
        let ghost pre = items.subrange(0, k as int);
        let ghost next = items.subrange(0, k + 1);
        proof {
            assert(next.drop_last() =~= pre);
            assert(next[k as int] == items[k as int]);
        }
        match &body[k] {
            CoreExpr::Define { name: d, span: dspan, .. } => {
                if crate::capability::holds(&seen, d) {
                    proof {
                        lemma_defined_before_prefix(items, k as int, d@, k + 1);
                        assert(duplicate_in_body(name@, next) == Some((name@, d@, *dspan)));
                        lemma_duplicate_tail(name@, items, k as int);
                    }
                    let mut m = string_of("重复定义：模块「");
                    push_str(&mut m, name.as_str());
                    push_str(&mut m, "」内 define「");
                    push_str(&mut m, d.as_str());
                    push_str(&mut m, "」重复（09 v6.2 既有裁定——显式报重复定义非静默遮蔽）");
                    return Some(
                        Diagnostic::error(Some(DiagnosticCode(MODULE_DUPLICATE_CODE)), m.as_str(), *dspan),
                    );
                }
                let ghost s0 = seen@;
                seen.push(d.clone());
                proof {
                    assert forall|n: Seq<char>| #[trigger] crate::capability::holds_text(seen@, n)
                        == defined_before(items, k + 1, n) by {
                        crate::capability::lemma_holds_push(s0, *d, n);
                        lemma_defined_before_step(items, k as int, n);
                    }
                    lemma_defined_before_prefix(items, k as int, d@, k + 1);
                }
            },
            _ => {
                proof {
                    assert forall|n: Seq<char>| #[trigger] crate::capability::holds_text(seen@, n)
                        == defined_before(items, k + 1, n) by {
                        lemma_defined_before_step(items, k as int, n);
                    }
                }
            },
        }
        let r = module_dup_diag(&body[k]);
        if r.is_some() {
            proof {
                lemma_duplicate_tail(name@, items, k as int);
            }
            return r;
        }
        k = k + 1;
    }
    proof {
        assert(items.subrange(0, k as int) =~= items);
    }
    None
}

proof fn lemma_duplicate_tail(m: Seq<char>, items: Seq<CoreExpr>, k: int)
    requires
        0 <= k < items.len(),
        duplicate_in_body(m, items.subrange(0, k + 1)) is Some,
    ensures
        duplicate_in_body(m, items) == duplicate_in_body(m, items.subrange(0, k + 1)),
    decreases items.len() - k,
{
    if k + 1 < items.len() {
        assert(items.subrange(0, k + 2).drop_last() =~= items.subrange(0, k + 1));
        lemma_duplicate_tail(m, items, k + 1);
    } else {
        assert(items.subrange(0, k + 1) =~= items);
    }
}

proof fn lemma_duplicate_all_tail(es: Seq<CoreExpr>, k: int)
    requires
        0 <= k < es.len(),
        duplicate_in_all(es.subrange(0, k + 1)) is Some,
    ensures
        duplicate_in_all(es) == duplicate_in_all(es.subrange(0, k + 1)),
    decreases es.len() - k,
{
    if k + 1 < es.len() {
        assert(es.subrange(0, k + 2).drop_last() =~= es.subrange(0, k + 1));
        lemma_duplicate_all_tail(es, k + 1);
    } else {
        assert(es.subrange(0, k + 1) =~= es);
    }
}

/// The first duplicate among `es`.
fn module_dup_seq(es: &Vec<CoreExpr>) -> (r: Option<Diagnostic>)
    ensures
        reports_duplicate(r, duplicate_in_all(es@)),
    decreases es,
{
    let mut i: usize = 0;
    proof {
        assert(es@.subrange(0, 0) =~= Seq::<CoreExpr>::empty());
    }
    while i < es.len()
        invariant
            i <= es@.len(),
            duplicate_in_all(es@.subrange(0, i as int)) is None,
        decreases es@.len() - i,
    {
        proof {
            assert(es@.subrange(0, i + 1).drop_last() =~= es@.subrange(0, i as int));
            assert(es@.subrange(0, i + 1).last() == es@[i as int]);
        }
        let r = module_dup_diag(&es[i]);
        if r.is_some() {
            proof {
                lemma_duplicate_all_tail(es@, i as int);
            }
            return r;
        }
        i = i + 1;
    }
    proof {
        assert(es@.subrange(0, i as int) =~= es@);
    }
    None
}

proof fn lemma_duplicate_placed(e: CoreExpr, sm: SourceMap)
    requires
        placed(e, sm),
    ensures
        duplicate_in(e) matches Some(x) ==> sm.position_ok(x.2.file_id, x.2.start),
    decreases e,
{
    match e {
        CoreExpr::Module { name, body, .. } => lemma_duplicate_placed_body(name@, body@, sm),
        CoreExpr::Begin { body, .. } => lemma_duplicate_placed_all(body@, sm),
        _ => {},
    }
}

proof fn lemma_duplicate_placed_body(m: Seq<char>, items: Seq<CoreExpr>, sm: SourceMap)
    requires
        placed_all(items, sm),
    ensures
        duplicate_in_body(m, items) matches Some(x) ==> sm.position_ok(x.2.file_id, x.2.start),
    decreases items,
{
    if items.len() > 0 {
        lemma_duplicate_placed_body(m, items.drop_last(), sm);
        lemma_duplicate_placed(items.last(), sm);
    }
}

proof fn lemma_duplicate_placed_all(es: Seq<CoreExpr>, sm: SourceMap)
    requires
        placed_all(es, sm),
    ensures
        duplicate_in_all(es) matches Some(x) ==> sm.position_ok(x.2.file_id, x.2.start),
    decreases es,
{
    if es.len() > 0 {
        lemma_duplicate_placed_all(es.drop_last(), sm);
        lemma_duplicate_placed(es.last(), sm);
    }
}

/// One definition per name in each module body (nested modules are
/// checked on their own): the first duplicate is a compile-stage error
/// E0016 at the second `define`.
pub fn verify_module_define_duplicates(core: &Vec<CoreExpr>, sm: &SourceMap) -> (r: Result<
    (),
    DriverError,
>)
    requires
        sm.wf(),
        placed_all(core@, *sm),
    ensures
        match duplicate_in_all(core@) {
            None => r is Ok,
            Some(x) => r matches Err(e) && duplicate_diagnostic(x, e.diagnostic) && error_of(
                Stage::Compile,
                e.diagnostic,
                *sm,
                e,
            ),
        },
{
    proof {
        lemma_duplicate_placed_all(core@, *sm);
    }
    match module_dup_seq(core) {
        None => Ok(()),
        Some(diag) => {
            let rendered = render_diagnostic(&diag, sm);
            Err(DriverError { stage: Stage::Compile, diagnostic: diag, rendered })
        },
    }
}

// ---- where `require` may stand ----

/// The span of the first `require` in `e` that stands inside an
/// expression; `top` says whether `e` itself stands at the top of the
/// program or of a module body (a `begin` there keeps its items at the top).
pub open spec fn misplaced_require(e: CoreExpr, top: bool) -> Option<Span>
    decreases e,
{
    match e {
        CoreExpr::Require { span, .. } => if top {
            None
        } else {
            Some(span)
        },
        CoreExpr::Module { body, .. } => misplaced_require_all(body@, true),
        CoreExpr::Lambda { body, .. } => misplaced_require(*body, false),
        CoreExpr::App { fn_expr, args, .. } => match misplaced_require(*fn_expr, false) {
            Some(x) => Some(x),
            None => misplaced_require_all(args@, false),
        },
        CoreExpr::If { cond, then_branch, else_branch, .. } => match misplaced_require(*cond, false) {
            Some(x) => Some(x),
            None => match misplaced_require(*then_branch, false) {
                Some(x) => Some(x),
                None => misplaced_require(*else_branch, false),
            },
        },
        CoreExpr::SetBang { value, .. } => misplaced_require(*value, false),
        CoreExpr::Define { value, .. } => misplaced_require(*value, false),
        CoreExpr::Begin { body, .. } => misplaced_require_all(body@, top),
        CoreExpr::Perform { effect, .. } => misplaced_require(*effect, false),
        CoreExpr::Handle { handler_body, body, .. } => match misplaced_require(*handler_body, false) {
            Some(x) => Some(x),
            None => misplaced_require(*body, false),
        },
        _ => None,
    }
}

/// The first misplaced `require` among `es`, all at position `top`.
pub open spec fn misplaced_require_all(es: Seq<CoreExpr>, top: bool) -> Option<Span>
    decreases es,
{
    if es.len() == 0 {
        None
    } else {
        match misplaced_require_all(es.drop_last(), top) {
            Some(x) => Some(x),
            None => misplaced_require(es.last(), top),
        }
    }
}

/// The message of a misplaced `require`.
pub open spec fn require_position_message() -> Seq<char> {
    "require 位置违例：require 合法位 = 程序顶层或 module 体直接元素（当前位置为表达式子树内——require 是声明非表达式；深审 D3 裁定"@
}

/// The diagnostic of a misplaced `require` at `span`.
pub open spec fn require_diagnostic(span: Span, d: Diagnostic) -> bool {
    &&& d.severity == Severity::Error
    &&& d.code == Some(DiagnosticCode(REQUIRE_POSITION_CODE))
    &&& d.message@ == require_position_message()
    &&& d.primary_span == span
    &&& d.children@.len() == 0
    &&& d.suggestions@.len() == 0
}

/// `r` reports the misplaced `require` at `x`.
pub open spec fn reports_require(r: Option<Diagnostic>, x: Option<Span>) -> bool {
    match x {
        Some(span) => r matches Some(d) && require_diagnostic(span, d),
        None => r is None,
    }
}

/// The diagnostic of the first misplaced `require` in `e`.
pub fn require_pos_diag(e: &CoreExpr, top: bool) -> (r: Option<Diagnostic>)
    ensures
        reports_require(r, misplaced_require(*e, top)),
    decreases e,
{
    match e {
        CoreExpr::Require { span, .. } => {
            if top {
                None
            } else {
                Some(
                    Diagnostic::error(
                        Some(DiagnosticCode(REQUIRE_POSITION_CODE)),
                        "require 位置违例：require 合法位 = 程序顶层或 module 体直接元素（当前位置为表达式子树内——require 是声明非表达式；深审 D3 裁定",
                        *span,
                    ),
                )
            }
        },
        CoreExpr::Module { body, .. } => require_pos_seq(body, true),
        CoreExpr::Lambda { body, .. } => require_pos_diag(body, false),
        CoreExpr::App { fn_expr, args, .. } => {
            let r = require_pos_diag(fn_expr, false);
            if r.is_some() {
                return r;
            }
            require_pos_seq(args, false)
        },
        CoreExpr::If { cond, then_branch, else_branch, .. } => {
            let r = require_pos_diag(cond, false);
            if r.is_some() {
                return r;
            }
            let r = require_pos_diag(then_branch, false);
            if r.is_some() {
                return r;
            }
            require_pos_diag(else_branch, false)
        },
        CoreExpr::SetBang { value, .. } => require_pos_diag(value, false),
        CoreExpr::Define { value, .. } => require_pos_diag(value, false),
        CoreExpr::Begin { body, .. } => require_pos_seq(body, top),
        CoreExpr::Perform { effect, .. } => require_pos_diag(effect, false),
        CoreExpr::Handle { handler_body, body, .. } => {
            let r = require_pos_diag(handler_body, false);
            if r.is_some() {
                return r;
            }
            require_pos_diag(body, false)
        },
        _ => None,
    }
}

proof fn lemma_require_tail(es: Seq<CoreExpr>, k: int, top: bool)
    requires
        0 <= k < es.len(),
        misplaced_require_all(es.subrange(0, k + 1), top) is Some,
    ensures
        misplaced_require_all(es, top) == misplaced_require_all(es.subrange(0, k + 1), top),
    decreases es.len() - k,
{
    if k + 1 < es.len() {
        assert(es.subrange(0, k + 2).drop_last() =~= es.subrange(0, k + 1));
        lemma_require_tail(es, k + 1, top);
    } else {
        assert(es.subrange(0, k + 1) =~= es);
    }
}

/// The diagnostic of the first misplaced `require` among `es`.
fn require_pos_seq(es: &Vec<CoreExpr>, top: bool) -> (r: Option<Diagnostic>)
    ensures
        reports_require(r, misplaced_require_all(es@, top)),
    decreases es,
{
    let mut i: usize = 0;
    proof {
        assert(es@.subrange(0, 0) =~= Seq::<CoreExpr>::empty());
    }
    while i < es.len()
        invariant
            i <= es@.len(),
            misplaced_require_all(es@.subrange(0, i as int), top) is None,
        decreases es@.len() - i,
    {
        proof {
            assert(es@.subrange(0, i + 1).drop_last() =~= es@.subrange(0, i as int));
            assert(es@.subrange(0, i + 1).last() == es@[i as int]);
        }
        let r = require_pos_diag(&es[i], top);
        if r.is_some() {
            proof {
                lemma_require_tail(es@, i as int, top);
            }
            return r;
        }
        i = i + 1;
    }
    proof {
        assert(es@.subrange(0, i as int) =~= es@);
    }
    None
}

proof fn lemma_require_placed(e: CoreExpr, top: bool, sm: SourceMap)
    requires
        placed(e, sm),
    ensures
        misplaced_require(e, top) matches Some(x) ==> sm.position_ok(x.file_id, x.start),
    decreases e,
{
    match e {
        CoreExpr::Module { body, .. } => lemma_require_placed_all(body@, true, sm),
        CoreExpr::Lambda { body, .. } => lemma_require_placed(*body, false, sm),
        CoreExpr::App { fn_expr, args, .. } => {
            lemma_require_placed(*fn_expr, false, sm);
            lemma_require_placed_all(args@, false, sm);
        },
        CoreExpr::If { cond, then_branch, else_branch, .. } => {
            lemma_require_placed(*cond, false, sm);
            lemma_require_placed(*then_branch, false, sm);
            lemma_require_placed(*else_branch, false, sm);
        },
        CoreExpr::SetBang { value, .. } => lemma_require_placed(*value, false, sm),
        CoreExpr::Define { value, .. } => lemma_require_placed(*value, false, sm),
        CoreExpr::Begin { body, .. } => lemma_require_placed_all(body@, top, sm),
        CoreExpr::Perform { effect, .. } => lemma_require_placed(*effect, false, sm),
        CoreExpr::Handle { handler_body, body, .. } => {
            lemma_require_placed(*handler_body, false, sm);
            lemma_require_placed(*body, false, sm);
        },
        _ => {},
    }
}

proof fn lemma_require_placed_all(es: Seq<CoreExpr>, top: bool, sm: SourceMap)
    requires
        placed_all(es, sm),
    ensures
        misplaced_require_all(es, top) matches Some(x) ==> sm.position_ok(x.file_id, x.start),
    decreases es,
{
    if es.len() > 0 {
        lemma_require_placed_all(es.drop_last(), top, sm);
        lemma_require_placed(es.last(), top, sm);
    }
}

/// `require` stands only at the top of the program or of a module body:
/// the first one inside an expression is a compile-stage error E0018.
pub fn verify_require_positions(core: &Vec<CoreExpr>, sm: &SourceMap) -> (r: Result<(), DriverError>)
    requires
        sm.wf(),
        placed_all(core@, *sm),
    ensures
        match misplaced_require_all(core@, true) {
            None => r is Ok,
            Some(x) => r matches Err(e) && require_diagnostic(x, e.diagnostic) && error_of(
                Stage::Compile,
                e.diagnostic,
                *sm,
                e,
            ),
        },
{
    proof {
        lemma_require_placed_all(core@, true, *sm);
    }
    match require_pos_seq(core, true) {
        None => Ok(()),
        Some(diag) => {
            let rendered = render_diagnostic(&diag, sm);
            Err(DriverError { stage: Stage::Compile, diagnostic: diag, rendered })
        },
    }
}

// ---- macro names ----

/// The `define-syntax` forms in `v` and its sub-lists, in source order:
/// each macro's name and the span of its form.
pub open spec fn macro_defs(v: StxV) -> Seq<(Seq<char>, Span)>
    decreases v,
{
    match v {
        StxV::List(items, sp) => (if items.len() >= 2 && sym_name(items[0]) == Some(
            "define-syntax"@,
        ) && items[1] is Sym {
            seq![(items[1]->Sym_0, sp)]
        } else {
            Seq::empty()
        }) + macro_defs_all(items),
        _ => Seq::empty(),
    }
}

/// The macro definitions of a sequence of forms, form after form.
pub open spec fn macro_defs_all(vs: Seq<StxV>) -> Seq<(Seq<char>, Span)>
    decreases vs,
{
    if vs.len() == 0 {
        Seq::empty()
    } else {
        macro_defs_all(vs.drop_last()) + macro_defs(vs.last())
    }
}

/// The text and span of each macro definition.
pub open spec fn defs_view(v: Seq<(String, Span)>) -> Seq<(Seq<char>, Span)> {
    v.map_values(|p: (String, Span)| (p.0@, p.1))
}

/// Appends the macro definitions of `f`.
fn push_macro_defs(f: &Stx, out: &mut Vec<(String, Span)>)
    ensures
        defs_view(final(out)@) == defs_view(old(out)@) + macro_defs(stx_view(*f)),
    decreases f,
{
    let ghost o0 = defs_view(out@);
    match &f.datum {
        StxDatum::List(items) => {
            proof {
                crate::parser::lemma_views_index(items@);
            }
            let ghost views = stx_views(items@);
            if items.len() >= 2 {
                assert(views[0] == stx_view(items@[0]));
                assert(views[1] == stx_view(items@[1]));
                let is_def = match &items[0].datum {
                    StxDatum::Symbol(h) => same_text(h.as_str(), "define-syntax"),
                    _ => false,
                };
                if is_def {
                    match &items[1].datum {
                        StxDatum::Symbol(n) => {
                            let ghost before = out@;
                            out.push((n.clone(), f.span));
                            proof {
                                assert(defs_view(out@) =~= defs_view(before).push((n@, f.span)));
                            }
                        },
                        _ => {},
                    }
                }
            }
            let ghost o1 = defs_view(out@);
            push_macro_defs_all(items, out);
            proof {
                assert(defs_view(out@) =~= o0 + macro_defs(stx_view(*f)));
            }
        },
        _ => {
            proof {
                assert(defs_view(out@) =~= o0 + macro_defs(stx_view(*f)));
            }
        },
    }
}

/// Appends the macro definitions of each of `items`.
fn push_macro_defs_all(items: &Vec<Stx>, out: &mut Vec<(String, Span)>)
    ensures
        defs_view(final(out)@) == defs_view(old(out)@) + macro_defs_all(stx_views(items@)),
    decreases items,
{
    let ghost views = stx_views(items@);
    let ghost o1 = defs_view(out@);
    proof {
        crate::parser::lemma_views_index(items@);
        assert(views.subrange(0, 0) =~= Seq::<StxV>::empty());
        assert(o1 + macro_defs_all(views.subrange(0, 0)) =~= o1);
    }
    let mut i: usize = 0;
    while i < items.len()
        invariant
            views == stx_views(items@),
            views.len() == items@.len(),
            forall|j: int| 0 <= j < items@.len() ==> #[trigger] views[j] == stx_view(items@[j]),
            i <= items@.len(),
            defs_view(out@) == o1 + macro_defs_all(views.subrange(0, i as int)),
        decreases items@.len() - i,
    {
        proof {
            assert(views.subrange(0, i + 1).drop_last() =~= views.subrange(0, i as int));
            assert(views.subrange(0, i + 1).last() == views[i as int]);
        }
        push_macro_defs(&items[i], out);
        proof {
            assert(o1 + macro_defs_all(views.subrange(0, i as int)) + macro_defs(views[i as int])
                =~= o1 + (macro_defs_all(views.subrange(0, i as int)) + macro_defs(views[i as int])));
        }
        i = i + 1;
    }
    proof {
        assert(views.subrange(0, i as int) =~= views);
    }
}

/// The macro definitions of a program, in source order: the name of every
/// `define-syntax` form (at any depth) and the span of the form.
pub fn collect_macro_names(forms: &Vec<Stx>) -> (v: Vec<(String, Span)>)
    ensures
        defs_view(v@) == macro_defs_all(stx_views(forms@)),
{
    let ghost views = stx_views(forms@);
    proof {
        crate::parser::lemma_views_index(forms@);
        assert(views.subrange(0, 0) =~= Seq::<StxV>::empty());
        assert(defs_view(Seq::<(String, Span)>::empty()) =~= Seq::<(Seq<char>, Span)>::empty());
    }
    let mut out: Vec<(String, Span)> = Vec::new();
    let mut i: usize = 0;
    while i < forms.len()
        invariant
            views == stx_views(forms@),
            views.len() == forms@.len(),
            forall|j: int| 0 <= j < forms@.len() ==> #[trigger] views[j] == stx_view(forms@[j]),
            i <= forms@.len(),
            defs_view(out@) == macro_defs_all(views.subrange(0, i as int)),
        decreases forms@.len() - i,
    {
        proof {
            assert(views.subrange(0, i + 1).drop_last() =~= views.subrange(0, i as int));
            assert(views.subrange(0, i + 1).last() == views[i as int]);
        }
        push_macro_defs(&forms[i], &mut out);
        i = i + 1;
    }
    proof {
        assert(views.subrange(0, i as int) =~= views);
    }
    out
}

// ---- warnings ----

/// The diagnostic code of a binding that shadows an imported name (W1002).
pub const SHADOW_IMPORT_CODE: u32 = 1002;
/// The diagnostic code of a macro that shadows a builtin (W1003).
pub const MACRO_SHADOW_CODE: u32 = 1003;

/// A warning.
pub ghost enum ShadowWarning {
    /// A macro named like a builtin.
    Macro(Seq<char>, Span),
    /// A module `define` (module, name, span) of a name an import injects.
    ModuleDefine(Seq<char>, Seq<char>, Span),
    /// A lambda parameter named like an injected name, at the lambda.
    Parameter(Seq<char>, Span),
}

/// The macro warnings: each macro name (its first definition only) that
/// names a builtin.
pub open spec fn macro_warnings(defs: Seq<(Seq<char>, Span)>) -> Seq<ShadowWarning>
    decreases defs.len(),
{
    if defs.len() == 0 {
        Seq::empty()
    } else {
        let prev = macro_warnings(defs.drop_last());
        let d = defs.last();
        if exists|j: int| 0 <= j < defs.len() - 1 && (#[trigger] defs[j]).0 == d.0 {
            prev
        } else if builtin_name_exists(d.0) {
            prev.push(ShadowWarning::Macro(d.0, d.1))
        } else {
            prev
        }
    }
}

/// Warnings and the names already warned about.
pub type WarnState = (Seq<ShadowWarning>, Set<Seq<char>>);

/// The warnings of the parameters `ps` of a lambda at `span` (each name by
/// its hygienic base, once per program).
pub open spec fn warn_params(ps: Seq<String>, span: Span, inj: Seq<Seq<char>>, seen: Set<Seq<char>>) -> WarnState
    decreases ps.len(),
{
    if ps.len() == 0 {
        (Seq::empty(), seen)
    } else {
        let prev = warn_params(ps.drop_last(), span, inj, seen);
        let n = spec_hygienic_base(ps.last()@);
        if inj.contains(n) && !prev.1.contains(n) {
            (prev.0.push(ShadowWarning::Parameter(n, span)), prev.1.insert(n))
        } else {
            prev
        }
    }
}

/// The shadowing warnings of `e`, in program order, given the names
/// already warned about; the prelude module is not looked into.
pub open spec fn warn_walk(e: CoreExpr, inj: Seq<Seq<char>>, seen: Set<Seq<char>>) -> WarnState
    decreases e,
{
    match e {
        CoreExpr::Module { name, body, .. } => if name@ == "kerf-prelude"@ {
            (Seq::empty(), seen)
        } else {
            warn_module(name@, body@, inj, seen)
        },
        CoreExpr::Lambda { params, body, span } => {
            let a = warn_params(params@, span, inj, seen);
            let b = warn_walk(*body, inj, a.1);
            (a.0 + b.0, b.1)
        },
        CoreExpr::App { fn_expr, args, .. } => {
            let a = warn_walk(*fn_expr, inj, seen);
            let b = warn_walk_all(args@, inj, a.1);
            (a.0 + b.0, b.1)
        },
        CoreExpr::If { cond, then_branch, else_branch, .. } => {
            let a = warn_walk(*cond, inj, seen);
            let b = warn_walk(*then_branch, inj, a.1);
            let c = warn_walk(*else_branch, inj, b.1);
            (a.0 + b.0 + c.0, c.1)
        },
        CoreExpr::SetBang { value, .. } => warn_walk(*value, inj, seen),
        CoreExpr::Define { value, .. } => warn_walk(*value, inj, seen),
        CoreExpr::Begin { body, .. } => warn_walk_all(body@, inj, seen),
        CoreExpr::Perform { effect, .. } => warn_walk(*effect, inj, seen),
        CoreExpr::Handle { handler_body, body, .. } => {
            let a = warn_walk(*handler_body, inj, seen);
            let b = warn_walk(*body, inj, a.1);
            (a.0 + b.0, b.1)
        },
        _ => (Seq::empty(), seen),
    }
}

/// The warnings of `es`, one after another.
pub open spec fn warn_walk_all(es: Seq<CoreExpr>, inj: Seq<Seq<char>>, seen: Set<Seq<char>>) -> WarnState
    decreases es,
{
    if es.len() == 0 {
        (Seq::empty(), seen)
    } else {
        let a = warn_walk_all(es.drop_last(), inj, seen);
        let b = warn_walk(es.last(), inj, a.1);
        (a.0 + b.0, b.1)
    }
}

/// The warnings of the body `items` of module `m`: a `define` of an
/// injected name, then the item's own warnings.
pub open spec fn warn_module(m: Seq<char>, items: Seq<CoreExpr>, inj: Seq<Seq<char>>, seen: Set<Seq<char>>) -> WarnState
    decreases items,
{
    if items.len() == 0 {
        (Seq::empty(), seen)
    } else {
        let a = warn_module(m, items.drop_last(), inj, seen);
        let item = items.last();
        let b: WarnState = if item is Define && inj.contains(spec_hygienic_base(item->Define_name@))
            && !a.1.contains(spec_hygienic_base(item->Define_name@)) {
            (
                seq![ShadowWarning::ModuleDefine(m, spec_hygienic_base(item->Define_name@), item->Define_span)],
                a.1.insert(spec_hygienic_base(item->Define_name@)),
            )
        } else {
            (Seq::empty(), a.1)
        };
        let c = warn_walk(item, inj, b.1);
        (a.0 + b.0 + c.0, c.1)
    }
}

/// All warnings of a program: the macro warnings, then the shadowing
/// warnings in program order.
pub open spec fn program_warnings(core: Seq<CoreExpr>, inj: Seq<Seq<char>>, defs: Seq<(Seq<char>, Span)>) -> Seq<
    ShadowWarning,
> {
    macro_warnings(defs) + warn_walk_all(core, inj, Set::empty()).0
}

/// The diagnostic of a warning.
pub open spec fn warning_diagnostic(w: ShadowWarning, d: Diagnostic) -> bool {
    &&& d.severity == Severity::Warning
    &&& d.children@.len() == 0
    &&& d.suggestions@.len() == 0
    &&& match w {
        ShadowWarning::Macro(n, span) => {
            &&& d.code == Some(DiagnosticCode(MACRO_SHADOW_CODE))
            &&& d.message@ == "宏名「"@ + n + "」遮蔽了内置名（W1003——宏胜出是本质能力，此处仅知会；若非故意请改名）"@
            &&& d.primary_span == span
        },
        ShadowWarning::ModuleDefine(m, n, span) => {
            &&& d.code == Some(DiagnosticCode(SHADOW_IMPORT_CODE))
            &&& d.message@ == "模块「"@ + m + "」define「"@ + n
                + "」遮蔽了 import 注入名（R-N2：合法但多半是命名事故——改名或改用限定名可消除歧义）"@
            &&& d.primary_span == span
        },
        ShadowWarning::Parameter(n, span) => {
            &&& d.code == Some(DiagnosticCode(SHADOW_IMPORT_CODE))
            &&& d.message@ == "lambda 参数「"@ + n + "」遮蔽了 import 注入名（R-N2：合法但多半是命名事故）"@
            &&& d.primary_span == span
        },
    }
}

/// `after` is `before` followed by the diagnostics of `ws`.
pub open spec fn extends(after: Seq<Diagnostic>, before: Seq<Diagnostic>, ws: Seq<ShadowWarning>) -> bool {
    &&& after.len() == before.len() + ws.len()
    &&& forall|i: int| 0 <= i < before.len() ==> #[trigger] after[i] == before[i]
    &&& forall|i: int| 0 <= i < ws.len() ==> warning_diagnostic(ws[i], #[trigger] after[before.len() + i])
}

proof fn lemma_extends_trans(
    a: Seq<Diagnostic>,
    b: Seq<Diagnostic>,
    c: Seq<Diagnostic>,
    w1: Seq<ShadowWarning>,
    w2: Seq<ShadowWarning>,
)
    requires
        extends(b, a, w1),
        extends(c, b, w2),
    ensures
        extends(c, a, w1 + w2),
{
    assert forall|i: int| 0 <= i < (w1 + w2).len() implies warning_diagnostic(
        (w1 + w2)[i],
        #[trigger] c[a.len() + i],
    ) by {
        if i < w1.len() {
            assert(c[a.len() + i] == b[a.len() + i]);
        } else {
            assert(c[b.len() + (i - w1.len())] == c[a.len() + i]);
        }
    }
    assert forall|i: int| 0 <= i < a.len() implies #[trigger] c[i] == a[i] by {
        assert(c[i] == b[i]);
    }
}

proof fn lemma_extends_push(a: Seq<Diagnostic>, w: Seq<ShadowWarning>, x: ShadowWarning, d: Diagnostic, b: Seq<Diagnostic>)
    requires
        extends(b, a, w),
        warning_diagnostic(x, d),
    ensures
        extends(b.push(d), a, w.push(x)),
{
    assert forall|i: int| 0 <= i < w.push(x).len() implies warning_diagnostic(
        w.push(x)[i],
        #[trigger] b.push(d)[a.len() + i],
    ) by {
        if i < w.len() {
            assert(b.push(d)[a.len() + i] == b[a.len() + i]);
        }
    }
    assert forall|i: int| 0 <= i < a.len() implies #[trigger] b.push(d)[i] == a[i] by {
        assert(b.push(d)[i] == b[i]);
    }
}

proof fn lemma_extends_refl(a: Seq<Diagnostic>)
    ensures
        extends(a, a, Seq::empty()),
{
}

/// Records the binding `n` (a hygienic base) if an import injects it and
/// it was not warned about yet.
fn note_injected(n: &String, face: &ImportFace, seen: &mut Vec<String>) -> (warn: bool)
    ensures
        warn == (texts(face.injected_names@).contains(n@) && !text_set(old(seen)@).contains(n@)),
        text_set(final(seen)@) == if warn {
            text_set(old(seen)@).insert(n@)
        } else {
            text_set(old(seen)@)
        },
{
    let injected = holds(&face.injected_names, n);
    proof {
        if injected {
            let k = choose|k: int| 0 <= k < face.injected_names@.len() && (#[trigger] face.injected_names@[k])@ == n@;
            assert(texts(face.injected_names@)[k] == n@);
        }
        if texts(face.injected_names@).contains(n@) {
            let k = choose|k: int| 0 <= k < texts(face.injected_names@).len() && texts(face.injected_names@)[k] == n@;
            assert(face.injected_names@[k]@ == n@);
        }
    }
    if injected && !holds(seen, n) {
        let ghost s0 = seen@;
        seen.push(n.clone());
        proof {
            assert forall|t: Seq<char>| text_set(seen@).contains(t) == text_set(s0).insert(n@).contains(t) by {
                lemma_holds_push(s0, *n, t);
            }
            assert(text_set(seen@) =~= text_set(s0).insert(n@));
        }
        true
    } else {
        false
    }
}

/// Appends the warnings of the parameters of a lambda at `span`.
fn warn_params_of(params: &Vec<String>, span: Span, face: &ImportFace, seen: &mut Vec<String>, out: &mut Vec<Diagnostic>)
    ensures
        ({
            let r = warn_params(params@, span, texts(face.injected_names@), text_set(old(seen)@));
            &&& text_set(final(seen)@) == r.1
            &&& extends(final(out)@, old(out)@, r.0)
        }),
{
    let ghost inj = texts(face.injected_names@);
    let ghost s0 = text_set(seen@);
    let ghost o0 = out@;
    let mut i: usize = 0;
    proof {
        assert(params@.subrange(0, 0) =~= Seq::<String>::empty());
        lemma_extends_refl(o0);
    }
    while i < params.len()
        invariant
            inj == texts(face.injected_names@),
            i <= params@.len(),
            text_set(seen@) == warn_params(params@.subrange(0, i as int), span, inj, s0).1,
            extends(out@, o0, warn_params(params@.subrange(0, i as int), span, inj, s0).0),
        decreases params@.len() - i,
    {
        proof {
            assert(params@.subrange(0, i + 1).drop_last() =~= params@.subrange(0, i as int));
            assert(params@.subrange(0, i + 1).last() == params@[i as int]);
        }
        let n = hygienic_base(params[i].as_str());
        if note_injected(&n, face, seen) {
            let mut m = string_of("lambda 参数「");
            push_str(&mut m, n.as_str());
            push_str(&mut m, "」遮蔽了 import 注入名（R-N2：合法但多半是命名事故）");
            let d = Diagnostic::warning(Some(DiagnosticCode(SHADOW_IMPORT_CODE)), m.as_str(), span);
            let ghost before = out@;
            out.push(d);
            proof {
                lemma_extends_push(
                    o0,
                    warn_params(params@.subrange(0, i as int), span, inj, s0).0,
                    ShadowWarning::Parameter(n@, span),
                    d,
                    before,
                );
            }
        }
        i = i + 1;
    }
    proof {
        assert(params@.subrange(0, i as int) =~= params@);
    }
}

/// Appends the warnings of `e`.
pub fn warn_diag(e: &CoreExpr, face: &ImportFace, seen: &mut Vec<String>, out: &mut Vec<Diagnostic>)
    ensures
        ({
            let r = warn_walk(*e, texts(face.injected_names@), text_set(old(seen)@));
            &&& text_set(final(seen)@) == r.1
            &&& extends(final(out)@, old(out)@, r.0)
        }),
    decreases e,
{
    let ghost inj = texts(face.injected_names@);
    let ghost o0 = out@;
    proof {
        lemma_extends_refl(o0);
    }
    match e {
        CoreExpr::Module { name, body, .. } => {
            if same_text(name.as_str(), "kerf-prelude") {
                return;
            }
            warn_module_of(name, body, face, seen, out);
        },
        CoreExpr::Lambda { params, body, .. } => {
            warn_params_of(params, e.span(), face, seen, out);
            let ghost o1 = out@;
            warn_diag(body, face, seen, out);
            proof {
                lemma_extends_trans(o0, o1, out@, warn_params(params@, crate::core_expr::node_span(*e), inj, text_set(old(seen)@)).0, warn_walk(**body, inj, warn_params(params@, crate::core_expr::node_span(*e), inj, text_set(old(seen)@)).1).0);
            }
        },
        CoreExpr::App { fn_expr, args, .. } => {
            let ghost s0 = text_set(seen@);
            warn_diag(fn_expr, face, seen, out);
            let ghost o1 = out@;
            let ghost a = warn_walk(**fn_expr, inj, s0);
            warn_seq(args, face, seen, out);
            proof {
                lemma_extends_trans(o0, o1, out@, a.0, warn_walk_all(args@, inj, a.1).0);
            }
        },
        CoreExpr::If { cond, then_branch, else_branch, .. } => {
            let ghost s0 = text_set(seen@);
            warn_diag(cond, face, seen, out);
            let ghost o1 = out@;
            let ghost a = warn_walk(**cond, inj, s0);
            warn_diag(then_branch, face, seen, out);
            let ghost o2 = out@;
            let ghost b = warn_walk(**then_branch, inj, a.1);
            warn_diag(else_branch, face, seen, out);
            proof {
                let c = warn_walk(**else_branch, inj, b.1);
                lemma_extends_trans(o0, o1, o2, a.0, b.0);
                lemma_extends_trans(o0, o2, out@, a.0 + b.0, c.0);
            }
        },
        CoreExpr::SetBang { value, .. } => warn_diag(value, face, seen, out),
        CoreExpr::Define { value, .. } => warn_diag(value, face, seen, out),
        CoreExpr::Begin { body, .. } => warn_seq(body, face, seen, out),
        CoreExpr::Perform { effect, .. } => warn_diag(effect, face, seen, out),
        CoreExpr::Handle { handler_body, body, .. } => {
            let ghost s0 = text_set(seen@);
            warn_diag(handler_body, face, seen, out);
            let ghost o1 = out@;
            let ghost a = warn_walk(**handler_body, inj, s0);
            warn_diag(body, face, seen, out);
            proof {
                lemma_extends_trans(o0, o1, out@, a.0, warn_walk(**body, inj, a.1).0);
            }
        },
        _ => {},
    }
}

/// Appends the warnings of each of `es`.
fn warn_seq(es: &Vec<CoreExpr>, face: &ImportFace, seen: &mut Vec<String>, out: &mut Vec<Diagnostic>)
    ensures
        ({
            let r = warn_walk_all(es@, texts(face.injected_names@), text_set(old(seen)@));
            &&& text_set(final(seen)@) == r.1
            &&& extends(final(out)@, old(out)@, r.0)
        }),
    decreases es,
{
    let ghost inj = texts(face.injected_names@);
    let ghost s0 = text_set(seen@);
    let ghost o0 = out@;
    let mut i: usize = 0;
    proof {
        assert(es@.subrange(0, 0) =~= Seq::<CoreExpr>::empty());
        lemma_extends_refl(o0);
    }
    while i < es.len()
        invariant
            inj == texts(face.injected_names@),
            i <= es@.len(),
            text_set(seen@) == warn_walk_all(es@.subrange(0, i as int), inj, s0).1,
            extends(out@, o0, warn_walk_all(es@.subrange(0, i as int), inj, s0).0),
        decreases es@.len() - i,
    {
        let ghost pre = warn_walk_all(es@.subrange(0, i as int), inj, s0);
        let ghost o1 = out@;
        proof {
            assert(es@.subrange(0, i + 1).drop_last() =~= es@.subrange(0, i as int));
            assert(es@.subrange(0, i + 1).last() == es@[i as int]);
        }
        warn_diag(&es[i], face, seen, out);
        proof {
            lemma_extends_trans(o0, o1, out@, pre.0, warn_walk(es@[i as int], inj, pre.1).0);
        }
        i = i + 1;
    }
    proof {
        assert(es@.subrange(0, i as int) =~= es@);
    }
}

/// Appends the warnings of the body of module `name`.
fn warn_module_of(name: &String, body: &Vec<CoreExpr>, face: &ImportFace, seen: &mut Vec<String>, out: &mut Vec<Diagnostic>)
    ensures
        ({
            let r = warn_module(name@, body@, texts(face.injected_names@), text_set(old(seen)@));
            &&& text_set(final(seen)@) == r.1
            &&& extends(final(out)@, old(out)@, r.0)
        }),
    decreases body,
{
    let ghost inj = texts(face.injected_names@);
    let ghost s0 = text_set(seen@);
    let ghost o0 = out@;
    let mut i: usize = 0;
    proof {
        assert(body@.subrange(0, 0) =~= Seq::<CoreExpr>::empty());
        lemma_extends_refl(o0);
    }
    while i < body.len()
        invariant
            inj == texts(face.injected_names@),
            i <= body@.len(),
            text_set(seen@) == warn_module(name@, body@.subrange(0, i as int), inj, s0).1,
            extends(out@, o0, warn_module(name@, body@.subrange(0, i as int), inj, s0).0),
        decreases body@.len() - i,
    {
        let ghost pre = warn_module(name@, body@.subrange(0, i as int), inj, s0);
        let ghost o1 = out@;
        proof {
            assert(body@.subrange(0, i + 1).drop_last() =~= body@.subrange(0, i as int));
            assert(body@.subrange(0, i + 1).last() == body@[i as int]);
        }
        match &body[i] {
            CoreExpr::Define { name: d, span, .. } => {
                let n = hygienic_base(d.as_str());
                if note_injected(&n, face, seen) {
                    let mut m = string_of("模块「");
                    push_str(&mut m, name.as_str());
                    push_str(&mut m, "」define「");
                    push_str(&mut m, n.as_str());
                    push_str(&mut m, "」遮蔽了 import 注入名（R-N2：合法但多半是命名事故——改名或改用限定名可消除歧义）");
                    let dg = Diagnostic::warning(Some(DiagnosticCode(SHADOW_IMPORT_CODE)), m.as_str(), *span);
                    out.push(dg);
                    proof {
                        lemma_extends_refl(o1);
                        lemma_extends_push(o1, Seq::empty(), ShadowWarning::ModuleDefine(name@, n@, *span), dg, o1);
                        assert(Seq::<ShadowWarning>::empty().push(ShadowWarning::ModuleDefine(name@, n@, *span)) =~= seq![ShadowWarning::ModuleDefine(name@, n@, *span)]);
                        lemma_extends_trans(o0, o1, out@, pre.0, seq![ShadowWarning::ModuleDefine(name@, n@, *span)]);
                    }
                } else {
                    proof {
                        assert(pre.0 + Seq::<ShadowWarning>::empty() =~= pre.0);
                    }
                }
            },
            _ => {
                proof {
                    assert(pre.0 + Seq::<ShadowWarning>::empty() =~= pre.0);
                }
            },
        }
        let ghost o2 = out@;
        let ghost mid = text_set(seen@);
        warn_diag(&body[i], face, seen, out);
        proof {
            let item = body@[i as int];
            let bpart: Seq<ShadowWarning> = if item is Define && inj.contains(spec_hygienic_base(item->Define_name@))
                && !pre.1.contains(spec_hygienic_base(item->Define_name@)) {
                seq![ShadowWarning::ModuleDefine(name@, spec_hygienic_base(item->Define_name@), item->Define_span)]
            } else {
                Seq::empty()
            };
            lemma_extends_trans(o0, o2, out@, pre.0 + bpart, warn_walk(item, inj, mid).0);
        }
        i = i + 1;
    }
    proof {
        assert(body@.subrange(0, i as int) =~= body@);
    }
}

/// Appends the macro warnings.
fn warn_macros(defs: &Vec<(String, Span)>, out: &mut Vec<Diagnostic>)
    ensures
        extends(final(out)@, old(out)@, macro_warnings(defs_view(defs@))),
{
    let ghost dv = defs_view(defs@);
    let ghost o0 = out@;
    let mut seen: Vec<String> = Vec::new();
    let mut i: usize = 0;
    proof {
        assert(dv.subrange(0, 0) =~= Seq::<(Seq<char>, Span)>::empty());
        lemma_extends_refl(o0);
    }
    while i < defs.len()
        invariant
            dv == defs_view(defs@),
            dv.len() == defs@.len(),
            i <= defs@.len(),
            forall|t: Seq<char>| #[trigger] holds_text(seen@, t) == exists|j: int| 0 <= j < i && (#[trigger] dv[j]).0 == t,
            extends(out@, o0, macro_warnings(dv.subrange(0, i as int))),
        decreases defs@.len() - i,
    {
        let ghost sub = dv.subrange(0, i + 1);
        proof {
            assert(sub.drop_last() =~= dv.subrange(0, i as int));
            assert(sub.last() == dv[i as int]);
            assert(dv[i as int] == (defs@[i as int].0@, defs@[i as int].1));
            assert((exists|j: int| 0 <= j < sub.len() - 1 && (#[trigger] sub[j]).0 == sub.last().0)
                == (exists|j: int| 0 <= j < i && (#[trigger] dv[j]).0 == dv[i as int].0)) by {
                if exists|j: int| 0 <= j < sub.len() - 1 && (#[trigger] sub[j]).0 == sub.last().0 {
                    let j = choose|j: int| 0 <= j < sub.len() - 1 && (#[trigger] sub[j]).0 == sub.last().0;
                    assert(sub[j] == dv[j]);
                }
                if exists|j: int| 0 <= j < i && (#[trigger] dv[j]).0 == dv[i as int].0 {
                    let j = choose|j: int| 0 <= j < i && (#[trigger] dv[j]).0 == dv[i as int].0;
                    assert(sub[j] == dv[j]);
                }
            }
        }
        let name = &defs[i].0;
        let fresh = !holds(&seen, name);
        let ghost s0 = seen@;
        if fresh {
            seen.push(name.clone());
        }
        proof {
            assert forall|t: Seq<char>| #[trigger] holds_text(seen@, t) == exists|j: int| 0 <= j < i + 1 && (#[trigger] dv[j]).0 == t by {
                if fresh {
                    lemma_holds_push(s0, *name, t);
                }
                if exists|j: int| 0 <= j < i + 1 && (#[trigger] dv[j]).0 == t {
                    let j = choose|j: int| 0 <= j < i + 1 && (#[trigger] dv[j]).0 == t;
                    if j < i {
                        assert(exists|q: int| 0 <= q < i && (#[trigger] dv[q]).0 == t);
                    }
                }
                if exists|j: int| 0 <= j < i && (#[trigger] dv[j]).0 == t {
                    let j = choose|j: int| 0 <= j < i && (#[trigger] dv[j]).0 == t;
                    assert(0 <= j < i + 1 && dv[j].0 == t);
                }
            }
        }
        if fresh && is_builtin_name(name.as_str()) {
            let mut m = string_of("宏名「");
            push_str(&mut m, name.as_str());
            push_str(&mut m, "」遮蔽了内置名（W1003——宏胜出是本质能力，此处仅知会；若非故意请改名）");
            let d = Diagnostic::warning(Some(DiagnosticCode(MACRO_SHADOW_CODE)), m.as_str(), defs[i].1);
            let ghost before = out@;
            out.push(d);
            proof {
                lemma_extends_push(o0, macro_warnings(dv.subrange(0, i as int)), ShadowWarning::Macro(name@, defs@[i as int].1), d, before);
            }
        }
        i = i + 1;
    }
    proof {
        assert(dv.subrange(0, i as int) =~= dv);
    }
}

/// The warnings of a program: each macro (by first definition) named like
/// a builtin (W1003), then, in program order, each module `define` or
/// lambda parameter (by hygienic base, once per name) that shadows a name
/// an unqualified import injects (W1002); the prelude module is exempt.
pub fn collect_warnings(core: &Vec<CoreExpr>, face: &ImportFace, macro_defs: &Vec<(String, Span)>) -> (r: Vec<Diagnostic>)
    ensures
        extends(r@, Seq::empty(), program_warnings(core@, texts(face.injected_names@), defs_view(macro_defs@))),
{
    let mut out: Vec<Diagnostic> = Vec::new();
    warn_macros(macro_defs, &mut out);
    let ghost o1 = out@;
    let mut seen: Vec<String> = Vec::new();
    proof {
        assert(text_set(seen@) =~= Set::<Seq<char>>::empty());
    }
    warn_seq(core, face, &mut seen, &mut out);
    proof {
        lemma_extends_trans(
            Seq::empty(),
            o1,
            out@,
            macro_warnings(defs_view(macro_defs@)),
            warn_walk_all(core@, texts(face.injected_names@), Set::empty()).0,
        );
    }
    out
}

// ---- each name is warned about once ----

/// The name a warning is about.
pub open spec fn warned_name(w: ShadowWarning) -> Seq<char> {
    match w {
        ShadowWarning::Macro(n, _) => n,
        ShadowWarning::ModuleDefine(_, n, _) => n,
        ShadowWarning::Parameter(n, _) => n,
    }
}

/// The warnings `ws`, produced going from the warned set `before` to
/// `after`, name distinct names that were not warned about before and are
/// afterwards.
pub open spec fn fresh_warnings(ws: Seq<ShadowWarning>, before: Set<Seq<char>>, after: Set<Seq<char>>) -> bool {
    &&& before.subset_of(after)
    &&& forall|i: int|
        0 <= i < ws.len() ==> !before.contains(warned_name(#[trigger] ws[i])) && after.contains(
            warned_name(ws[i]),
        )
    &&& forall|i: int, j: int|
        0 <= i < j < ws.len() ==> warned_name(#[trigger] ws[i]) != warned_name(#[trigger] ws[j])
}

proof fn lemma_fresh_concat(
    w1: Seq<ShadowWarning>,
    w2: Seq<ShadowWarning>,
    s0: Set<Seq<char>>,
    s1: Set<Seq<char>>,
    s2: Set<Seq<char>>,
)
    requires
        fresh_warnings(w1, s0, s1),
        fresh_warnings(w2, s1, s2),
    ensures
        fresh_warnings(w1 + w2, s0, s2),
{
    let w = w1 + w2;
    assert forall|i: int| 0 <= i < w.len() implies !s0.contains(warned_name(#[trigger] w[i])) && s2.contains(
        warned_name(w[i]),
    ) by {
        if i < w1.len() {
            assert(w[i] == w1[i]);
        } else {
            assert(w[i] == w2[i - w1.len()]);
        }
    }
    assert forall|i: int, j: int| 0 <= i < j < w.len() implies warned_name(#[trigger] w[i]) != warned_name(
        #[trigger] w[j],
    ) by {
        if j < w1.len() {
            assert(w[i] == w1[i] && w[j] == w1[j]);
        } else if i >= w1.len() {
            assert(w[i] == w2[i - w1.len()] && w[j] == w2[j - w1.len()]);
        } else {
            assert(w[i] == w1[i] && w[j] == w2[j - w1.len()]);
        }
    }
}

proof fn lemma_fresh_empty(s: Set<Seq<char>>)
    ensures
        fresh_warnings(Seq::empty(), s, s),
{
}

proof fn lemma_fresh_one(x: ShadowWarning, s: Set<Seq<char>>)
    requires
        !s.contains(warned_name(x)),
    ensures
        fresh_warnings(seq![x], s, s.insert(warned_name(x))),
{
}

proof fn lemma_params_fresh(ps: Seq<String>, span: Span, inj: Seq<Seq<char>>, seen: Set<Seq<char>>)
    ensures
        fresh_warnings(warn_params(ps, span, inj, seen).0, seen, warn_params(ps, span, inj, seen).1),
    decreases ps.len(),
{
    if ps.len() == 0 {
        lemma_fresh_empty(seen);
    } else {
        let prev = warn_params(ps.drop_last(), span, inj, seen);
        lemma_params_fresh(ps.drop_last(), span, inj, seen);
        let n = spec_hygienic_base(ps.last()@);
        if inj.contains(n) && !prev.1.contains(n) {
            lemma_fresh_one(ShadowWarning::Parameter(n, span), prev.1);
            lemma_fresh_concat(prev.0, seq![ShadowWarning::Parameter(n, span)], seen, prev.1, prev.1.insert(n));
            assert(prev.0 + seq![ShadowWarning::Parameter(n, span)] =~= prev.0.push(ShadowWarning::Parameter(n, span)));
        }
    }
}

proof fn lemma_walk_fresh(e: CoreExpr, inj: Seq<Seq<char>>, seen: Set<Seq<char>>)
    ensures
        fresh_warnings(warn_walk(e, inj, seen).0, seen, warn_walk(e, inj, seen).1),
    decreases e,
{
    match e {
        CoreExpr::Module { name, body, .. } => {
            if name@ == "kerf-prelude"@ {
                lemma_fresh_empty(seen);
            } else {
                lemma_module_fresh(name@, body@, inj, seen);
            }
        },
        CoreExpr::Lambda { params, body, span } => {
            let a = warn_params(params@, span, inj, seen);
            lemma_params_fresh(params@, span, inj, seen);
            lemma_walk_fresh(*body, inj, a.1);
            lemma_fresh_concat(a.0, warn_walk(*body, inj, a.1).0, seen, a.1, warn_walk(*body, inj, a.1).1);
        },
        CoreExpr::App { fn_expr, args, .. } => {
            let a = warn_walk(*fn_expr, inj, seen);
            lemma_walk_fresh(*fn_expr, inj, seen);
            lemma_walk_all_fresh(args@, inj, a.1);
            lemma_fresh_concat(a.0, warn_walk_all(args@, inj, a.1).0, seen, a.1, warn_walk_all(args@, inj, a.1).1);
        },
        CoreExpr::If { cond, then_branch, else_branch, .. } => {
            let a = warn_walk(*cond, inj, seen);
            let b = warn_walk(*then_branch, inj, a.1);
            let c = warn_walk(*else_branch, inj, b.1);
            lemma_walk_fresh(*cond, inj, seen);
            lemma_walk_fresh(*then_branch, inj, a.1);
            lemma_walk_fresh(*else_branch, inj, b.1);
            lemma_fresh_concat(a.0, b.0, seen, a.1, b.1);
            lemma_fresh_concat(a.0 + b.0, c.0, seen, b.1, c.1);
        },
        CoreExpr::SetBang { value, .. } => lemma_walk_fresh(*value, inj, seen),
        CoreExpr::Define { value, .. } => lemma_walk_fresh(*value, inj, seen),
        CoreExpr::Begin { body, .. } => lemma_walk_all_fresh(body@, inj, seen),
        CoreExpr::Perform { effect, .. } => lemma_walk_fresh(*effect, inj, seen),
        CoreExpr::Handle { handler_body, body, .. } => {
            let a = warn_walk(*handler_body, inj, seen);
            lemma_walk_fresh(*handler_body, inj, seen);
            lemma_walk_fresh(*body, inj, a.1);
            lemma_fresh_concat(a.0, warn_walk(*body, inj, a.1).0, seen, a.1, warn_walk(*body, inj, a.1).1);
        },
        _ => {
            lemma_fresh_empty(seen);
        },
    }
}

proof fn lemma_walk_all_fresh(es: Seq<CoreExpr>, inj: Seq<Seq<char>>, seen: Set<Seq<char>>)
    ensures
        fresh_warnings(warn_walk_all(es, inj, seen).0, seen, warn_walk_all(es, inj, seen).1),
    decreases es,
{
    if es.len() == 0 {
        lemma_fresh_empty(seen);
    } else {
        let a = warn_walk_all(es.drop_last(), inj, seen);
        lemma_walk_all_fresh(es.drop_last(), inj, seen);
        lemma_walk_fresh(es.last(), inj, a.1);
        lemma_fresh_concat(a.0, warn_walk(es.last(), inj, a.1).0, seen, a.1, warn_walk(es.last(), inj, a.1).1);
    }
}

proof fn lemma_module_fresh(m: Seq<char>, items: Seq<CoreExpr>, inj: Seq<Seq<char>>, seen: Set<Seq<char>>)
    ensures
        fresh_warnings(warn_module(m, items, inj, seen).0, seen, warn_module(m, items, inj, seen).1),
    decreases items,
{
    if items.len() == 0 {
        lemma_fresh_empty(seen);
    } else {
        let a = warn_module(m, items.drop_last(), inj, seen);
        lemma_module_fresh(m, items.drop_last(), inj, seen);
        let item = items.last();
        let b: WarnState = if item is Define && inj.contains(spec_hygienic_base(item->Define_name@))
            && !a.1.contains(spec_hygienic_base(item->Define_name@)) {
            (
                seq![ShadowWarning::ModuleDefine(m, spec_hygienic_base(item->Define_name@), item->Define_span)],
                a.1.insert(spec_hygienic_base(item->Define_name@)),
            )
        } else {
            (Seq::empty(), a.1)
        };
        if item is Define && inj.contains(spec_hygienic_base(item->Define_name@))
            && !a.1.contains(spec_hygienic_base(item->Define_name@)) {
            lemma_fresh_one(
                ShadowWarning::ModuleDefine(m, spec_hygienic_base(item->Define_name@), item->Define_span),
                a.1,
            );
        } else {
            lemma_fresh_empty(a.1);
        }
        lemma_walk_fresh(item, inj, b.1);
        lemma_fresh_concat(a.0, b.0, seen, a.1, b.1);
        lemma_fresh_concat(a.0 + b.0, warn_walk(item, inj, b.1).0, seen, b.1, warn_walk(item, inj, b.1).1);
    }
}

/// A program's shadowing warnings name each shadowing name at most once.
pub proof fn lemma_shadow_warnings_distinct(core: Seq<CoreExpr>, inj: Seq<Seq<char>>)
    ensures
        forall|i: int, j: int|
            0 <= i < j < warn_walk_all(core, inj, Set::empty()).0.len() ==> warned_name(
                #[trigger] warn_walk_all(core, inj, Set::empty()).0[i],
            ) != warned_name(#[trigger] warn_walk_all(core, inj, Set::empty()).0[j]),
{
    lemma_walk_all_fresh(core, inj, Set::empty());
}

/// Each macro name is warned about at most once, and only when it names a
/// builtin.
pub proof fn lemma_macro_warnings_distinct(defs: Seq<(Seq<char>, Span)>)
    ensures
        forall|i: int, j: int|
            0 <= i < j < macro_warnings(defs).len() ==> warned_name(#[trigger] macro_warnings(defs)[i])
                != warned_name(#[trigger] macro_warnings(defs)[j]),
        forall|i: int|
            0 <= i < macro_warnings(defs).len() ==> builtin_name_exists(warned_name(#[trigger] macro_warnings(defs)[i])),
        forall|i: int|
            #![trigger macro_warnings(defs)[i]]
            0 <= i < macro_warnings(defs).len() ==> exists|k: int| 0 <= k < defs.len() && (#[trigger] defs[k]).0 == warned_name(macro_warnings(defs)[i]),
    decreases defs.len(),
{
    if defs.len() > 0 {
        let pre = defs.drop_last();
        lemma_macro_warnings_distinct(pre);
        let prev = macro_warnings(pre);
        let d = defs.last();
        assert forall|i: int| #![trigger prev[i]] 0 <= i < prev.len() implies exists|k: int| 0 <= k < defs.len() && (#[trigger] defs[k]).0 == warned_name(prev[i]) by {
            let k = choose|k: int| 0 <= k < pre.len() && (#[trigger] pre[k]).0 == warned_name(prev[i]);
            assert(defs[k] == pre[k]);
        }
        if !(exists|j: int| 0 <= j < defs.len() - 1 && (#[trigger] defs[j]).0 == d.0) && builtin_name_exists(d.0) {
            let w = prev.push(ShadowWarning::Macro(d.0, d.1));
            assert forall|i: int| 0 <= i < prev.len() implies warned_name(#[trigger] prev[i]) != d.0 by {
                let k = choose|k: int| 0 <= k < pre.len() && (#[trigger] pre[k]).0 == warned_name(prev[i]);
                assert(defs[k] == pre[k]);
            }
            assert forall|i: int, j: int| 0 <= i < j < w.len() implies warned_name(#[trigger] w[i]) != warned_name(#[trigger] w[j]) by {
                if j < prev.len() {
                    assert(w[i] == prev[i] && w[j] == prev[j]);
                } else {
                    assert(w[i] == prev[i]);
                }
            }
            assert(defs[defs.len() - 1] == d);
        }
    }
}

} // verus!
