//! Core expressions as the compile-time checks read them: the tree shape,
//! the names (as text) that are bound, defined, assigned and referenced,
//! the spans of the forms, and the declared capabilities.
use vstd::prelude::*;

use crate::source_map::SourceMap;
use crate::span::Span;
use crate::text::texts;

verus! {

/// A capability a program can declare with `(require io ...)`.
#[derive(Debug, Clone, Copy, PartialEq, Eq, Structural, Hash)]
pub enum Capability {
    IoRead,
    IoWrite,
}

/// A core expression.
#[derive(Debug)]
pub enum CoreExpr {
    /// `(require io ...)`.
    Require { caps: Vec<Capability>, span: Span },
    /// A function of `params`.
    Lambda { params: Vec<String>, body: Box<CoreExpr>, span: Span },
    App { fn_expr: Box<CoreExpr>, args: Vec<CoreExpr>, span: Span },
    If { cond: Box<CoreExpr>, then_branch: Box<CoreExpr>, else_branch: Box<CoreExpr>, span: Span },
    /// `(set! name value)`.
    SetBang { name: String, value: Box<CoreExpr>, span: Span },
    /// `(define name value)`.
    Define { name: String, value: Box<CoreExpr>, span: Span },
    Begin { body: Vec<CoreExpr>, span: Span },
    /// `(module name (import ...) (export ...) body ...)`.
    Module {
        name: String,
        imports: Vec<String>,
        exports: Vec<String>,
        body: Vec<CoreExpr>,
        span: Span,
    },
    /// A reference to the variable `name`.
    VarRef { name: String, span: Span },
    Literal { span: Span },
    /// `(perform effect)`.
    Perform { effect: Box<CoreExpr>, span: Span },
    /// A handler: `handler_body` runs with the payload bound to
    /// `payload_var` and the continuation to `resume_var`, around `body`.
    Handle {
        payload_var: String,
        resume_var: String,
        handler_body: Box<CoreExpr>,
        body: Box<CoreExpr>,
        span: Span,
    },
}

/// The nodes of `e` in pre-order: a node, then its children from left to
/// right (an application's function before its arguments; a conditional's
/// test, then branch, else branch; a handler's clause before its body).
pub open spec fn preorder(e: CoreExpr) -> Seq<CoreExpr>
    decreases e,
{
    seq![e] + match e {
        CoreExpr::Lambda { body, .. } => preorder(*body),
        CoreExpr::App { fn_expr, args, .. } => preorder(*fn_expr) + preorder_all(args@),
        CoreExpr::If { cond, then_branch, else_branch, .. } => preorder(*cond) + preorder(
            *then_branch,
        ) + preorder(*else_branch),
        CoreExpr::SetBang { value, .. } => preorder(*value),
        CoreExpr::Define { value, .. } => preorder(*value),
        CoreExpr::Begin { body, .. } => preorder_all(body@),
        CoreExpr::Module { body, .. } => preorder_all(body@),
        CoreExpr::Perform { effect, .. } => preorder(*effect),
        CoreExpr::Handle { handler_body, body, .. } => preorder(*handler_body) + preorder(*body),
        _ => Seq::empty(),
    }
}

/// The nodes of a sequence of expressions, one expression after another.
pub open spec fn preorder_all(es: Seq<CoreExpr>) -> Seq<CoreExpr>
    decreases es,
{
    if es.len() == 0 {
        Seq::empty()
    } else {
        preorder_all(es.drop_last()) + preorder(es.last())
    }
}

/// The span of a node.
pub open spec fn node_span(e: CoreExpr) -> Span {
    match e {
        CoreExpr::Require { span, .. } => span,
        CoreExpr::Lambda { span, .. } => span,
        CoreExpr::App { span, .. } => span,
        CoreExpr::If { span, .. } => span,
        CoreExpr::SetBang { span, .. } => span,
        CoreExpr::Define { span, .. } => span,
        CoreExpr::Begin { span, .. } => span,
        CoreExpr::Module { span, .. } => span,
        CoreExpr::VarRef { span, .. } => span,
        CoreExpr::Literal { span } => span,
        CoreExpr::Perform { span, .. } => span,
        CoreExpr::Handle { span, .. } => span,
    }
}

/// Every span in `e` starts a character of its file in `sm` (or names an
/// unknown file).
pub open spec fn placed(e: CoreExpr, sm: SourceMap) -> bool
    decreases e,
{
    &&& sm.position_ok(node_span(e).file_id, node_span(e).start)
    &&& match e {
        CoreExpr::Lambda { body, .. } => placed(*body, sm),
        CoreExpr::App { fn_expr, args, .. } => placed(*fn_expr, sm) && placed_all(args@, sm),
        CoreExpr::If { cond, then_branch, else_branch, .. } => placed(*cond, sm) && placed(
            *then_branch,
            sm,
        ) && placed(*else_branch, sm),
        CoreExpr::SetBang { value, .. } => placed(*value, sm),
        CoreExpr::Define { value, .. } => placed(*value, sm),
        CoreExpr::Begin { body, .. } => placed_all(body@, sm),
        CoreExpr::Module { body, .. } => placed_all(body@, sm),
        CoreExpr::Perform { effect, .. } => placed(*effect, sm),
        CoreExpr::Handle { handler_body, body, .. } => placed(*handler_body, sm) && placed(*body, sm),
        _ => true,
    }
}

/// Every span in `es` is placed.
pub open spec fn placed_all(es: Seq<CoreExpr>, sm: SourceMap) -> bool
    decreases es,
{
    if es.len() == 0 {
        true
    } else {
        placed_all(es.drop_last(), sm) && placed(es.last(), sm)
    }
}

/// Each expression of a placed sequence is placed.
pub proof fn lemma_placed_index(es: Seq<CoreExpr>, sm: SourceMap, k: int)
    requires
        placed_all(es, sm),
        0 <= k < es.len(),
    ensures
        placed(es[k], sm),
    decreases es.len(),
{
    if k < es.len() - 1 {
        assert(es.drop_last()[k] == es[k]);
        lemma_placed_index(es.drop_last(), sm, k);
    }
}

/// The mathematical value of a core expression.
pub ghost enum CoreV {
    Require(Seq<Capability>, Span),
    Lambda(Seq<Seq<char>>, Box<CoreV>, Span),
    App(Box<CoreV>, Seq<CoreV>, Span),
    If(Box<CoreV>, Box<CoreV>, Box<CoreV>, Span),
    SetBang(Seq<char>, Box<CoreV>, Span),
    Define(Seq<char>, Box<CoreV>, Span),
    Begin(Seq<CoreV>, Span),
    Module(Seq<char>, Seq<Seq<char>>, Seq<Seq<char>>, Seq<CoreV>, Span),
    VarRef(Seq<char>, Span),
    Literal(Span),
    Perform(Box<CoreV>, Span),
    Handle(Seq<char>, Seq<char>, Box<CoreV>, Box<CoreV>, Span),
}

/// The value of a core expression.
pub open spec fn core_view(e: CoreExpr) -> CoreV
    decreases e,
{
    match e {
        CoreExpr::Require { caps, span } => CoreV::Require(caps@, span),
        CoreExpr::Lambda { params, body, span } => CoreV::Lambda(
            texts(params@),
            Box::new(core_view(*body)),
            span,
        ),
        CoreExpr::App { fn_expr, args, span } => CoreV::App(
            Box::new(core_view(*fn_expr)),
            core_views(args@),
            span,
        ),
        CoreExpr::If { cond, then_branch, else_branch, span } => CoreV::If(
            Box::new(core_view(*cond)),
            Box::new(core_view(*then_branch)),
            Box::new(core_view(*else_branch)),
            span,
        ),
        CoreExpr::SetBang { name, value, span } => CoreV::SetBang(
            name@,
            Box::new(core_view(*value)),
            span,
        ),
        CoreExpr::Define { name, value, span } => CoreV::Define(
            name@,
            Box::new(core_view(*value)),
            span,
        ),
        CoreExpr::Begin { body, span } => CoreV::Begin(core_views(body@), span),
        CoreExpr::Module { name, imports, exports, body, span } => CoreV::Module(
            name@,
            texts(imports@),
            texts(exports@),
            core_views(body@),
            span,
        ),
        CoreExpr::VarRef { name, span } => CoreV::VarRef(name@, span),
        CoreExpr::Literal { span } => CoreV::Literal(span),
        CoreExpr::Perform { effect, span } => CoreV::Perform(Box::new(core_view(*effect)), span),
        CoreExpr::Handle { payload_var, resume_var, handler_body, body, span } => CoreV::Handle(
            payload_var@,
            resume_var@,
            Box::new(core_view(*handler_body)),
            Box::new(core_view(*body)),
            span,
        ),
    }
}

/// The values of a sequence of core expressions.
pub open spec fn core_views(es: Seq<CoreExpr>) -> Seq<CoreV>
    decreases es,
{
    if es.len() == 0 {
        Seq::empty()
    } else {
        core_views(es.drop_last()).push(core_view(es.last()))
    }
}

/// The value of each expression of a sequence.
pub proof fn lemma_core_views_index(es: Seq<CoreExpr>)
    ensures
        core_views(es).len() == es.len(),
        forall|k: int| 0 <= k < es.len() ==> #[trigger] core_views(es)[k] == core_view(es[k]),
    decreases es.len(),
{
    if es.len() > 0 {
        lemma_core_views_index(es.drop_last());
    }
}

/// A form that sets up state or declares (`define`, `set!`, `module`,
/// `require`) rather than computing a value.
pub open spec fn spec_is_prelude_form(e: CoreExpr) -> bool {
    e is Define || e is SetBang || e is Module || e is Require
}

/// Whether `e` sets up state or declares rather than computing a value:
/// a test program's shared preamble is made of these forms, and each other
/// top-level form is a test case.
pub fn is_prelude_form(e: &CoreExpr) -> (b: bool)
    ensures
        b == spec_is_prelude_form(*e),
{
    match e {
        CoreExpr::Define { .. } => true,
        CoreExpr::SetBang { .. } => true,
        CoreExpr::Module { .. } => true,
        CoreExpr::Require { .. } => true,
        _ => false,
    }
}

impl CoreExpr {
    /// The span of the form.
    pub fn span(&self) -> (s: Span)
        ensures
            s == node_span(*self),
    {
        match self {
            CoreExpr::Require { span, .. } => *span,
            CoreExpr::Lambda { span, .. } => *span,
            CoreExpr::App { span, .. } => *span,
            CoreExpr::If { span, .. } => *span,
            CoreExpr::SetBang { span, .. } => *span,
            CoreExpr::Define { span, .. } => *span,
            CoreExpr::Begin { span, .. } => *span,
            CoreExpr::Module { span, .. } => *span,
            CoreExpr::VarRef { span, .. } => *span,
            CoreExpr::Literal { span } => *span,
            CoreExpr::Perform { span, .. } => *span,
            CoreExpr::Handle { span, .. } => *span,
        }
    }
}

/// Whether every span in `e` starts a character of its file in `sm`.
pub fn spans_placed(e: &CoreExpr, sm: &SourceMap) -> (b: bool)
    ensures
        b == placed(*e, *sm),
    decreases e,
{
    let sp = e.span();
    if !sm.position_is_ok(sp.file_id, sp.start) {
        return false;
    }
    match e {
        CoreExpr::Lambda { body, .. } => spans_placed(body, sm),
        CoreExpr::App { fn_expr, args, .. } => spans_placed(fn_expr, sm) && all_spans_placed(args, sm),
        CoreExpr::If { cond, then_branch, else_branch, .. } => spans_placed(cond, sm) && spans_placed(
            then_branch,
            sm,
        ) && spans_placed(else_branch, sm),
        CoreExpr::SetBang { value, .. } => spans_placed(value, sm),
        CoreExpr::Define { value, .. } => spans_placed(value, sm),
        CoreExpr::Begin { body, .. } => all_spans_placed(body, sm),
        CoreExpr::Module { body, .. } => all_spans_placed(body, sm),
        CoreExpr::Perform { effect, .. } => spans_placed(effect, sm),
        CoreExpr::Handle { handler_body, body, .. } => spans_placed(handler_body, sm) && spans_placed(
            body,
            sm,
        ),
        _ => true,
    }
}

/// Whether every span in `es` starts a character of its file in `sm`.
pub fn all_spans_placed(es: &Vec<CoreExpr>, sm: &SourceMap) -> (b: bool)
    ensures
        b == placed_all(es@, *sm),
    decreases es,
{
    let mut i: usize = 0;
    proof {
        assert(es@.subrange(0, 0) =~= Seq::<CoreExpr>::empty());
    }
    while i < es.len()
        invariant
            i <= es@.len(),
            placed_all(es@.subrange(0, i as int), *sm),
        decreases es@.len() - i,
    {
        proof {
            assert(es@.subrange(0, i + 1).drop_last() =~= es@.subrange(0, i as int));
            assert(es@.subrange(0, i + 1).last() == es@[i as int]);
        }
        if !spans_placed(&es[i], sm) {
            proof {
                if placed_all(es@, *sm) {
                    lemma_placed_prefix(es@, *sm, i + 1);
                }
            }
            return false;
        }
        i = i + 1;
    }
    proof {
        assert(es@.subrange(0, i as int) =~= es@);
    }
    true
}

/// A placed sequence has placed prefixes.
pub proof fn lemma_placed_prefix(es: Seq<CoreExpr>, sm: SourceMap, n: int)
    requires
        0 <= n <= es.len(),
        placed_all(es, sm),
    ensures
        placed_all(es.subrange(0, n), sm),
    decreases es.len(),
{
    if n < es.len() {
        assert(es.drop_last().subrange(0, n) =~= es.subrange(0, n));
        lemma_placed_prefix(es.drop_last(), sm, n);
    } else {
        assert(es.subrange(0, n) =~= es);
    }
}

} // verus!
