//! The builtin syntactic sugar.  Each form is rewritten into core forms
//! over syntax objects that keep their scope sets: `let`, `letrec` and
//! `let*` into applications of `lambda`; `cond`, `and`, `or`, `when` and
//! `unless` into `if` chains; `while` into a recursive `letrec` loop.
use vstd::prelude::*;

use crate::span::Span;
use crate::symbol::Symbol;
use crate::text::string_of;

verus! {

/// A literal of a scoped syntax object; a float is kept by its bits.
#[derive(Debug)]
pub enum ScopedLiteral {
    Int(i64),
    FloatBits(u64),
    Str(String),
    Bool(bool),
    Nil,
}

/// What a scoped syntax object is.
#[derive(Debug)]
pub enum ScopedDatum {
    Literal(ScopedLiteral),
    Symbol(Symbol),
    List(Vec<ScopedStx>),
    Vector(Vec<ScopedStx>),
}

/// A syntax object of the expander: a datum, its span and its scope set
/// (the ids of its scopes, as the expander keeps them).
#[derive(Debug)]
pub struct ScopedStx {
    pub datum: ScopedDatum,
    pub span: Span,
    pub scopes: Vec<u32>,
}

/// The symbols of the core forms the sugar expands into, and of `else`.
#[derive(Debug, Clone, Copy)]
pub struct SugarWords {
    pub lambda: Symbol,
    pub begin: Symbol,
    pub if_: Symbol,
    pub set_bang: Symbol,
    pub let_: Symbol,
    pub letrec: Symbol,
    pub let_star: Symbol,
    pub else_: Symbol,
}

/// The value of a literal.
pub ghost enum LitV {
    Int(i64),
    Float(u64),
    Str(Seq<char>),
    Bool(bool),
    Nil,
}

/// The value of a scoped syntax object: its datum, span and scopes.
pub ghost enum SV {
    Lit(LitV, Span, Seq<u32>),
    Sym(Symbol, Span, Seq<u32>),
    List(Seq<SV>, Span, Seq<u32>),
    Vector(Seq<SV>, Span, Seq<u32>),
}

pub open spec fn lit_v(l: ScopedLiteral) -> LitV {
    match l {
        ScopedLiteral::Int(i) => LitV::Int(i),
        ScopedLiteral::FloatBits(b) => LitV::Float(b),
        ScopedLiteral::Str(s) => LitV::Str(s@),
        ScopedLiteral::Bool(b) => LitV::Bool(b),
        ScopedLiteral::Nil => LitV::Nil,
    }
}

/// The value of a scoped syntax object.
pub open spec fn sv(s: ScopedStx) -> SV
    decreases s,
{
    match s.datum {
        ScopedDatum::Literal(l) => SV::Lit(lit_v(l), s.span, s.scopes@),
        ScopedDatum::Symbol(n) => SV::Sym(n, s.span, s.scopes@),
        ScopedDatum::List(items) => SV::List(svs(items@), s.span, s.scopes@),
        ScopedDatum::Vector(items) => SV::Vector(svs(items@), s.span, s.scopes@),
    }
}

/// The values of a sequence of scoped syntax objects.
pub open spec fn svs(items: Seq<ScopedStx>) -> Seq<SV>
    decreases items,
{
    if items.len() == 0 {
        Seq::empty()
    } else {
        svs(items.drop_last()).push(sv(items.last()))
    }
}

pub open spec fn sv_span(v: SV) -> Span {
    match v {
        SV::Lit(_, s, _) => s,
        SV::Sym(_, s, _) => s,
        SV::List(_, s, _) => s,
        SV::Vector(_, s, _) => s,
    }
}

pub open spec fn sv_scopes(v: SV) -> Seq<u32> {
    match v {
        SV::Lit(_, _, c) => c,
        SV::Sym(_, _, c) => c,
        SV::List(_, _, c) => c,
        SV::Vector(_, _, c) => c,
    }
}

/// The literal `nil` at `sp`, with no scopes.
pub open spec fn nil_at(sp: Span) -> SV {
    SV::Lit(LitV::Nil, sp, Seq::empty())
}

/// The literal `b` at `sp`, with no scopes.
pub open spec fn bool_at(b: bool, sp: Span) -> SV {
    SV::Lit(LitV::Bool(b), sp, Seq::empty())
}

/// `(begin body...)`.
pub open spec fn begin_of(body: Seq<SV>, sp: Span, sc: Seq<u32>, w: SugarWords) -> SV {
    SV::List(seq![SV::Sym(w.begin, sp, sc)] + body, sp, sc)
}

/// `(lambda params body...)`.
pub open spec fn lambda_of(params: SV, body: Seq<SV>, sp: Span, sc: Seq<u32>, w: SugarWords) -> SV {
    SV::List(seq![SV::Sym(w.lambda, sp, sc), params] + body, sp, sc)
}

/// `(if test then else)`.
pub open spec fn if_of(test: SV, then: SV, other: SV, sp: Span, sc: Seq<u32>, w: SugarWords) -> SV {
    SV::List(seq![SV::Sym(w.if_, sp, sc), test, then, other], sp, sc)
}

/// The forms after the first.
pub open spec fn rest_of(a: Seq<SV>) -> Seq<SV> {
    a.subrange(1, a.len() as int)
}

/// A binding is a list of two items.
pub open spec fn pair_ok(b: SV) -> bool {
    b is List && b->List_0.len() == 2
}

/// The message for the first binding from `k` on that is not a list of two
/// items (`not_pair`) or whose name is not a symbol (`not_sym`).
pub open spec fn bad_binding(bs: Seq<SV>, k: int, not_pair: Seq<char>, not_sym: Seq<char>) -> Option<
    Seq<char>,
>
    decreases bs.len() - k,
{
    if k >= bs.len() {
        None
    } else if !pair_ok(bs[k]) {
        Some(not_pair)
    } else if !(bs[k]->List_0[0] is Sym) {
        Some(not_sym)
    } else {
        bad_binding(bs, k + 1, not_pair, not_sym)
    }
}

/// The name item of each binding.
pub open spec fn firsts(bs: Seq<SV>) -> Seq<SV> {
    Seq::new(bs.len(), |i: int| bs[i]->List_0[0])
}

/// The value item of each binding.
pub open spec fn seconds(bs: Seq<SV>) -> Seq<SV> {
    Seq::new(bs.len(), |i: int| bs[i]->List_0[1])
}

/// `(let ((n v) ...) body...)` is `((lambda (n ...) body...) v ...)`; the
/// lambda takes the span and scopes of the binding list, the application
/// its span and no scopes.
pub open spec fn let_form(a: Seq<SV>, w: SugarWords) -> Result<SV, Seq<char>> {
    if a.len() < 2 {
        Err("let 形式：(let ((名 值)...) 体...)"@)
    } else if !(a[0] is List) {
        Err("let 绑定组必须是列表"@)
    } else {
        let bs = a[0]->List_0;
        let sp = sv_span(a[0]);
        let sc = sv_scopes(a[0]);
        match bad_binding(bs, 0, "let 绑定必须是 (名 值) 二元列表"@, "let 绑定名必须是符号"@) {
            Some(m) => Err(m),
            None => Ok(
                SV::List(
                    seq![lambda_of(SV::List(firsts(bs), sp, sc), rest_of(a), sp, sc, w)] + seconds(bs),
                    sp,
                    Seq::empty(),
                ),
            ),
        }
    }
}

/// `(set! n v)` for a `letrec` binding: the `set!` at the binding list's
/// span, the name and the list at the name's span.
pub open spec fn letrec_set(b: SV, sp: Span, sc: Seq<u32>, w: SugarWords) -> SV {
    let p = b->List_0;
    SV::List(
        seq![SV::Sym(w.set_bang, sp, sc), SV::Sym(p[0]->Sym_0, sv_span(p[0]), sc), p[1]],
        sv_span(p[0]),
        sc,
    )
}

/// `(letrec ((n v) ...) body...)` is
/// `((lambda (n ...) (begin (set! n v) ... body...)) nil ...)`, all at the
/// binding list's span and scopes.
pub open spec fn letrec_form(a: Seq<SV>, w: SugarWords) -> Result<SV, Seq<char>> {
    if a.len() < 2 {
        Err("letrec 形式：(letrec ((名 值)...) 体...)"@)
    } else if !(a[0] is List) {
        Err("letrec 绑定组必须是列表"@)
    } else {
        let bs = a[0]->List_0;
        let sp = sv_span(a[0]);
        let sc = sv_scopes(a[0]);
        match bad_binding(bs, 0, "letrec 绑定必须是 (名 值) 二元列表"@, "letrec 绑定名必须是符号"@) {
            Some(m) => Err(m),
            None => {
                let params = Seq::new(bs.len(), |i: int| SV::Sym(bs[i]->List_0[0]->Sym_0, sp, sc));
                let sets = Seq::new(bs.len(), |i: int| letrec_set(bs[i], sp, sc, w));
                let body = begin_of(sets + rest_of(a), sp, sc, w);
                let nils = Seq::new(bs.len(), |i: int| nil_at(sp));
                Ok(SV::List(seq![lambda_of(SV::List(params, sp, sc), seq![body], sp, sc, w)] + nils, sp, sc))
            },
        }
    }
}

/// `(let* (b bs...) body...)` is `(let (b) (let* (bs...) body...))`; with
/// no bindings it is `let`.
pub open spec fn let_star_form(a: Seq<SV>, w: SugarWords) -> Result<SV, Seq<char>> {
    if a.len() < 2 {
        Err("let* 形式：(let* ((名 值)...) 体...)"@)
    } else if !(a[0] is List) {
        Err("let* 绑定组必须是列表"@)
    } else if a[0]->List_0.len() == 0 {
        let_form(a, w)
    } else {
        let bs = a[0]->List_0;
        let sp = sv_span(a[0]);
        let sc = sv_scopes(a[0]);
        let inner = SV::List(
            seq![SV::Sym(w.let_star, sp, sc), SV::List(rest_of(bs), sp, sc)] + rest_of(a),
            sp,
            sc,
        );
        Ok(SV::List(seq![SV::Sym(w.let_, sp, sc), SV::List(seq![bs[0]], sp, sc), inner], sp, sc))
    }
}

/// The expression of a `cond` clause: the test alone, the one expression,
/// or `(begin e...)` at the test's span.
pub open spec fn clause_body(p: Seq<SV>, sc: Seq<u32>, w: SugarWords) -> SV {
    if p.len() == 1 {
        p[0]
    } else if p.len() == 2 {
        p[1]
    } else {
        begin_of(rest_of(p), sv_span(p[0]), sc, w)
    }
}

/// A clause `(test e...)` in front of what the later clauses became: an
/// `else` clause is its expression; any other is
/// `(if test e tail)`, with `nil` for a missing tail.
pub open spec fn clause_node(p: Seq<SV>, tail: Option<SV>, sc: Seq<u32>, w: SugarWords) -> SV {
    if p[0] is Sym && p[0]->Sym_0 == w.else_ {
        clause_body(p, sc, w)
    } else {
        let s0 = sv_span(p[0]);
        if_of(
            p[0],
            clause_body(p, sc, w),
            match tail {
                Some(t) => t,
                None => nil_at(s0),
            },
            s0,
            sc,
            w,
        )
    }
}

/// The clauses from `k` on, folded from the last: the error of the last
/// clause that is not a non-empty list, or the chain they make.
pub open spec fn cond_from(cl: Seq<SV>, k: int, sc: Seq<u32>, w: SugarWords) -> Result<Option<SV>, Seq<char>>
    decreases cl.len() - k,
{
    if k >= cl.len() {
        Ok(None)
    } else {
        match cond_from(cl, k + 1, sc, w) {
            Err(m) => Err(m),
            Ok(tail) => if cl[k] is List && cl[k]->List_0.len() > 0 {
                Ok(Some(clause_node(cl[k]->List_0, tail, sc, w)))
            } else {
                Err("cond 子句必须是非空列表"@)
            },
        }
    }
}

/// `(cond clause...)` as a chain of `if`s, with the scopes of the first
/// clause.
pub open spec fn cond_form(a: Seq<SV>, w: SugarWords) -> Result<SV, Seq<char>> {
    if a.len() == 0 {
        Err("cond 需要至少一个子句"@)
    } else {
        match cond_from(a, 0, sv_scopes(a[0]), w) {
            Err(m) => Err(m),
            Ok(Some(v)) => Ok(v),
            Ok(None) => Ok(nil_at(sv_span(a[0]))),
        }
    }
}

/// `(and e...)` from the `k`-th expression: `#t` for none, the expression
/// for one, else `(if e (and rest...) #f)` at `e`'s span and scopes.
pub open spec fn and_from(a: Seq<SV>, k: int, w: SugarWords) -> SV
    decreases a.len() - k,
{
    if k >= a.len() {
        bool_at(true, Span { file_id: 0, start: 0, end: 0, expansion_id: 0 })
    } else if k == a.len() - 1 {
        a[k]
    } else {
        let sp = sv_span(a[k]);
        if_of(a[k], and_from(a, k + 1, w), bool_at(false, sp), sp, sv_scopes(a[k]), w)
    }
}

/// `(or e...)` from the `k`-th expression: `#f` for none, the expression
/// for one, else `(if e #t (or rest...))` at `e`'s span and scopes.
pub open spec fn or_from(a: Seq<SV>, k: int, w: SugarWords) -> SV
    decreases a.len() - k,
{
    if k >= a.len() {
        bool_at(false, Span { file_id: 0, start: 0, end: 0, expansion_id: 0 })
    } else if k == a.len() - 1 {
        a[k]
    } else {
        let sp = sv_span(a[k]);
        if_of(a[k], bool_at(true, sp), or_from(a, k + 1, w), sp, sv_scopes(a[k]), w)
    }
}

/// The truth of a form built from conditionals: `(if t a b)` (with the
/// `if` word of `w`) is `a`'s truth when `t` is true and `b`'s otherwise, a
/// boolean literal is itself, and any other form has the truth `atom`
/// gives it.
pub open spec fn truth(e: SV, w: SugarWords, atom: spec_fn(SV) -> bool) -> bool
    decreases e,
{
    match e {
        SV::Lit(LitV::Bool(b), _, _) => b,
        SV::List(items, _, _) => if items.len() == 4 && items[0] is Sym && items[0]->Sym_0 == w.if_ {
            if truth(items[1], w, atom) {
                truth(items[2], w, atom)
            } else {
                truth(items[3], w, atom)
            }
        } else {
            atom(e)
        },
        _ => atom(e),
    }
}

proof fn lemma_or_truth_from(a: Seq<SV>, k: int, w: SugarWords, atom: spec_fn(SV) -> bool)
    requires
        0 <= k < a.len(),
    ensures
        truth(or_from(a, k, w), w, atom) == exists|i: int| k <= i < a.len() && #[trigger] truth(a[i], w, atom),
    decreases a.len() - k,
{
    if k < a.len() - 1 {
        lemma_or_truth_from(a, k + 1, w, atom);
        let sp = sv_span(a[k]);
        let e = if_of(a[k], bool_at(true, sp), or_from(a, k + 1, w), sp, sv_scopes(a[k]), w);
        assert(e->List_0[1] == a[k]);
        assert(e->List_0[2] == bool_at(true, sp));
        assert(e->List_0[3] == or_from(a, k + 1, w));
        assert(or_from(a, k, w) == e);
        assert(e->List_0.len() == 4 && e->List_0[0] is Sym && e->List_0[0]->Sym_0 == w.if_);
        assert(truth(bool_at(true, sp), w, atom));
        assert(truth(e, w, atom) == if truth(a[k], w, atom) {
            truth(bool_at(true, sp), w, atom)
        } else {
            truth(or_from(a, k + 1, w), w, atom)
        });
        if truth(a[k], w, atom) {
            assert(k <= k < a.len() && truth(a[k], w, atom));
        } else {
            if exists|i: int| k <= i < a.len() && #[trigger] truth(a[i], w, atom) {
                let i = choose|i: int| k <= i < a.len() && #[trigger] truth(a[i], w, atom);
                assert(i != k);
                assert(k + 1 <= i < a.len() && truth(a[i], w, atom));
            }
        }
    } else {
        if exists|i: int| k <= i < a.len() && #[trigger] truth(a[i], w, atom) {
            let i = choose|i: int| k <= i < a.len() && #[trigger] truth(a[i], w, atom);
            assert(i == k);
        }
    }
}

proof fn lemma_and_truth_from(a: Seq<SV>, k: int, w: SugarWords, atom: spec_fn(SV) -> bool)
    requires
        0 <= k < a.len(),
    ensures
        truth(and_from(a, k, w), w, atom) == forall|i: int| k <= i < a.len() ==> #[trigger] truth(a[i], w, atom),
    decreases a.len() - k,
{
    if k < a.len() - 1 {
        lemma_and_truth_from(a, k + 1, w, atom);
        let sp = sv_span(a[k]);
        let e = if_of(a[k], and_from(a, k + 1, w), bool_at(false, sp), sp, sv_scopes(a[k]), w);
        assert(e->List_0[1] == a[k]);
        assert(e->List_0[2] == and_from(a, k + 1, w));
        assert(e->List_0[3] == bool_at(false, sp));
        assert(and_from(a, k, w) == e);
        assert(e->List_0.len() == 4 && e->List_0[0] is Sym && e->List_0[0]->Sym_0 == w.if_);
        assert(!truth(bool_at(false, sp), w, atom));
        assert(truth(e, w, atom) == if truth(a[k], w, atom) {
            truth(and_from(a, k + 1, w), w, atom)
        } else {
            truth(bool_at(false, sp), w, atom)
        });
        if truth(a[k], w, atom) {
            if !(forall|i: int| k <= i < a.len() ==> #[trigger] truth(a[i], w, atom)) {
                let i = choose|i: int| !(k <= i < a.len() ==> #[trigger] truth(a[i], w, atom));
                assert(k + 1 <= i < a.len() && !truth(a[i], w, atom));
            }
        } else {
            assert(!(k <= k < a.len() ==> truth(a[k], w, atom)));
        }
    } else {
        if !(forall|i: int| k <= i < a.len() ==> #[trigger] truth(a[i], w, atom)) {
            let i = choose|i: int| !(k <= i < a.len() ==> #[trigger] truth(a[i], w, atom));
            assert(i == k);
        }
    }
}

/// `(or e...)` is true exactly when some `e` is true: whatever the forms
/// stand for, the conditionals it expands to are true exactly when one of
/// the forms is (and `(or)` is false).
pub proof fn lemma_or_is_disjunction(a: Seq<SV>, w: SugarWords, atom: spec_fn(SV) -> bool)
    ensures
        truth(or_from(a, 0, w), w, atom) == exists|i: int| 0 <= i < a.len() && #[trigger] truth(a[i], w, atom),
{
    if a.len() > 0 {
        lemma_or_truth_from(a, 0, w, atom);
    }
}

/// `(and e...)` is true exactly when every `e` is true (and `(and)` is
/// true).
pub proof fn lemma_and_is_conjunction(a: Seq<SV>, w: SugarWords, atom: spec_fn(SV) -> bool)
    ensures
        truth(and_from(a, 0, w), w, atom) == forall|i: int| 0 <= i < a.len() ==> #[trigger] truth(a[i], w, atom),
{
    if a.len() > 0 {
        lemma_and_truth_from(a, 0, w, atom);
    }
}

/// `(when test body...)` is `(if test (begin body...) nil)`.
pub open spec fn when_form(a: Seq<SV>, w: SugarWords) -> Result<SV, Seq<char>> {
    if a.len() == 0 {
        Err("when 形式：(when 条件 体...)"@)
    } else {
        let sp = sv_span(a[0]);
        let sc = sv_scopes(a[0]);
        Ok(if_of(a[0], begin_of(rest_of(a), sp, sc, w), nil_at(sp), sp, sc, w))
    }
}

/// `(unless test body...)` is `(if test nil (begin body...))`.
pub open spec fn unless_form(a: Seq<SV>, w: SugarWords) -> Result<SV, Seq<char>> {
    if a.len() == 0 {
        Err("unless 形式：(unless 条件 体...)"@)
    } else {
        let sp = sv_span(a[0]);
        let sc = sv_scopes(a[0]);
        Ok(if_of(a[0], nil_at(sp), begin_of(rest_of(a), sp, sc, w), sp, sc, w))
    }
}

/// The form that a chain of conditionals evaluates to: through each
/// `(if t a b)` (with the `if` word of `w`), `a` when `t` is true and `b`
/// otherwise; any other form is itself.
pub open spec fn chosen(e: SV, w: SugarWords, atom: spec_fn(SV) -> bool) -> SV
    decreases e,
{
    match e {
        SV::List(items, _, _) => if items.len() == 4 && items[0] is Sym && items[0]->Sym_0 == w.if_ {
            if truth(items[1], w, atom) {
                chosen(items[2], w, atom)
            } else {
                chosen(items[3], w, atom)
            }
        } else {
            e
        },
        _ => e,
    }
}

/// `(when t body...)` runs the body (as one `begin`) when `t` is true and
/// gives `nil` otherwise; `(unless t body...)` does the opposite.
pub proof fn lemma_when_unless_choose(a: Seq<SV>, w: SugarWords, atom: spec_fn(SV) -> bool)
    requires
        a.len() > 0,
        w.begin != w.if_,
    ensures
        when_form(a, w) matches Ok(e) && chosen(e, w, atom) == if truth(a[0], w, atom) {
            begin_of(a.subrange(1, a.len() as int), sv_span(a[0]), sv_scopes(a[0]), w)
        } else {
            nil_at(sv_span(a[0]))
        },
        unless_form(a, w) matches Ok(e) && chosen(e, w, atom) == if truth(a[0], w, atom) {
            nil_at(sv_span(a[0]))
        } else {
            begin_of(a.subrange(1, a.len() as int), sv_span(a[0]), sv_scopes(a[0]), w)
        },
{
    let sp = sv_span(a[0]);
    let sc = sv_scopes(a[0]);
    let b = begin_of(rest_of(a), sp, sc, w);
    assert(b->List_0[0] == SV::Sym(w.begin, sp, sc));
    let e1 = if_of(a[0], b, nil_at(sp), sp, sc, w);
    let e2 = if_of(a[0], nil_at(sp), b, sp, sc, w);
    assert(e1->List_0[1] == a[0] && e1->List_0[2] == b && e1->List_0[3] == nil_at(sp));
    assert(e2->List_0[1] == a[0] && e2->List_0[2] == nil_at(sp) && e2->List_0[3] == b);
    assert(chosen(b, w, atom) == b);
    assert(chosen(nil_at(sp), w, atom) == nil_at(sp));
}

/// `(while test body...)` is
/// `(letrec ((lp (lambda () (if test (begin body... (lp)) nil)))) (lp))`
/// for a fresh symbol `lp`.
pub open spec fn while_form(a: Seq<SV>, w: SugarWords, lp: Symbol) -> Result<SV, Seq<char>> {
    if a.len() == 0 {
        Err("while 形式：(while 条件 体...)"@)
    } else {
        let sp = sv_span(a[0]);
        let sc = sv_scopes(a[0]);
        let call = SV::List(seq![SV::Sym(lp, sp, sc)], sp, sc);
        let body = begin_of(rest_of(a) + seq![call], sp, sc, w);
        let lam = lambda_of(SV::List(Seq::empty(), sp, sc), seq![if_of(a[0], body, nil_at(sp), sp, sc, w)], sp, sc, w);
        let binding = SV::List(seq![SV::List(seq![SV::Sym(lp, sp, sc), lam], sp, sc)], sp, sc);
        Ok(SV::List(seq![SV::Sym(w.letrec, sp, sc), binding, call], sp, sc))
    }
}

/// `r` is what `expected` says: the syntax object, or the error message.
pub open spec fn sugar_result(r: Result<ScopedStx, String>, expected: Result<SV, Seq<char>>) -> bool {
    match expected {
        Ok(v) => r matches Ok(s) && sv(s) == v,
        Err(m) => r matches Err(e) && e@ == m,
    }
}

// ---- lemmas ----

pub proof fn lemma_svs_index(items: Seq<ScopedStx>)
    ensures
        svs(items).len() == items.len(),
        forall|k: int| 0 <= k < items.len() ==> #[trigger] svs(items)[k] == sv(items[k]),
    decreases items.len(),
{
    if items.len() > 0 {
        lemma_svs_index(items.drop_last());
    }
}

proof fn lemma_svs_push(items: Seq<ScopedStx>, x: ScopedStx)
    ensures
        svs(items.push(x)) == svs(items).push(sv(x)),
{
    assert(items.push(x).drop_last() =~= items);
}

// ---- construction ----

pub(crate) fn copy_scopes(v: &Vec<u32>) -> (r: Vec<u32>)
    ensures
        r@ == v@,
{
    let mut r: Vec<u32> = Vec::new();
    let mut i: usize = 0;
    while i < v.len()
        invariant
            i <= v@.len(),
            r@ == v@.subrange(0, i as int),
        decreases v@.len() - i,
    {
        r.push(v[i]);
        i = i + 1;
        proof {
            assert(r@ =~= v@.subrange(0, i as int));
        }
    }
    proof {
        assert(v@.subrange(0, i as int) =~= v@);
    }
    r
}

fn copy_literal(l: &ScopedLiteral) -> (r: ScopedLiteral)
    ensures
        lit_v(r) == lit_v(*l),
{
    match l {
        ScopedLiteral::Int(i) => ScopedLiteral::Int(*i),
        ScopedLiteral::FloatBits(b) => ScopedLiteral::FloatBits(*b),
        ScopedLiteral::Str(s) => ScopedLiteral::Str(string_of(s.as_str())),
        ScopedLiteral::Bool(b) => ScopedLiteral::Bool(*b),
        ScopedLiteral::Nil => ScopedLiteral::Nil,
    }
}

/// A deep copy of `s`.
pub fn copy_stx(s: &ScopedStx) -> (r: ScopedStx)
    ensures
        sv(r) == sv(*s),
    decreases s,
{
    let datum = match &s.datum {
        ScopedDatum::Literal(l) => ScopedDatum::Literal(copy_literal(l)),
        ScopedDatum::Symbol(n) => ScopedDatum::Symbol(*n),
        ScopedDatum::List(items) => ScopedDatum::List(copy_all(items)),
        ScopedDatum::Vector(items) => ScopedDatum::Vector(copy_all(items)),
    };
    ScopedStx { datum, span: s.span, scopes: copy_scopes(&s.scopes) }
}

/// A deep copy of each of `v`.
pub fn copy_all(v: &Vec<ScopedStx>) -> (r: Vec<ScopedStx>)
    ensures
        svs(r@) == svs(v@),
    decreases v,
{
    let mut r: Vec<ScopedStx> = Vec::new();
    let mut i: usize = 0;
    proof {
        lemma_svs_index(v@);
    }
    while i < v.len()
        invariant
            i <= v@.len(),
            svs(r@) == svs(v@).subrange(0, i as int),
            svs(v@).len() == v@.len(),
            forall|k: int| 0 <= k < v@.len() ==> #[trigger] svs(v@)[k] == sv(v@[k]),
        decreases v@.len() - i,
    {
        let x = copy_stx(&v[i]);
        proof {
            lemma_svs_push(r@, x);
        }
        r.push(x);
        i = i + 1;
        proof {
            assert(svs(r@) =~= svs(v@).subrange(0, i as int));
        }
    }
    proof {
        assert(svs(v@).subrange(0, i as int) =~= svs(v@));
    }
    r
}

/// Appends copies of `v[from..]` to `out`.
pub(crate) fn push_copies(v: &Vec<ScopedStx>, from: usize, out: &mut Vec<ScopedStx>)
    requires
        from <= v@.len(),
    ensures
        svs(final(out)@) == svs(old(out)@) + svs(v@).subrange(from as int, v@.len() as int),
{
    let ghost o = svs(out@);
    let mut i = from;
    proof {
        lemma_svs_index(v@);
        assert(svs(out@) =~= o + svs(v@).subrange(from as int, i as int));
    }
    while i < v.len()
        invariant
            from <= i <= v@.len(),
            svs(out@) == o + svs(v@).subrange(from as int, i as int),
            svs(v@).len() == v@.len(),
            forall|k: int| 0 <= k < v@.len() ==> #[trigger] svs(v@)[k] == sv(v@[k]),
        decreases v@.len() - i,
    {
        let x = copy_stx(&v[i]);
        proof {
            lemma_svs_push(out@, x);
        }
        out.push(x);
        i = i + 1;
        proof {
            assert(svs(out@) =~= o + svs(v@).subrange(from as int, i as int));
        }
    }
}

pub(crate) fn sym_stx(n: Symbol, span: Span, scopes: &Vec<u32>) -> (r: ScopedStx)
    ensures
        sv(r) == SV::Sym(n, span, scopes@),
{
    ScopedStx { datum: ScopedDatum::Symbol(n), span, scopes: copy_scopes(scopes) }
}

pub(crate) fn list_stx(items: Vec<ScopedStx>, span: Span, scopes: &Vec<u32>) -> (r: ScopedStx)
    ensures
        sv(r) == SV::List(svs(items@), span, scopes@),
{
    ScopedStx { datum: ScopedDatum::List(items), span, scopes: copy_scopes(scopes) }
}

pub(crate) fn lit_stx(l: ScopedLiteral, span: Span) -> (r: ScopedStx)
    ensures
        sv(r) == SV::Lit(lit_v(l), span, Seq::empty()),
{
    let scopes: Vec<u32> = Vec::new();
    ScopedStx { datum: ScopedDatum::Literal(l), span, scopes }
}

/// A vector holding `x` alone.
pub(crate) fn one(x: ScopedStx) -> (r: Vec<ScopedStx>)
    ensures
        svs(r@) == seq![sv(x)],
{
    let mut r: Vec<ScopedStx> = Vec::new();
    proof {
        lemma_svs_push(r@, x);
        assert(r@ =~= Seq::<ScopedStx>::empty());
    }
    r.push(x);
    proof {
        assert(svs(r@) =~= seq![sv(x)]);
    }
    r
}

/// Appends `x` to `out`.
pub(crate) fn push_one(out: &mut Vec<ScopedStx>, x: ScopedStx)
    ensures
        svs(final(out)@) == svs(old(out)@).push(sv(x)),
{
    proof {
        lemma_svs_push(out@, x);
    }
    out.push(x);
}

/// `(begin v[from..]...)` at `span` with `scopes`.
fn begin_stx(v: &Vec<ScopedStx>, from: usize, span: Span, scopes: &Vec<u32>, w: &SugarWords) -> (r:
    ScopedStx)
    requires
        from <= v@.len(),
    ensures
        sv(r) == begin_of(svs(v@).subrange(from as int, v@.len() as int), span, scopes@, *w),
{
    let mut items = one(sym_stx(w.begin, span, scopes));
    push_copies(v, from, &mut items);
    list_stx(items, span, scopes)
}

/// `(if test then other)` at `span` with `scopes`.
fn if_stx(test: ScopedStx, then: ScopedStx, other: ScopedStx, span: Span, scopes: &Vec<u32>, w: &SugarWords) -> (r:
    ScopedStx)
    ensures
        sv(r) == if_of(sv(test), sv(then), sv(other), span, scopes@, *w),
{
    let ghost (t, a, b) = (sv(test), sv(then), sv(other));
    let mut items = one(sym_stx(w.if_, span, scopes));
    push_one(&mut items, test);
    push_one(&mut items, then);
    push_one(&mut items, other);
    proof {
        assert(svs(items@) =~= seq![SV::Sym(w.if_, span, scopes@), t, a, b]);
    }
    list_stx(items, span, scopes)
}

fn message(m: &str) -> (r: Result<ScopedStx, String>)
    ensures
        r matches Err(e) && e@ == m@,
{
    Err(string_of(m))
}

// ---- the sugar ----

/// `(when test body...)`.
pub fn desugar_when(args: &Vec<ScopedStx>, w: &SugarWords) -> (r: Result<ScopedStx, String>)
    ensures
        sugar_result(r, when_form(svs(args@), *w)),
{
    if args.len() == 0 {
        return message("when 形式：(when 条件 体...)");
    }
    proof {
        lemma_svs_index(args@);
    }
    let span = args[0].span;
    let body = begin_stx(args, 1, span, &args[0].scopes, w);
    Ok(if_stx(copy_stx(&args[0]), body, lit_stx(ScopedLiteral::Nil, span), span, &args[0].scopes, w))
}

/// `(unless test body...)`.
pub fn desugar_unless(args: &Vec<ScopedStx>, w: &SugarWords) -> (r: Result<ScopedStx, String>)
    ensures
        sugar_result(r, unless_form(svs(args@), *w)),
{
    if args.len() == 0 {
        return message("unless 形式：(unless 条件 体...)");
    }
    proof {
        lemma_svs_index(args@);
    }
    let span = args[0].span;
    let body = begin_stx(args, 1, span, &args[0].scopes, w);
    Ok(if_stx(copy_stx(&args[0]), lit_stx(ScopedLiteral::Nil, span), body, span, &args[0].scopes, w))
}

fn and_chain(args: &Vec<ScopedStx>, k: usize, w: &SugarWords) -> (r: ScopedStx)
    requires
        k < args@.len(),
    ensures
        sv(r) == and_from(svs(args@), k as int, *w),
    decreases args@.len() - k,
{
    proof {
        lemma_svs_index(args@);
    }
    if k == args.len() - 1 {
        return copy_stx(&args[k]);
    }
    let span = args[k].span;
    let rest = and_chain(args, k + 1, w);
    if_stx(copy_stx(&args[k]), rest, lit_stx(ScopedLiteral::Bool(false), span), span, &args[k].scopes, w)
}

/// `(and e...)`; never an error.
pub fn desugar_and(args: &Vec<ScopedStx>, w: &SugarWords) -> (r: Result<ScopedStx, String>)
    ensures
        r matches Ok(s) && sv(s) == and_from(svs(args@), 0, *w),
{
    proof {
        lemma_svs_index(args@);
    }
    if args.len() == 0 {
        return Ok(lit_stx(ScopedLiteral::Bool(true), Span::dummy()));
    }
    Ok(and_chain(args, 0, w))
}

fn or_chain(args: &Vec<ScopedStx>, k: usize, w: &SugarWords) -> (r: ScopedStx)
    requires
        k < args@.len(),
    ensures
        sv(r) == or_from(svs(args@), k as int, *w),
    decreases args@.len() - k,
{
    proof {
        lemma_svs_index(args@);
    }
    if k == args.len() - 1 {
        return copy_stx(&args[k]);
    }
    let span = args[k].span;
    let rest = or_chain(args, k + 1, w);
    if_stx(copy_stx(&args[k]), lit_stx(ScopedLiteral::Bool(true), span), rest, span, &args[k].scopes, w)
}

/// `(or e...)`; never an error.
pub fn desugar_or(args: &Vec<ScopedStx>, w: &SugarWords) -> (r: Result<ScopedStx, String>)
    ensures
        r matches Ok(s) && sv(s) == or_from(svs(args@), 0, *w),
{
    proof {
        lemma_svs_index(args@);
    }
    if args.len() == 0 {
        return Ok(lit_stx(ScopedLiteral::Bool(false), Span::dummy()));
    }
    Ok(or_chain(args, 0, w))
}

/// `(while test body...)`, looping through the fresh symbol `lp`.
pub fn desugar_while(args: &Vec<ScopedStx>, w: &SugarWords, lp: Symbol) -> (r: Result<ScopedStx, String>)
    ensures
        sugar_result(r, while_form(svs(args@), *w, lp)),
{
    if args.len() == 0 {
        return message("while 形式：(while 条件 体...)");
    }
    proof {
        lemma_svs_index(args@);
    }
    let ghost a = svs(args@);
    let span = args[0].span;
    let sc = &args[0].scopes;
    let ghost c = sc@;
    let call = list_stx(one(sym_stx(lp, span, sc)), span, sc);
    let ghost callv = sv(call);
    let mut body_items = one(sym_stx(w.begin, span, sc));
    push_copies(args, 1, &mut body_items);
    push_one(&mut body_items, call);
    proof {
        assert(svs(body_items@) =~= seq![SV::Sym(w.begin, span, c)] + (rest_of(a) + seq![callv]));
    }
    let body = list_stx(body_items, span, sc);
    let if_form = if_stx(copy_stx(&args[0]), body, lit_stx(ScopedLiteral::Nil, span), span, sc, w);
    let ghost ifv = sv(if_form);
    let mut lam_items = one(sym_stx(w.lambda, span, sc));
    let no_params: Vec<ScopedStx> = Vec::new();
    push_one(&mut lam_items, list_stx(no_params, span, sc));
    push_one(&mut lam_items, if_form);
    proof {
        assert(svs(lam_items@) =~= seq![SV::Sym(w.lambda, span, c), SV::List(Seq::empty(), span, c)] + seq![ifv]);
    }
    let lam = list_stx(lam_items, span, sc);
    let ghost lamv = sv(lam);
    let mut pair = one(sym_stx(lp, span, sc));
    push_one(&mut pair, lam);
    proof {
        assert(svs(pair@) =~= seq![SV::Sym(lp, span, c), lamv]);
    }
    let binding = list_stx(one(list_stx(pair, span, sc)), span, sc);
    let ghost bv = sv(binding);
    let mut items = one(sym_stx(w.letrec, span, sc));
    push_one(&mut items, binding);
    let call2 = list_stx(one(sym_stx(lp, span, sc)), span, sc);
    proof {
        assert(sv(call2) == callv);
    }
    push_one(&mut items, call2);
    proof {
        assert(svs(items@) =~= seq![SV::Sym(w.letrec, span, c), bv, callv]);
    }
    Ok(list_stx(items, span, sc))
}

pub(crate) proof fn lemma_svs_concat(x: Seq<ScopedStx>, y: Seq<ScopedStx>)
    ensures
        svs(x + y) == svs(x) + svs(y),
{
    lemma_svs_index(x);
    lemma_svs_index(y);
    lemma_svs_index(x + y);
    assert(svs(x + y) =~= svs(x) + svs(y));
}

/// Every binding from `k` on is a list of a symbol and a value.
proof fn lemma_bindings_ok(bs: Seq<SV>, k: int, np: Seq<char>, ns: Seq<char>)
    requires
        0 <= k,
        bad_binding(bs, k, np, ns) is None,
    ensures
        forall|i: int| k <= i < bs.len() ==> #[trigger] pair_ok(bs[i]) && bs[i]->List_0[0] is Sym,
    decreases bs.len() - k,
{
    if k < bs.len() {
        lemma_bindings_ok(bs, k + 1, np, ns);
    }
}

/// The bindings of a binding list taken apart: names, values, and each
/// name's symbol and span; or the message for the first bad binding.
fn split_bindings(bs: &Vec<ScopedStx>, not_pair: &str, not_sym: &str) -> (r: Result<
    (Vec<ScopedStx>, Vec<ScopedStx>, Vec<Symbol>, Vec<Span>),
    String,
>)
    ensures
        match bad_binding(svs(bs@), 0, not_pair@, not_sym@) {
            Some(m) => r matches Err(e) && e@ == m,
            None => r matches Ok(p) && svs(p.0@) == firsts(svs(bs@)) && svs(p.1@) == seconds(svs(bs@))
                && p.2@.len() == bs@.len() && p.3@.len() == bs@.len() && forall|i: int|
                0 <= i < bs@.len() ==> p.2@[i] == (#[trigger] svs(bs@)[i])->List_0[0]->Sym_0 && p.3@[i]
                == sv_span(svs(bs@)[i]->List_0[0]),
        },
{
    let ghost b = svs(bs@);
    let ghost (np, ns) = (not_pair@, not_sym@);
    proof {
        lemma_svs_index(bs@);
    }
    let mut names: Vec<ScopedStx> = Vec::new();
    let mut values: Vec<ScopedStx> = Vec::new();
    let mut syms: Vec<Symbol> = Vec::new();
    let mut spans: Vec<Span> = Vec::new();
    let mut k: usize = 0;
    while k < bs.len()
        invariant
            k <= bs@.len(),
            b == svs(bs@),
            np == not_pair@,
            ns == not_sym@,
            b.len() == bs@.len(),
            forall|i: int| 0 <= i < bs@.len() ==> #[trigger] b[i] == sv(bs@[i]),
            bad_binding(b, 0, np, ns) == bad_binding(b, k as int, np, ns),
            svs(names@) == firsts(b).subrange(0, k as int),
            svs(values@) == seconds(b).subrange(0, k as int),
            syms@.len() == k,
            spans@.len() == k,
            forall|i: int| 0 <= i < k ==> syms@[i] == (#[trigger] b[i])->List_0[0]->Sym_0 && spans@[i]
                == sv_span(b[i]->List_0[0]),
        decreases bs@.len() - k,
    {
        let ghost bk = b[k as int];
        match &bs[k].datum {
            ScopedDatum::List(pair) => {
                proof {
                    lemma_svs_index(pair@);
                }
                if pair.len() != 2 {
                    return Err(string_of(not_pair));
                }
                let n = match &pair[0].datum {
                    ScopedDatum::Symbol(n) => *n,
                    _ => {
                        return Err(string_of(not_sym));
                    },
                };
                let ghost (nb, vb) = (names@, values@);
                push_one(&mut names, copy_stx(&pair[0]));
                push_one(&mut values, copy_stx(&pair[1]));
                syms.push(n);
                spans.push(pair[0].span);
                proof {
                    assert(svs(names@) =~= firsts(b).subrange(0, k + 1));
                    assert(svs(values@) =~= seconds(b).subrange(0, k + 1));
                }
            },
            _ => {
                return Err(string_of(not_pair));
            },
        }
        k = k + 1;
    }
    proof {
        assert(firsts(b).subrange(0, k as int) =~= firsts(b));
        assert(seconds(b).subrange(0, k as int) =~= seconds(b));
    }
    Ok((names, values, syms, spans))
}

/// `(let ((n v) ...) body...)`.
pub fn desugar_let(args: &Vec<ScopedStx>, w: &SugarWords) -> (r: Result<ScopedStx, String>)
    ensures
        sugar_result(r, let_form(svs(args@), *w)),
{
    proof {
        lemma_svs_index(args@);
    }
    if args.len() < 2 {
        return message("let 形式：(let ((名 值)...) 体...)");
    }
    let ghost a = svs(args@);
    let bindings = match &args[0].datum {
        ScopedDatum::List(items) => items,
        _ => {
            return message("let 绑定组必须是列表");
        },
    };
    let (names, mut values, _, _) = match split_bindings(
        bindings,
        "let 绑定必须是 (名 值) 二元列表",
        "let 绑定名必须是符号",
    ) {
        Ok(p) => p,
        Err(e) => {
            return Err(e);
        },
    };
    let span = args[0].span;
    let sc = &args[0].scopes;
    let ghost c = sc@;
    let params = list_stx(names, span, sc);
    let ghost pv = sv(params);
    let mut lam_items = one(sym_stx(w.lambda, span, sc));
    push_one(&mut lam_items, params);
    push_copies(args, 1, &mut lam_items);
    proof {
        assert(svs(lam_items@) =~= seq![SV::Sym(w.lambda, span, c), pv] + rest_of(a));
    }
    let lam = list_stx(lam_items, span, sc);
    let mut app = one(lam);
    let ghost (ap, vs) = (app@, values@);
    app.append(&mut values);
    proof {
        assert(app@ == ap + vs);
        lemma_svs_concat(ap, vs);
    }
    let no_scopes: Vec<u32> = Vec::new();
    Ok(list_stx(app, span, &no_scopes))
}

/// `(letrec ((n v) ...) body...)`.
pub fn desugar_letrec(args: &Vec<ScopedStx>, w: &SugarWords) -> (r: Result<ScopedStx, String>)
    ensures
        sugar_result(r, letrec_form(svs(args@), *w)),
{
    proof {
        lemma_svs_index(args@);
    }
    if args.len() < 2 {
        return message("letrec 形式：(letrec ((名 值)...) 体...)");
    }
    let ghost a = svs(args@);
    let bindings = match &args[0].datum {
        ScopedDatum::List(items) => items,
        _ => {
            return message("letrec 绑定组必须是列表");
        },
    };
    let ghost bs = svs(bindings@);
    proof {
        lemma_svs_index(bindings@);
    }
    let (_, values, syms, spans) = match split_bindings(
        bindings,
        "letrec 绑定必须是 (名 值) 二元列表",
        "letrec 绑定名必须是符号",
    ) {
        Ok(p) => p,
        Err(e) => {
            return Err(e);
        },
    };
    proof {
        lemma_svs_index(values@);
    }
    let span = args[0].span;
    let sc = &args[0].scopes;
    let ghost c = sc@;
    let ghost params_v = Seq::new(bs.len(), |i: int| SV::Sym(bs[i]->List_0[0]->Sym_0, span, c));
    let ghost sets_v = Seq::new(bs.len(), |i: int| letrec_set(bs[i], span, c, *w));
    let ghost nils_v = Seq::new(bs.len(), |i: int| nil_at(span));
    let mut params: Vec<ScopedStx> = Vec::new();
    let mut body_items = one(sym_stx(w.begin, span, sc));
    let ghost head = svs(body_items@);
    let mut nils: Vec<ScopedStx> = Vec::new();
    let mut i: usize = 0;
    while i < syms.len()
        invariant
            i <= syms@.len(),
            syms@.len() == bs.len(),
            spans@.len() == bs.len(),
            svs(values@) == seconds(bs),
            svs(values@).len() == values@.len(),
            forall|k: int| 0 <= k < values@.len() ==> #[trigger] svs(values@)[k] == sv(values@[k]),
            forall|k: int|
                0 <= k < bs.len() ==> syms@[k] == (#[trigger] bs[k])->List_0[0]->Sym_0 && spans@[k]
                    == sv_span(bs[k]->List_0[0]),
            c == sc@,
            params_v == Seq::new(bs.len(), |k: int| SV::Sym(bs[k]->List_0[0]->Sym_0, span, c)),
            sets_v == Seq::new(bs.len(), |k: int| letrec_set(bs[k], span, c, *w)),
            nils_v == Seq::new(bs.len(), |k: int| nil_at(span)),
            svs(params@) == params_v.subrange(0, i as int),
            svs(body_items@) == head + sets_v.subrange(0, i as int),
            svs(nils@) == nils_v.subrange(0, i as int),
        decreases syms@.len() - i,
    {
        push_one(&mut params, sym_stx(syms[i], span, sc));
        let mut set_items = one(sym_stx(w.set_bang, span, sc));
        push_one(&mut set_items, sym_stx(syms[i], spans[i], sc));
        push_one(&mut set_items, copy_stx(&values[i]));
        proof {
            assert(svs(values@)[i as int] == seconds(bs)[i as int]);
            assert(svs(set_items@) =~= seq![
                SV::Sym(w.set_bang, span, c),
                SV::Sym(bs[i as int]->List_0[0]->Sym_0, sv_span(bs[i as int]->List_0[0]), c),
                bs[i as int]->List_0[1],
            ]);
        }
        push_one(&mut body_items, list_stx(set_items, spans[i], sc));
        push_one(&mut nils, lit_stx(ScopedLiteral::Nil, span));
        i = i + 1;
        proof {
            assert(svs(params@) =~= params_v.subrange(0, i as int));
            assert(svs(body_items@) =~= head + sets_v.subrange(0, i as int));
            assert(svs(nils@) =~= nils_v.subrange(0, i as int));
        }
    }
    push_copies(args, 1, &mut body_items);
    proof {
        assert(params_v.subrange(0, i as int) =~= params_v);
        assert(nils_v.subrange(0, i as int) =~= nils_v);
        assert(svs(body_items@) =~= seq![SV::Sym(w.begin, span, c)] + (sets_v + rest_of(a)));
    }
    let body = list_stx(body_items, span, sc);
    let ghost body_v = sv(body);
    let param_list = list_stx(params, span, sc);
    let ghost plist_v = sv(param_list);
    let mut lam_items = one(sym_stx(w.lambda, span, sc));
    push_one(&mut lam_items, param_list);
    push_one(&mut lam_items, body);
    proof {
        assert(svs(lam_items@) =~= seq![SV::Sym(w.lambda, span, c), plist_v] + seq![body_v]);
    }
    let lam = list_stx(lam_items, span, sc);
    let mut app = one(lam);
    let ghost (ap, ns) = (app@, nils@);
    app.append(&mut nils);
    proof {
        lemma_svs_concat(ap, ns);
    }
    Ok(list_stx(app, span, sc))
}

/// `(let* ((n v) ...) body...)`.
pub fn desugar_let_star(args: &Vec<ScopedStx>, w: &SugarWords) -> (r: Result<ScopedStx, String>)
    ensures
        sugar_result(r, let_star_form(svs(args@), *w)),
{
    proof {
        lemma_svs_index(args@);
    }
    if args.len() < 2 {
        return message("let* 形式：(let* ((名 值)...) 体...)");
    }
    let ghost a = svs(args@);
    let bindings = match &args[0].datum {
        ScopedDatum::List(items) => items,
        _ => {
            return message("let* 绑定组必须是列表");
        },
    };
    proof {
        lemma_svs_index(bindings@);
    }
    if bindings.len() == 0 {
        return desugar_let(args, w);
    }
    let ghost bs = svs(bindings@);
    let span = args[0].span;
    let sc = &args[0].scopes;
    let ghost c = sc@;
    let mut rest_items: Vec<ScopedStx> = Vec::new();
    push_copies(bindings, 1, &mut rest_items);
    proof {
        assert(svs(rest_items@) =~= rest_of(bs));
    }
    let rest_list = list_stx(rest_items, span, sc);
    let ghost rl = sv(rest_list);
    let mut inner_items = one(sym_stx(w.let_star, span, sc));
    push_one(&mut inner_items, rest_list);
    push_copies(args, 1, &mut inner_items);
    proof {
        assert(svs(inner_items@) =~= seq![SV::Sym(w.let_star, span, c), rl] + rest_of(a));
    }
    let inner = list_stx(inner_items, span, sc);
    let ghost iv = sv(inner);
    let first = list_stx(one(copy_stx(&bindings[0])), span, sc);
    let ghost fv = sv(first);
    let mut items = one(sym_stx(w.let_, span, sc));
    push_one(&mut items, first);
    push_one(&mut items, inner);
    proof {
        assert(svs(items@) =~= seq![SV::Sym(w.let_, span, c), fv, iv]);
    }
    Ok(list_stx(items, span, sc))
}

pub open spec fn opt_sv(o: Option<ScopedStx>) -> Option<SV> {
    match o {
        Some(s) => Some(sv(s)),
        None => None,
    }
}

/// An error from clause `k` on is the error of the whole `cond`.
proof fn lemma_cond_error(cl: Seq<SV>, j: int, k: int, sc: Seq<u32>, w: SugarWords)
    requires
        0 <= j <= k,
        cond_from(cl, k, sc, w) is Err,
    ensures
        cond_from(cl, j, sc, w) == cond_from(cl, k, sc, w),
    decreases k - j,
{
    if j < k {
        lemma_cond_error(cl, j + 1, k, sc, w);
    }
}

/// `(cond clause...)`.
pub fn desugar_cond(args: &Vec<ScopedStx>, w: &SugarWords) -> (r: Result<ScopedStx, String>)
    ensures
        sugar_result(r, cond_form(svs(args@), *w)),
{
    proof {
        lemma_svs_index(args@);
    }
    if args.len() == 0 {
        return message("cond 需要至少一个子句");
    }
    let ghost a = svs(args@);
    let sc = &args[0].scopes;
    let ghost c = sc@;
    let mut chain: Option<ScopedStx> = None;
    let mut i = args.len();
    while i > 0
        invariant
            i <= args@.len(),
            args@.len() > 0,
            a == svs(args@),
            a.len() == args@.len(),
            forall|k: int| 0 <= k < args@.len() ==> #[trigger] a[k] == sv(args@[k]),
            c == sc@,
            c == sv_scopes(a[0]),
            cond_from(a, i as int, c, *w) == Ok::<Option<SV>, Seq<char>>(opt_sv(chain)),
            i < args@.len() ==> chain is Some,
        decreases i,
    {
        let k = i - 1;
        let pair = match &args[k].datum {
            ScopedDatum::List(p) => p,
            _ => {
                proof {
                    lemma_cond_error(a, 0, k as int, c, *w);
                }
                return message("cond 子句必须是非空列表");
            },
        };
        proof {
            lemma_svs_index(pair@);
        }
        if pair.len() == 0 {
            proof {
                lemma_cond_error(a, 0, k as int, c, *w);
            }
            return message("cond 子句必须是非空列表");
        }
        let ghost p = svs(pair@);
        let is_else = match &pair[0].datum {
            ScopedDatum::Symbol(n) => *n == w.else_,
            _ => false,
        };
        let s0 = pair[0].span;
        let body = if pair.len() == 1 {
            copy_stx(&pair[0])
        } else if pair.len() == 2 {
            copy_stx(&pair[1])
        } else {
            begin_stx(pair, 1, s0, sc, w)
        };
        proof {
            assert(sv(body) == clause_body(p, c, *w));
        }
        let ghost tail_v = opt_sv(chain);
        let node = if is_else {
            body
        } else {
            let tail = match chain {
                Some(t) => t,
                None => lit_stx(ScopedLiteral::Nil, s0),
            };
            if_stx(copy_stx(&pair[0]), body, tail, s0, sc, w)
        };
        proof {
            assert(sv(node) == clause_node(p, tail_v, c, *w));
        }
        chain = Some(node);
        i = k;
    }
    match chain {
        Some(v) => Ok(v),
        None => Ok(lit_stx(ScopedLiteral::Nil, args[0].span)),
    }
}

} // verus!
