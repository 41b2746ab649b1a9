//! The shapes of the `require` and `module` core forms: what a form
//! declares, or the expansion error it gets.
use vstd::prelude::*;

use crate::core_expr::Capability;
use crate::expander::ExpandError;
use crate::span::Span;
use crate::sugar::{
    copy_stx, lemma_svs_index, lit_stx, list_stx, one, push_copies, push_one, sv, sv_span, svs,
    sym_stx, ScopedDatum, ScopedLiteral, ScopedStx, LitV, SV,
};
use crate::symbol::Symbol;
use crate::syntax_rules::{parse_rules, SyntaxRules};
use crate::text::{push_str, same_text};

verus! {

/// An error message and where it points.
pub type FormError = (Seq<char>, Span);

/// The capabilities of `(require io cap...)` from item `k` on, each kept
/// once in the order of first mention.
pub open spec fn caps_from(names: Seq<Option<Seq<char>>>, spans: Seq<Span>, k: int, acc: Seq<Capability>) -> Result<
    Seq<Capability>,
    FormError,
>
    decreases names.len() - k,
{
    if k < 0 || k >= names.len() {
        Ok(acc)
    } else {
        match names[k] {
            None => Err(("require 能力项必须是符号（read/write）"@, spans[k])),
            Some(x) => if x != "read"@ && x != "write"@ {
                Err(("未知能力项「"@ + x + "」（当前仅 read/write）"@, spans[k]))
            } else {
                let c = if x == "read"@ {
                    Capability::IoRead
                } else {
                    Capability::IoWrite
                };
                caps_from(names, spans, k + 1, if acc.contains(c) { acc } else { acc.push(c) })
            },
        }
    }
}

/// What `(require subject cap...)` declares, given the name of each item
/// that is a symbol: only the subject `io` is known, with the
/// capabilities `read` and `write`.
pub open spec fn require_form(names: Seq<Option<Seq<char>>>, spans: Seq<Span>, span: Span) -> Result<
    Seq<Capability>,
    FormError,
> {
    if names.len() < 3 {
        Err(("require 形式：(require io read|write)——主体与能力项不可缺省"@, span))
    } else {
        match names[1] {
            None => Err(("require 主体必须是符号（当前仅 io）"@, spans[1])),
            Some(s) => if s != "io"@ {
                Err(("未知能力主体「"@ + s + "」（当前仅支持 io；net/process 属 Stage 2）"@, spans[1]))
            } else {
                caps_from(names, spans, 2, Seq::empty())
            },
        }
    }
}

/// The view of optional names.
pub open spec fn names_v(names: Seq<Option<String>>) -> Seq<Option<Seq<char>>> {
    Seq::new(
        names.len(),
        |i: int|
            match names[i] {
                Some(s) => Some(s@),
                None => None,
            },
    )
}

/// `r` is the error `e`.
pub open spec fn form_error<T>(r: Result<T, ExpandError>, e: FormError) -> bool {
    r matches Err(x) && x.message@ == e.0 && x.span == e.1
}

fn error_at<T>(message: String, span: Span) -> (r: Result<T, ExpandError>)
    ensures
        form_error(r, (message@, span)),
{
    Err(ExpandError { message, span })
}

/// The capabilities a `require` form declares; `names[i]` is the name of
/// item `i` when it is a symbol, and `spans[i]` its span.
pub fn require_capabilities(names: &Vec<Option<String>>, spans: &Vec<Span>, span: Span) -> (r: Result<
    Vec<Capability>,
    ExpandError,
>)
    requires
        names@.len() == spans@.len(),
    ensures
        match require_form(names_v(names@), spans@, span) {
            Ok(caps) => r matches Ok(v) && v@ == caps,
            Err(e) => form_error(r, e),
        },
{
    let ghost nv = names_v(names@);
    if names.len() < 3 {
        return error_at(crate::text::string_of("require 形式：(require io read|write)——主体与能力项不可缺省"), span);
    }
    let subject = match &names[1] {
        None => {
            return error_at(crate::text::string_of("require 主体必须是符号（当前仅 io）"), spans[1]);
        },
        Some(s) => s,
    };
    if !same_text(subject.as_str(), "io") {
        let mut m = crate::text::string_of("未知能力主体「");
        push_str(&mut m, subject.as_str());
        push_str(&mut m, "」（当前仅支持 io；net/process 属 Stage 2）");
        return error_at(m, spans[1]);
    }
    assert(nv[1] == Some("io"@));
    let mut caps: Vec<Capability> = Vec::new();
    let mut k: usize = 2;
    while k < names.len()
        invariant
            2 <= k <= names@.len(),
            names@.len() >= 3,
            nv[1] == Some("io"@),
            names@.len() == spans@.len(),
            nv == names_v(names@),
            caps_from(nv, spans@, 2, Seq::empty()) == caps_from(nv, spans@, k as int, caps@),
        decreases names@.len() - k,
    {
        let name = match &names[k] {
            None => {
                return error_at(crate::text::string_of("require 能力项必须是符号（read/write）"), spans[k]);
            },
            Some(x) => x,
        };
        let c = if same_text(name.as_str(), "read") {
            Capability::IoRead
        } else if same_text(name.as_str(), "write") {
            Capability::IoWrite
        } else {
            let mut m = crate::text::string_of("未知能力项「");
            push_str(&mut m, name.as_str());
            push_str(&mut m, "」（当前仅 read/write）");
            return error_at(m, spans[k]);
        };
        let mut seen = false;
        let mut j: usize = 0;
        while j < caps.len()
            invariant
                j <= caps@.len(),
                seen == exists|q: int| 0 <= q < j && caps@[q] == c,
            decreases caps@.len() - j,
        {
            if caps[j] == c {
                seen = true;
            }
            j = j + 1;
        }
        proof {
            assert(seen == caps@.contains(c));
        }
        if !seen {
            caps.push(c);
        }
        k = k + 1;
    }
    Ok(caps)
}

/// A clause `(import s...)` or `(export s...)`: a list whose head is the
/// given keyword symbol.
pub open spec fn headed_by(item: SV, kw: Symbol) -> bool {
    item is List && item->List_0.len() > 0 && item->List_0[0] is Sym && item->List_0[0]->Sym_0 == kw
}

/// The symbols of `l` from `j` on, or the error at the first item that is
/// not one.
pub open spec fn symbols_from(l: Seq<SV>, j: int, msg: Seq<char>) -> Result<Seq<Symbol>, FormError>
    decreases l.len() - j,
{
    if j < 0 || j >= l.len() {
        Ok(Seq::empty())
    } else if !(l[j] is Sym) {
        Err((msg, sv_span(l[j])))
    } else {
        match symbols_from(l, j + 1, msg) {
            Ok(rest) => Ok(seq![l[j]->Sym_0] + rest),
            Err(e) => Err(e),
        }
    }
}

/// The `import` and `export` clauses from item `k` on, in any order and
/// number: the imports, the exports, and where the body starts.
pub open spec fn header_from(
    items: Seq<SV>,
    k: int,
    imp: Symbol,
    exp: Symbol,
    acc_i: Seq<Symbol>,
    acc_e: Seq<Symbol>,
) -> Result<(Seq<Symbol>, Seq<Symbol>, int), FormError>
    decreases items.len() - k,
{
    if k < 0 || k >= items.len() {
        Ok((acc_i, acc_e, k))
    } else if headed_by(items[k], imp) {
        match symbols_from(items[k]->List_0, 1, "import 项必须是符号"@) {
            Err(e) => Err(e),
            Ok(ss) => header_from(items, k + 1, imp, exp, acc_i + ss, acc_e),
        }
    } else if headed_by(items[k], exp) {
        match symbols_from(items[k]->List_0, 1, "export 项必须是符号"@) {
            Err(e) => Err(e),
            Ok(ss) => header_from(items, k + 1, imp, exp, acc_i, acc_e + ss),
        }
    } else {
        Ok((acc_i, acc_e, k))
    }
}

/// What `(module name clause... body...)` declares: its name, imports,
/// exports, and the index of its first body form.
pub open spec fn module_form(items: Seq<SV>, span: Span, imp: Symbol, exp: Symbol) -> Result<
    (Symbol, Seq<Symbol>, Seq<Symbol>, int),
    FormError,
> {
    if items.len() < 2 {
        Err(("module 形式：(module 名 [(import ...)] [(export ...)] 体...)"@, span))
    } else if !(items[1] is Sym) {
        Err(("module 名必须是符号"@, sv_span(items[1])))
    } else {
        match header_from(items, 2, imp, exp, Seq::empty(), Seq::empty()) {
            Err(e) => Err(e),
            Ok((i, e, b)) => Ok((items[1]->Sym_0, i, e, b)),
        }
    }
}

/// The head of a module form.
#[derive(Debug)]
pub struct ModuleHeader {
    pub name: Symbol,
    pub imports: Vec<Symbol>,
    pub exports: Vec<Symbol>,
    /// The index of the first body form among the form's items.
    pub body_start: usize,
}

/// Appends the symbols of `l[1..]` to `out`, or fails at the first item
/// that is not a symbol.
fn push_symbols(l: &Vec<ScopedStx>, msg: &str, out: &mut Vec<Symbol>) -> (r: Result<(), ExpandError>)
    ensures
        match symbols_from(svs(l@), 1, msg@) {
            Ok(ss) => r is Ok && final(out)@ == old(out)@ + ss,
            Err(e) => form_error(r, e),
        },
{
    proof {
        lemma_svs_index(l@);
    }
    let ghost (lv, o0) = (svs(l@), out@);
    let mut j: usize = 1;
    if l.len() == 0 {
        return Ok(());
    }
    while j < l.len()
        invariant
            1 <= j <= l@.len(),
            lv == svs(l@),
            lv.len() == l@.len(),
            forall|q: int| 0 <= q < l@.len() ==> #[trigger] lv[q] == sv(l@[q]),
            match symbols_from(lv, 1, msg@) {
                Ok(ss) => symbols_from(lv, j as int, msg@) matches Ok(rest) && ss == out@.subrange(
                    o0.len() as int,
                    out@.len() as int,
                ) + rest && out@.subrange(0, o0.len() as int) == o0 && out@.len() >= o0.len(),
                Err(e) => symbols_from(lv, j as int, msg@) == Err::<Seq<Symbol>, FormError>(e),
            },
        decreases l@.len() - j,
    {
        match &l[j].datum {
            ScopedDatum::Symbol(x) => {
                let ghost before = out@;
                out.push(*x);
                proof {
                    if let Ok(ss) = symbols_from(lv, 1, msg@) {
                        assert(out@.subrange(o0.len() as int, out@.len() as int) =~= before.subrange(
                            o0.len() as int,
                            before.len() as int,
                        ).push(*x));
                        assert(out@.subrange(0, o0.len() as int) =~= before.subrange(0, o0.len() as int));
                        let rest = symbols_from(lv, j as int, msg@)->Ok_0;
                        let rest2 = symbols_from(lv, j + 1, msg@)->Ok_0;
                        assert(rest =~= seq![*x] + rest2);
                        assert(ss =~= out@.subrange(o0.len() as int, out@.len() as int) + rest2);
                    }
                }
            },
            _ => {
                return error_at(crate::text::string_of(msg), l[j].span);
            },
        }
        j = j + 1;
    }
    proof {
        if let Ok(ss) = symbols_from(lv, 1, msg@) {
            assert(out@ =~= out@.subrange(0, o0.len() as int) + out@.subrange(o0.len() as int, out@.len() as int));
            assert(ss =~= out@.subrange(o0.len() as int, out@.len() as int));
        }
    }
    Ok(())
}

/// Reads the head of a `(module name clause... body...)` form whose items
/// are `items` (the `module` keyword first); `imp` and `exp` are the
/// symbols of the `import` and `export` keywords.
pub fn module_header(items: &Vec<ScopedStx>, span: Span, imp: Symbol, exp: Symbol) -> (r: Result<
    ModuleHeader,
    ExpandError,
>)
    ensures
        match module_form(svs(items@), span, imp, exp) {
            Ok((n, i, e, b)) => r matches Ok(h) && h.name == n && h.imports@ == i && h.exports@ == e
                && h.body_start == b,
            Err(x) => form_error(r, x),
        },
{
    proof {
        lemma_svs_index(items@);
    }
    let ghost iv = svs(items@);
    if items.len() < 2 {
        return error_at(
            crate::text::string_of("module 形式：(module 名 [(import ...)] [(export ...)] 体...)"),
            span,
        );
    }
    let name = match &items[1].datum {
        ScopedDatum::Symbol(n) => *n,
        _ => {
            return error_at(crate::text::string_of("module 名必须是符号"), items[1].span);
        },
    };
    let mut imports: Vec<Symbol> = Vec::new();
    let mut exports: Vec<Symbol> = Vec::new();
    let mut k: usize = 2;
    while k < items.len()
        invariant
            2 <= k <= items@.len(),
            iv == svs(items@),
            iv.len() == items@.len(),
            forall|q: int| 0 <= q < items@.len() ==> #[trigger] iv[q] == sv(items@[q]),
            iv[1] is Sym && iv[1]->Sym_0 == name,
            header_from(iv, 2, imp, exp, Seq::empty(), Seq::empty()) == header_from(
                iv,
                k as int,
                imp,
                exp,
                imports@,
                exports@,
            ),
        ensures
            header_from(iv, 2, imp, exp, Seq::empty(), Seq::empty()) == Ok::<
                (Seq<Symbol>, Seq<Symbol>, int),
                FormError,
            >((imports@, exports@, k as int)),
            iv[1] is Sym && iv[1]->Sym_0 == name,
        decreases items@.len() - k,
    {
        let (is_imp, is_exp) = match &items[k].datum {
            ScopedDatum::List(l) => if l.len() > 0 {
                match &l[0].datum {
                    ScopedDatum::Symbol(h) => (*h == imp, *h == exp),
                    _ => (false, false),
                }
            } else {
                (false, false)
            },
            _ => (false, false),
        };
        proof {
            if let ScopedDatum::List(l) = items@[k as int].datum {
                lemma_svs_index(l@);
            }
            assert(is_imp == headed_by(iv[k as int], imp));
            assert(is_exp == headed_by(iv[k as int], exp));
        }
        if !is_imp && !is_exp {
            break;
        }
        let l = match &items[k].datum {
            ScopedDatum::List(l) => l,
            _ => {
                break;
            },
        };
        if is_imp {
            match push_symbols(l, "import 项必须是符号", &mut imports) {
                Ok(()) => {},
                Err(e) => {
                    return Err(e);
                },
            }
        } else {
            match push_symbols(l, "export 项必须是符号", &mut exports) {
                Ok(()) => {},
                Err(e) => {
                    return Err(e);
                },
            }
        }
        k = k + 1;
    }
    Ok(ModuleHeader { name, imports, exports, body_start: k })
}

// ---- lambda, define, set!, define-syntax ----

/// The parameters of a `lambda` from `k` on, after those in `acc`: each a
/// symbol, none twice.
pub open spec fn params_from(ps: Seq<SV>, k: int, acc: Seq<Symbol>) -> Result<Seq<Symbol>, FormError>
    decreases ps.len() - k,
{
    if k < 0 || k >= ps.len() {
        Ok(acc)
    } else if !(ps[k] is Sym) {
        Err(("lambda 参数必须是符号（不支持解构参数）"@, sv_span(ps[k])))
    } else if acc.contains(ps[k]->Sym_0) {
        Err(("lambda 参数重名（同名形参只允许出现一次）"@, sv_span(ps[k])))
    } else {
        params_from(ps, k + 1, acc.push(ps[k]->Sym_0))
    }
}

/// The parameters of `(lambda (param...) body...)`.
pub open spec fn lambda_form(items: Seq<SV>, span: Span) -> Result<Seq<Symbol>, FormError> {
    if items.len() < 3 {
        Err(("lambda 形式：(lambda (参数...) 体...)"@, span))
    } else if !(items[1] is List) {
        Err(("lambda 参数必须是符号列表"@, sv_span(items[1])))
    } else {
        params_from(items[1]->List_0, 0, Seq::empty())
    }
}

/// The parameters of a `lambda` form whose items are `items`.
pub fn lambda_params(items: &Vec<ScopedStx>, span: Span) -> (r: Result<Vec<Symbol>, ExpandError>)
    ensures
        match lambda_form(svs(items@), span) {
            Ok(ps) => r matches Ok(v) && v@ == ps,
            Err(e) => form_error(r, e),
        },
{
    proof {
        lemma_svs_index(items@);
    }
    if items.len() < 3 {
        return error_at(crate::text::string_of("lambda 形式：(lambda (参数...) 体...)"), span);
    }
    let ps = match &items[1].datum {
        ScopedDatum::List(ps) => ps,
        _ => {
            return error_at(crate::text::string_of("lambda 参数必须是符号列表"), items[1].span);
        },
    };
    proof {
        lemma_svs_index(ps@);
    }
    let ghost pv = svs(ps@);
    let mut params: Vec<Symbol> = Vec::new();
    let mut k: usize = 0;
    while k < ps.len()
        invariant
            k <= ps@.len(),
            pv == svs(ps@),
            pv.len() == ps@.len(),
            forall|q: int| 0 <= q < ps@.len() ==> #[trigger] pv[q] == sv(ps@[q]),
            lambda_form(svs(items@), span) == params_from(pv, k as int, params@),
        decreases ps@.len() - k,
    {
        let s = match &ps[k].datum {
            ScopedDatum::Symbol(s) => *s,
            _ => {
                return error_at(crate::text::string_of("lambda 参数必须是符号（不支持解构参数）"), ps[k].span);
            },
        };
        let mut seen = false;
        let mut j: usize = 0;
        while j < params.len()
            invariant
                j <= params@.len(),
                seen == exists|q: int| 0 <= q < j && params@[q] == s,
            decreases params@.len() - j,
        {
            if params[j] == s {
                seen = true;
            }
            j = j + 1;
        }
        proof {
            assert(seen == params@.contains(s));
        }
        if seen {
            return error_at(crate::text::string_of("lambda 参数重名（同名形参只允许出现一次）"), ps[k].span);
        }
        params.push(s);
        k = k + 1;
    }
    Ok(params)
}

/// The target of `(set! name value)`.
pub open spec fn setbang_form(items: Seq<SV>, span: Span) -> Result<Symbol, FormError> {
    if items.len() != 3 {
        Err(("set! 形式：(set! 名 值)"@, span))
    } else if !(items[1] is Sym) {
        Err(("set! 目标必须是符号"@, sv_span(items[1])))
    } else {
        Ok(items[1]->Sym_0)
    }
}

/// The target of a `set!` form whose items are `items`.
pub fn setbang_target(items: &Vec<ScopedStx>, span: Span) -> (r: Result<Symbol, ExpandError>)
    ensures
        match setbang_form(svs(items@), span) {
            Ok(s) => r == Ok::<Symbol, ExpandError>(s),
            Err(e) => form_error(r, e),
        },
{
    proof {
        lemma_svs_index(items@);
    }
    if items.len() != 3 {
        return error_at(crate::text::string_of("set! 形式：(set! 名 值)"), span);
    }
    match &items[1].datum {
        ScopedDatum::Symbol(s) => Ok(*s),
        _ => error_at(crate::text::string_of("set! 目标必须是符号"), items[1].span),
    }
}

/// The span of file 0 covering nothing.
pub open spec fn no_span() -> Span {
    Span { file_id: 0, start: 0, end: 0, expansion_id: 0 }
}

/// A symbol with no span and no scopes (a keyword the expander inserts).
pub open spec fn keyword_v(k: Symbol) -> SV {
    SV::Sym(k, no_span(), Seq::empty())
}

/// What a `define` form is: the function form rewritten as
/// `(define f (lambda (param...) body...))`, or a value definition of a
/// name.
pub ghost enum DefineV {
    Function(SV),
    Value(Symbol),
}

#[derive(Debug)]
pub enum DefineShape {
    Function(ScopedStx),
    Value(Symbol),
}

pub open spec fn define_shape_v(d: DefineShape) -> DefineV {
    match d {
        DefineShape::Function(s) => DefineV::Function(sv(s)),
        DefineShape::Value(n) => DefineV::Value(n),
    }
}

/// What `(define name value)` or `(define (name param...) body...)` is;
/// `lam` and `def` are the symbols of the `lambda` and `define` keywords.
pub open spec fn define_form(items: Seq<SV>, span: Span, lam: Symbol, def: Symbol) -> Result<DefineV, FormError> {
    if items.len() < 3 {
        Err(("define 形式：(define 名 值) 或 (define (名 参数...) 体...)"@, span))
    } else if items[1] is List {
        let fl = items[1]->List_0;
        if fl.len() > 0 && fl[0] is Sym {
            let lambda = SV::List(
                seq![keyword_v(lam), SV::List(fl.subrange(1, fl.len() as int), span, Seq::empty())]
                    + items.subrange(2, items.len() as int),
                span,
                Seq::empty(),
            );
            Ok(
                DefineV::Function(
                    SV::List(
                        seq![keyword_v(def), SV::Sym(fl[0]->Sym_0, sv_span(items[1]), Seq::empty()), lambda],
                        span,
                        Seq::empty(),
                    ),
                ),
            )
        } else {
            Err(("define 函数糖首元素必须是符号"@, sv_span(items[1])))
        }
    } else if !(items[1] is Sym) {
        Err(("define 目标必须是符号"@, sv_span(items[1])))
    } else if items.len() != 3 {
        Err(("define 值形式必须是单个表达式（函数糖请用 (define (名 参数...) 体...)）"@, span))
    } else {
        Ok(DefineV::Value(items[1]->Sym_0))
    }
}

/// What a `define` form whose items are `items` is.
pub fn define_shape(items: &Vec<ScopedStx>, span: Span, lam: Symbol, def: Symbol) -> (r: Result<
    DefineShape,
    ExpandError,
>)
    ensures
        match define_form(svs(items@), span, lam, def) {
            Ok(d) => r matches Ok(x) && define_shape_v(x) == d,
            Err(e) => form_error(r, e),
        },
{
    proof {
        lemma_svs_index(items@);
    }
    let ghost iv = svs(items@);
    if items.len() < 3 {
        return error_at(
            crate::text::string_of("define 形式：(define 名 值) 或 (define (名 参数...) 体...)"),
            span,
        );
    }
    match &items[1].datum {
        ScopedDatum::List(fl) => {
            proof {
                lemma_svs_index(fl@);
            }
            if fl.len() > 0 {
                match &fl[0].datum {
                    ScopedDatum::Symbol(f) => {
                        let none: Vec<u32> = Vec::new();
                        let mut params: Vec<ScopedStx> = Vec::new();
                        push_copies(fl, 1, &mut params);
                        let plist = list_stx(params, span, &none);
                        let ghost pv = sv(plist);
                        let mut lam_items = one(sym_stx(lam, Span::dummy(), &none));
                        push_one(&mut lam_items, plist);
                        push_copies(items, 2, &mut lam_items);
                        proof {
                            assert(svs(lam_items@) =~= seq![keyword_v(lam), pv] + iv.subrange(2, iv.len() as int));
                        }
                        let lambda = list_stx(lam_items, span, &none);
                        let ghost lv = sv(lambda);
                        let fname = sym_stx(*f, items[1].span, &none);
                        let ghost fv = sv(fname);
                        let mut d_items = one(sym_stx(def, Span::dummy(), &none));
                        push_one(&mut d_items, fname);
                        push_one(&mut d_items, lambda);
                        proof {
                            assert(svs(fl@).subrange(1, fl@.len() as int) =~= svs(fl@).subrange(
                                1,
                                svs(fl@).len() as int,
                            ));
                            assert(svs(d_items@) =~= seq![keyword_v(def), fv, lv]);
                        }
                        return Ok(DefineShape::Function(list_stx(d_items, span, &none)));
                    },
                    _ => {},
                }
            }
            error_at(crate::text::string_of("define 函数糖首元素必须是符号"), items[1].span)
        },
        ScopedDatum::Symbol(n) => {
            if items.len() != 3 {
                return error_at(
                    crate::text::string_of("define 值形式必须是单个表达式（函数糖请用 (define (名 参数...) 体...)）"),
                    span,
                );
            }
            Ok(DefineShape::Value(*n))
        },
        _ => error_at(crate::text::string_of("define 目标必须是符号"), items[1].span),
    }
}

// ---- bodies ----

/// The index of the first form from `k` on that is not a `define`.
pub open spec fn leading_defines(forms: Seq<SV>, def: Symbol, k: int) -> int
    decreases forms.len() - k,
{
    if k < 0 || k >= forms.len() || !headed_by(forms[k], def) {
        k
    } else {
        leading_defines(forms, def, k + 1)
    }
}

/// The name a `define` form defines.
pub open spec fn define_name_v(d: SV) -> Result<Symbol, FormError> {
    if !(d is List) {
        Err(("define 必须是列表"@, sv_span(d)))
    } else if d->List_0.len() < 2 {
        Err(("define 形式不完整"@, sv_span(d)))
    } else {
        let t = d->List_0[1];
        if t is List {
            if t->List_0.len() > 0 && t->List_0[0] is Sym {
                Ok(t->List_0[0]->Sym_0)
            } else {
                Err(("define 函数糖首元素必须是符号"@, sv_span(t)))
            }
        } else if t is Sym {
            Ok(t->Sym_0)
        } else {
            Err(("define 目标必须是符号"@, sv_span(t)))
        }
    }
}

/// The value a `define` form gives its name: the function form's
/// `(lambda (param...) body...)` at the name list's span, or the one value.
pub open spec fn define_value_v(d: SV, lam: Symbol) -> Result<SV, FormError> {
    if !(d is List) {
        Err(("define 必须是列表"@, sv_span(d)))
    } else if d->List_0.len() < 2 {
        Err(("define 形式不完整"@, sv_span(d)))
    } else {
        let items = d->List_0;
        let t = items[1];
        if t is List {
            let fl = t->List_0;
            if !(fl.len() > 0 && fl[0] is Sym) {
                Err(("define 函数糖首元素必须是符号"@, sv_span(t)))
            } else {
                Ok(
                    SV::List(
                        seq![keyword_v(lam), SV::List(fl.subrange(1, fl.len() as int), sv_span(t), Seq::empty())]
                            + items.subrange(2, items.len() as int),
                        sv_span(t),
                        Seq::empty(),
                    ),
                )
            }
        } else if items.len() == 3 {
            Ok(items[2])
        } else {
            Err(("define 值形式必须是单个表达式"@, sv_span(d)))
        }
    }
}

/// The names of the defines `forms[k..n]`, or the first one's error.
pub open spec fn names_from(forms: Seq<SV>, k: int, n: int) -> Result<Seq<Symbol>, FormError>
    decreases n - k,
{
    if k < 0 || k >= n {
        Ok(Seq::empty())
    } else {
        match define_name_v(forms[k]) {
            Err(e) => Err(e),
            Ok(x) => match names_from(forms, k + 1, n) {
                Err(e) => Err(e),
                Ok(rest) => Ok(seq![x] + rest),
            },
        }
    }
}

/// The values of the defines `forms[k..n]`, or the first one's error.
pub open spec fn values_from(forms: Seq<SV>, k: int, n: int, lam: Symbol) -> Result<Seq<SV>, FormError>
    decreases n - k,
{
    if k < 0 || k >= n {
        Ok(Seq::empty())
    } else {
        match define_value_v(forms[k], lam) {
            Err(e) => Err(e),
            Ok(x) => match values_from(forms, k + 1, n, lam) {
                Err(e) => Err(e),
                Ok(rest) => Ok(seq![x] + rest),
            },
        }
    }
}

/// The first `define` from `k` on.
pub open spec fn later_define(forms: Seq<SV>, def: Symbol, k: int) -> Option<FormError>
    decreases forms.len() - k,
{
    if k < 0 || k >= forms.len() {
        None
    } else if headed_by(forms[k], def) {
        Some(("define 必须位于函数体头部（后续 define 不合法）"@, sv_span(forms[k])))
    } else {
        later_define(forms, def, k + 1)
    }
}

/// A body with inner defines at its head, rewritten as
/// `((lambda (name...) (set! name value)... rest...) nil...)`, all at the
/// first form's span; `None` for a body without them.  A `define` after
/// the head is an error.
pub open spec fn body_form(forms: Seq<SV>, def: Symbol, lam: Symbol, setb: Symbol) -> Result<Option<SV>, FormError> {
    let n = leading_defines(forms, def, 0);
    match names_from(forms, 0, n) {
        Err(e) => Err(e),
        Ok(names) => match later_define(forms, def, n) {
            Some(e) => Err(e),
            None => if n == 0 {
                Ok(None)
            } else {
                match values_from(forms, 0, n, lam) {
                    Err(e) => Err(e),
                    Ok(vals) => {
                        let sp = sv_span(forms[0]);
                        let params = SV::List(
                            Seq::new(n as nat, |i: int| SV::Sym(names[i], sp, Seq::empty())),
                            sp,
                            Seq::empty(),
                        );
                        let sets = Seq::new(
                            n as nat,
                            |i: int|
                                SV::List(
                                    seq![
                                        SV::Sym(setb, sv_span(forms[i]), Seq::empty()),
                                        SV::Sym(names[i], sv_span(forms[i]), Seq::empty()),
                                        vals[i],
                                    ],
                                    sv_span(forms[i]),
                                    Seq::empty(),
                                ),
                        );
                        let lambda = SV::List(
                            seq![keyword_v(lam), params] + sets + forms.subrange(n, forms.len() as int),
                            sp,
                            Seq::empty(),
                        );
                        Ok(
                            Some(
                                SV::List(
                                    seq![lambda] + Seq::new(n as nat, |i: int| SV::Lit(LitV::Nil, sp, Seq::empty())),
                                    sp,
                                    Seq::empty(),
                                ),
                            ),
                        )
                    },
                }
            },
        },
    }
}

fn define_name(d: &ScopedStx) -> (r: Result<Symbol, ExpandError>)
    ensures
        match define_name_v(sv(*d)) {
            Ok(x) => r == Ok::<Symbol, ExpandError>(x),
            Err(e) => form_error(r, e),
        },
{
    let items = match &d.datum {
        ScopedDatum::List(items) => items,
        _ => {
            return error_at(crate::text::string_of("define 必须是列表"), d.span);
        },
    };
    proof {
        lemma_svs_index(items@);
    }
    if items.len() < 2 {
        return error_at(crate::text::string_of("define 形式不完整"), d.span);
    }
    match &items[1].datum {
        ScopedDatum::List(fl) => {
            proof {
                lemma_svs_index(fl@);
            }
            if fl.len() > 0 {
                match &fl[0].datum {
                    ScopedDatum::Symbol(f) => {
                        return Ok(*f);
                    },
                    _ => {},
                }
            }
            error_at(crate::text::string_of("define 函数糖首元素必须是符号"), items[1].span)
        },
        ScopedDatum::Symbol(n) => Ok(*n),
        _ => error_at(crate::text::string_of("define 目标必须是符号"), items[1].span),
    }
}

fn define_value_stx(d: &ScopedStx, lam: Symbol) -> (r: Result<ScopedStx, ExpandError>)
    ensures
        match define_value_v(sv(*d), lam) {
            Ok(x) => r matches Ok(v) && sv(v) == x,
            Err(e) => form_error(r, e),
        },
{
    let items = match &d.datum {
        ScopedDatum::List(items) => items,
        _ => {
            return error_at(crate::text::string_of("define 必须是列表"), d.span);
        },
    };
    proof {
        lemma_svs_index(items@);
    }
    let ghost iv = svs(items@);
    if items.len() < 2 {
        return error_at(crate::text::string_of("define 形式不完整"), d.span);
    }
    match &items[1].datum {
        ScopedDatum::List(fl) => {
            proof {
                lemma_svs_index(fl@);
            }
            let is_fn = fl.len() > 0 && match &fl[0].datum {
                ScopedDatum::Symbol(_) => true,
                _ => false,
            };
            if !is_fn {
                return error_at(crate::text::string_of("define 函数糖首元素必须是符号"), items[1].span);
            }
            let none: Vec<u32> = Vec::new();
            let sp = items[1].span;
            let mut params: Vec<ScopedStx> = Vec::new();
            push_copies(fl, 1, &mut params);
            let plist = list_stx(params, sp, &none);
            let ghost pv = sv(plist);
            let mut lam_items = one(sym_stx(lam, Span::dummy(), &none));
            push_one(&mut lam_items, plist);
            push_copies(items, 2, &mut lam_items);
            proof {
                assert(svs(lam_items@) =~= seq![keyword_v(lam), pv] + iv.subrange(2, iv.len() as int));
                assert(svs(fl@).subrange(1, fl@.len() as int) =~= svs(fl@).subrange(1, svs(fl@).len() as int));
            }
            Ok(list_stx(lam_items, sp, &none))
        },
        _ => {
            if items.len() == 3 {
                Ok(copy_stx(&items[2]))
            } else {
                error_at(crate::text::string_of("define 值形式必须是单个表达式"), d.span)
            }
        },
    }
}

fn is_headed(f: &ScopedStx, def: Symbol) -> (b: bool)
    ensures
        b == headed_by(sv(*f), def),
{
    match &f.datum {
        ScopedDatum::List(l) => {
            proof {
                lemma_svs_index(l@);
            }
            l.len() > 0 && match &l[0].datum {
                ScopedDatum::Symbol(h) => *h == def,
                _ => false,
            }
        },
        _ => false,
    }
}

/// `ns` in front of a result's sequence.
pub open spec fn prepend<T>(ns: Seq<T>, r: Result<Seq<T>, FormError>) -> Result<Seq<T>, FormError> {
    match r {
        Ok(rest) => Ok(ns + rest),
        Err(e) => Err(e),
    }
}

proof fn lemma_leading_at_least(forms: Seq<SV>, def: Symbol, k: int)
    requires
        0 <= k <= forms.len(),
    ensures
        k <= leading_defines(forms, def, k) <= forms.len(),
        forall|q: int| k <= q < leading_defines(forms, def, k) ==> #[trigger] headed_by(forms[q], def),
        leading_defines(forms, def, k) < forms.len() ==> !headed_by(forms[leading_defines(forms, def, k)], def),
    decreases forms.len() - k,
{
    if k < forms.len() && headed_by(forms[k], def) {
        lemma_leading_at_least(forms, def, k + 1);
    }
}

proof fn lemma_names_len(forms: Seq<SV>, k: int, n: int)
    requires
        0 <= k <= n,
        names_from(forms, k, n) is Ok,
    ensures
        names_from(forms, k, n)->Ok_0.len() == n - k,
    decreases n - k,
{
    if k < n {
        lemma_names_len(forms, k + 1, n);
    }
}

proof fn lemma_values_len(forms: Seq<SV>, k: int, n: int, lam: Symbol)
    requires
        0 <= k <= n,
        values_from(forms, k, n, lam) is Ok,
    ensures
        values_from(forms, k, n, lam)->Ok_0.len() == n - k,
    decreases n - k,
{
    if k < n {
        lemma_values_len(forms, k + 1, n, lam);
    }
}

/// A body with inner defines at its head rewritten (see `body_form`);
/// `None` when it has none.  `def`, `lam` and `setb` are the symbols of the
/// `define`, `lambda` and `set!` keywords.
pub fn body_rewrite(forms: &Vec<ScopedStx>, def: Symbol, lam: Symbol, setb: Symbol) -> (r: Result<
    Option<ScopedStx>,
    ExpandError,
>)
    ensures
        match body_form(svs(forms@), def, lam, setb) {
            Ok(None) => r matches Ok(None),
            Ok(Some(v)) => r matches Ok(Some(s)) && sv(s) == v,
            Err(e) => form_error(r, e),
        },
{
    proof {
        lemma_svs_index(forms@);
        lemma_leading_at_least(svs(forms@), def, 0);
    }
    let ghost fv = svs(forms@);
    let ghost big_l = leading_defines(fv, def, 0);
    let mut names: Vec<Symbol> = Vec::new();
    let mut n: usize = 0;
    while n < forms.len()
        invariant
            n <= big_l <= forms@.len(),
            fv == svs(forms@),
            fv.len() == forms@.len(),
            forall|q: int| 0 <= q < forms@.len() ==> #[trigger] fv[q] == sv(forms@[q]),
            big_l == leading_defines(fv, def, 0),
            forall|q: int| 0 <= q < big_l ==> #[trigger] headed_by(fv[q], def),
            big_l < fv.len() ==> !headed_by(fv[big_l], def),
            names_from(fv, 0, big_l) == prepend(names@, names_from(fv, n as int, big_l)),
        ensures
            n == big_l,
            names_from(fv, 0, big_l) == prepend(names@, names_from(fv, n as int, big_l)),
        decreases forms@.len() - n,
    {
        if !is_headed(&forms[n], def) {
            break;
        }
        let ghost before = names@;
        match define_name(&forms[n]) {
            Ok(x) => {
                names.push(x);
                proof {
                    assert(before.push(x) =~= before + seq![x]);
                    match names_from(fv, n + 1, big_l) {
                        Ok(rest) => {
                            assert(before + (seq![x] + rest) =~= before.push(x) + rest);
                        },
                        Err(_) => {},
                    }
                }
            },
            Err(e) => {
                return Err(e);
            },
        }
        n = n + 1;
    }
    proof {
        assert(names@ + Seq::<Symbol>::empty() =~= names@);
        lemma_names_len(fv, 0, big_l);
    }
    let mut k: usize = n;
    while k < forms.len()
        invariant
            n <= k <= forms@.len(),
            fv == svs(forms@),
            fv.len() == forms@.len(),
            forall|q: int| 0 <= q < forms@.len() ==> #[trigger] fv[q] == sv(forms@[q]),
            later_define(fv, def, n as int) == later_define(fv, def, k as int),
            n == big_l,
            big_l == leading_defines(fv, def, 0),
            names_from(fv, 0, big_l) == Ok::<Seq<Symbol>, FormError>(names@),
        decreases forms@.len() - k,
    {
        if is_headed(&forms[k], def) {
            return error_at(crate::text::string_of("define 必须位于函数体头部（后续 define 不合法）"), forms[k].span);
        }
        k = k + 1;
    }
    if n == 0 {
        return Ok(None);
    }
    let mut vals: Vec<ScopedStx> = Vec::new();
    let mut j: usize = 0;
    while j < n
        invariant
            j <= n <= forms@.len(),
            n > 0,
            fv == svs(forms@),
            fv.len() == forms@.len(),
            forall|q: int| 0 <= q < forms@.len() ==> #[trigger] fv[q] == sv(forms@[q]),
            values_from(fv, 0, n as int, lam) == prepend(svs(vals@), values_from(fv, j as int, n as int, lam)),
            n == big_l,
            big_l == leading_defines(fv, def, 0),
            names_from(fv, 0, big_l) == Ok::<Seq<Symbol>, FormError>(names@),
            later_define(fv, def, n as int) is None,
        decreases n - j,
    {
        let ghost before = svs(vals@);
        match define_value_stx(&forms[j], lam) {
            Ok(v) => {
                let ghost x = sv(v);
                push_one(&mut vals, v);
                proof {
                    match values_from(fv, j + 1, n as int, lam) {
                        Ok(rest) => {
                            assert(before + (seq![x] + rest) =~= before.push(x) + rest);
                        },
                        Err(_) => {},
                    }
                }
            },
            Err(e) => {
                return Err(e);
            },
        }
        j = j + 1;
    }
    proof {
        assert(svs(vals@) + Seq::<SV>::empty() =~= svs(vals@));
        lemma_svs_index(vals@);
        lemma_values_len(fv, 0, n as int, lam);
    }
    let ghost ns = names@;
    let ghost vs = svs(vals@);
    let none: Vec<u32> = Vec::new();
    let sp = forms[0].span;
    let mut params: Vec<ScopedStx> = Vec::new();
    let mut lam_items = one(sym_stx(lam, Span::dummy(), &none));
    let mut sets: Vec<ScopedStx> = Vec::new();
    let mut nils: Vec<ScopedStx> = Vec::new();
    let mut i: usize = 0;
    while i < n
        invariant
            i <= n <= forms@.len(),
            names@.len() == n,
            vals@.len() == n,
            ns == names@,
            vs == svs(vals@),
            vs.len() == n,
            forall|q: int| 0 <= q < n ==> #[trigger] vs[q] == sv(vals@[q]),
            fv == svs(forms@),
            fv.len() == forms@.len(),
            forall|q: int| 0 <= q < forms@.len() ==> #[trigger] fv[q] == sv(forms@[q]),
            sp == sv_span(fv[0]),
            none@ == Seq::<u32>::empty(),
            svs(params@) == Seq::new(i as nat, |q: int| SV::Sym(ns[q], sp, Seq::empty())),
            svs(sets@) == Seq::new(
                i as nat,
                |q: int|
                    SV::List(
                        seq![
                            SV::Sym(setb, sv_span(fv[q]), Seq::empty()),
                            SV::Sym(ns[q], sv_span(fv[q]), Seq::empty()),
                            vs[q],
                        ],
                        sv_span(fv[q]),
                        Seq::empty(),
                    ),
            ),
            svs(nils@) == Seq::new(i as nat, |q: int| SV::Lit(LitV::Nil, sp, Seq::empty())),
            svs(lam_items@) == seq![keyword_v(lam)],
        decreases n - i,
    {
        let ghost (p0, s0, n0) = (svs(params@), svs(sets@), svs(nils@));
        push_one(&mut params, sym_stx(names[i], sp, &none));
        let fsp = forms[i].span;
        let mut set_items = one(sym_stx(setb, fsp, &none));
        push_one(&mut set_items, sym_stx(names[i], fsp, &none));
        push_one(&mut set_items, copy_stx(&vals[i]));
        proof {
            assert(svs(set_items@) =~= seq![
                SV::Sym(setb, sv_span(fv[i as int]), Seq::empty()),
                SV::Sym(ns[i as int], sv_span(fv[i as int]), Seq::empty()),
                vs[i as int],
            ]);
        }
        push_one(&mut sets, list_stx(set_items, fsp, &none));
        push_one(&mut nils, lit_stx(ScopedLiteral::Nil, sp));
        i = i + 1;
        proof {
            assert(svs(params@) =~= Seq::new(i as nat, |q: int| SV::Sym(ns[q], sp, Seq::empty())));
            assert(svs(nils@) =~= Seq::new(i as nat, |q: int| SV::Lit(LitV::Nil, sp, Seq::empty())));
            assert(svs(sets@) =~= Seq::new(
                i as nat,
                |q: int|
                    SV::List(
                        seq![
                            SV::Sym(setb, sv_span(fv[q]), Seq::empty()),
                            SV::Sym(ns[q], sv_span(fv[q]), Seq::empty()),
                            vs[q],
                        ],
                        sv_span(fv[q]),
                        Seq::empty(),
                    ),
            ));
        }
    }
    let plist = list_stx(params, sp, &none);
    let ghost pv = sv(plist);
    push_one(&mut lam_items, plist);
    let ghost (l0, st, lr, sr) = (svs(lam_items@), svs(sets@), lam_items@, sets@);
    lam_items.append(&mut sets);
    proof {
        crate::sugar::lemma_svs_concat(lr, sr);
    }
    push_copies(forms, n, &mut lam_items);
    proof {
        assert(svs(lam_items@) =~= seq![keyword_v(lam), pv] + st + fv.subrange(n as int, fv.len() as int));
    }
    let lambda = list_stx(lam_items, sp, &none);
    let mut app = one(lambda);
    let ghost (ar, nr) = (app@, nils@);
    app.append(&mut nils);
    proof {
        crate::sugar::lemma_svs_concat(ar, nr);
    }
    Ok(Some(list_stx(app, sp, &none)))
}

// ---- define-syntax ----

/// The name `(define-syntax name (syntax-rules ...))` defines; `rules` is
/// the symbol of the `syntax-rules` keyword.
pub open spec fn define_syntax_form(items: Seq<SV>, span: Span, rules: Symbol) -> Result<Symbol, FormError> {
    if items.len() != 3 {
        Err(("define-syntax 形式：(define-syntax 名 (syntax-rules ...))"@, span))
    } else if !(items[1] is Sym) {
        Err(("define-syntax 名必须是符号"@, sv_span(items[1])))
    } else if !headed_by(items[2], rules) {
        Err(("define-syntax 第二参数必须是 (syntax-rules ...) 形式"@, sv_span(items[2])))
    } else {
        Ok(items[1]->Sym_0)
    }
}

/// The name and rule set of a `define-syntax` form whose items are
/// `items`; a rule set that does not parse is reported at its form.
pub fn define_syntax(items: &Vec<ScopedStx>, span: Span, rules: Symbol) -> (r: Result<(Symbol, SyntaxRules), ExpandError>)
    ensures
        match define_syntax_form(svs(items@), span, rules) {
            Err(e) => form_error(r, e),
            Ok(name) => match parse_rules(svs(items@)[2]) {
                Ok(v) => r matches Ok((n, rs)) && n == name && rs@ == v,
                Err(m) => form_error(r, ("syntax-rules 解析失败："@ + m, sv_span(svs(items@)[2]))),
            },
        },
{
    proof {
        lemma_svs_index(items@);
    }
    if items.len() != 3 {
        return error_at(crate::text::string_of("define-syntax 形式：(define-syntax 名 (syntax-rules ...))"), span);
    }
    let name = match &items[1].datum {
        ScopedDatum::Symbol(n) => *n,
        _ => {
            return error_at(crate::text::string_of("define-syntax 名必须是符号"), items[1].span);
        },
    };
    if !is_headed(&items[2], rules) {
        return error_at(
            crate::text::string_of("define-syntax 第二参数必须是 (syntax-rules ...) 形式"),
            items[2].span,
        );
    }
    match SyntaxRules::parse(&items[2]) {
        Ok(rs) => Ok((name, rs)),
        Err(e) => {
            let mut m = crate::text::string_of("syntax-rules 解析失败：");
            push_str(&mut m, e.as_str());
            error_at(m, items[2].span)
        },
    }
}

} // verus!
