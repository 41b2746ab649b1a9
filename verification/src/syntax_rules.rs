//! `syntax-rules` transformers over scoped syntax: a rule set is read from
//! its form; a macro call is matched against each clause's pattern in
//! turn (literals must match themselves, `_` matches anything, `p ...` at
//! the end of a list matches the remaining items); the first matching
//! clause's template is instantiated with the bindings, and the symbols it
//! introduces are renamed for hygiene.
use vstd::prelude::*;

use crate::heap::{float_bits_eq, float_eq};
use crate::span::{spec_merge, Span};
use crate::sugar::{
    copy_all, copy_scopes, copy_stx, lemma_svs_index, lit_v, push_copies, push_one, sv, sv_scopes,
    sv_span, svs, LitV, ScopedDatum, ScopedLiteral, ScopedStx, SV,
};
use crate::symbol::Symbol;
use crate::text::same_text;

verus! {

/// The symbols the matcher treats specially: the ellipsis `...` and the
/// wildcard `_`.
#[derive(Debug, Clone, Copy)]
pub struct MacroMarkers {
    pub ellipsis: Symbol,
    pub wildcard: Symbol,
}

/// What a pattern variable is bound to: one form, or the forms matched by
/// a trailing ellipsis.
#[derive(Debug)]
pub enum Bound {
    Single(ScopedStx),
    Sequence(Vec<ScopedStx>),
}

pub ghost enum BoundV {
    Single(SV),
    Sequence(Seq<SV>),
}

pub open spec fn bound_v(b: Bound) -> BoundV {
    match b {
        Bound::Single(s) => BoundV::Single(sv(s)),
        Bound::Sequence(v) => BoundV::Sequence(svs(v@)),
    }
}

/// The value of a list of bindings.
pub open spec fn bindings_v(bs: Seq<(Symbol, Bound)>) -> Seq<(Symbol, BoundV)> {
    Seq::new(bs.len(), |i: int| (bs[i].0, bound_v(bs[i].1)))
}

pub open spec fn opt_bindings_v(o: Option<Vec<(Symbol, Bound)>>) -> Option<Seq<(Symbol, BoundV)>> {
    match o {
        Some(v) => Some(bindings_v(v@)),
        None => None,
    }
}

/// `bs` without the bindings of `n`.
pub open spec fn without(bs: Seq<(Symbol, BoundV)>, n: Symbol) -> Seq<(Symbol, BoundV)>
    decreases bs.len(),
{
    if bs.len() == 0 {
        bs
    } else {
        let r = without(bs.drop_last(), n);
        if bs.last().0 == n {
            r
        } else {
            r.push(bs.last())
        }
    }
}

/// `bs` with `n` bound to `b`, replacing an earlier binding of `n`.
pub open spec fn bind(bs: Seq<(Symbol, BoundV)>, n: Symbol, b: BoundV) -> Seq<(Symbol, BoundV)> {
    without(bs, n).push((n, b))
}

/// Equality of literals.
pub open spec fn lit_eq(x: LitV, y: LitV) -> bool {
    match (x, y) {
        (LitV::Int(a), LitV::Int(b)) => a == b,
        (LitV::Float(a), LitV::Float(b)) => float_eq(a, b),
        (LitV::Str(a), LitV::Str(b)) => a == b,
        (LitV::Bool(a), LitV::Bool(b)) => a == b,
        (LitV::Nil, LitV::Nil) => true,
        _ => false,
    }
}

/// Matching one form `a` against the pattern `p`: the extended bindings,
/// or `None`.
pub open spec fn datum_match(p: SV, a: SV, lits: Seq<Symbol>, mk: MacroMarkers, bs: Seq<(Symbol, BoundV)>) -> Option<
    Seq<(Symbol, BoundV)>,
>
    decreases p, 0int, 0int,
{
    match p {
        SV::Sym(s, _, _) => if s == mk.ellipsis {
            None
        } else if s == mk.wildcard {
            Some(bs)
        } else if lits.contains(s) {
            if a is Sym && a->Sym_0 == s {
                Some(bs)
            } else {
                None
            }
        } else {
            Some(bind(bs, s, BoundV::Single(a)))
        },
        SV::Lit(l, _, _) => if a is Lit && lit_eq(a->Lit_0, l) {
            Some(bs)
        } else {
            None
        },
        SV::List(ps, _, _) => if a is List {
            seq_match(ps, a->List_0, lits, mk, bs)
        } else {
            None
        },
        SV::Vector(ps, _, _) => if a is Vector {
            seq_match(ps, a->Vector_0, lits, mk, bs)
        } else {
            None
        },
    }
}

/// The pattern list ends in `p ...`.
pub open spec fn ends_in_ellipsis(ps: Seq<SV>, mk: MacroMarkers) -> bool {
    ps.len() >= 2 && ps.last() is Sym && ps.last()->Sym_0 == mk.ellipsis
}

/// The number of patterns before a trailing `p ...`.
pub open spec fn fixed_count(ps: Seq<SV>, mk: MacroMarkers) -> int {
    if ends_in_ellipsis(ps, mk) {
        ps.len() - 2
    } else {
        ps.len() as int
    }
}

/// Matching the forms `args` against the pattern list `ps`: the fixed
/// patterns one to one, then a trailing `p ...` against the rest (a
/// symbol `p` is bound to the rest as a sequence; another pattern must
/// match each of the rest); without one, the counts must agree.
pub open spec fn seq_match(ps: Seq<SV>, args: Seq<SV>, lits: Seq<Symbol>, mk: MacroMarkers, bs: Seq<(Symbol, BoundV)>) -> Option<
    Seq<(Symbol, BoundV)>,
>
    decreases ps, 3int, 0int,
{
    let nf = fixed_count(ps, mk);
    if args.len() < nf {
        None
    } else {
        match fixed_match(ps, args, 0, nf, lits, mk, bs) {
            None => None,
            Some(b1) => if ends_in_ellipsis(ps, mk) {
                let ep = ps[ps.len() - 2];
                if ep is Sym {
                    Some(bind(b1, ep->Sym_0, BoundV::Sequence(args.subrange(nf, args.len() as int))))
                } else {
                    each_match(ep, args, nf, lits, mk, b1)
                }
            } else if args.len() == nf {
                Some(b1)
            } else {
                None
            },
        }
    }
}

/// A pattern list without a trailing ellipsis matches only a form list of
/// its own length; one with a trailing `p ...` matches only lists with at
/// least its other patterns.
pub proof fn lemma_match_length(
    ps: Seq<SV>,
    args: Seq<SV>,
    lits: Seq<Symbol>,
    mk: MacroMarkers,
    bs: Seq<(Symbol, BoundV)>,
)
    requires
        seq_match(ps, args, lits, mk, bs) is Some,
    ensures
        !(ps.len() >= 2 && ps.last() is Sym && ps.last()->Sym_0 == mk.ellipsis) ==> args.len() == ps.len(),
        (ps.len() >= 2 && ps.last() is Sym && ps.last()->Sym_0 == mk.ellipsis) ==> args.len() >= ps.len() - 2,
{
}

/// What patterns bind: a pattern variable binds the form it meets, last;
/// a trailing `x ...` binds `x` to all the forms after the fixed patterns,
/// last; `_` matches anything and binds nothing; a literal matches only
/// itself; the ellipsis alone matches nothing.
pub proof fn lemma_pattern_bindings(
    p: SV,
    a: SV,
    ps: Seq<SV>,
    args: Seq<SV>,
    lits: Seq<Symbol>,
    mk: MacroMarkers,
    bs: Seq<(Symbol, BoundV)>,
)
    ensures
        (p is Sym && p->Sym_0 != mk.ellipsis && p->Sym_0 != mk.wildcard && !lits.contains(p->Sym_0))
            ==> (datum_match(p, a, lits, mk, bs) matches Some(b) && b.last() == (p->Sym_0, BoundV::Single(a))),
        (p is Sym && p->Sym_0 == mk.wildcard && p->Sym_0 != mk.ellipsis) ==> datum_match(p, a, lits, mk, bs) == Some(bs),
        (p is Sym && p->Sym_0 != mk.ellipsis && p->Sym_0 != mk.wildcard && lits.contains(p->Sym_0)) ==> (
        datum_match(p, a, lits, mk, bs) is Some <==> (a is Sym && a->Sym_0 == p->Sym_0)),
        (p is Sym && p->Sym_0 == mk.ellipsis) ==> datum_match(p, a, lits, mk, bs) is None,
        (ps.len() >= 2 && ps.last() is Sym && ps.last()->Sym_0 == mk.ellipsis && ps[ps.len() - 2] is Sym
            && seq_match(ps, args, lits, mk, bs) is Some) ==> seq_match(ps, args, lits, mk, bs)->Some_0.last()
            == (ps[ps.len() - 2]->Sym_0, BoundV::Sequence(args.subrange(ps.len() - 2, args.len() as int))),
{
}

/// Matching `args[k..end]` against `ps[k..end]`, one to one.
pub open spec fn fixed_match(
    ps: Seq<SV>,
    args: Seq<SV>,
    k: int,
    end: int,
    lits: Seq<Symbol>,
    mk: MacroMarkers,
    bs: Seq<(Symbol, BoundV)>,
) -> Option<Seq<(Symbol, BoundV)>>
    decreases ps, 2int, end - k,
{
    if k < 0 || k >= end || end > ps.len() {
        Some(bs)
    } else {
        match datum_match(ps[k], args[k], lits, mk, bs) {
            None => None,
            Some(b) => fixed_match(ps, args, k + 1, end, lits, mk, b),
        }
    }
}

/// Matching each of `args[k..]` against the pattern `ep`.
pub open spec fn each_match(ep: SV, args: Seq<SV>, k: int, lits: Seq<Symbol>, mk: MacroMarkers, bs: Seq<(Symbol, BoundV)>) -> Option<
    Seq<(Symbol, BoundV)>,
>
    decreases ep, 1int, args.len() - k,
{
    if k < 0 || k >= args.len() {
        Some(bs)
    } else {
        match datum_match(ep, args[k], lits, mk, bs) {
            None => None,
            Some(b) => each_match(ep, args, k + 1, lits, mk, b),
        }
    }
}

// ---- matching ----

fn copy_bound(b: &Bound) -> (r: Bound)
    ensures
        bound_v(r) == bound_v(*b),
{
    match b {
        Bound::Single(s) => Bound::Single(copy_stx(s)),
        Bound::Sequence(v) => Bound::Sequence(copy_all(v)),
    }
}

/// `bs` with `n` bound to `b`, replacing an earlier binding of `n`.
fn bind_exec(bs: Vec<(Symbol, Bound)>, n: Symbol, b: Bound) -> (r: Vec<(Symbol, Bound)>)
    ensures
        bindings_v(r@) == bind(bindings_v(bs@), n, bound_v(b)),
{
    let ghost bv = bindings_v(bs@);
    let mut out: Vec<(Symbol, Bound)> = Vec::new();
    let mut i: usize = 0;
    proof {
        assert(bv.subrange(0, 0) =~= Seq::<(Symbol, BoundV)>::empty());
        assert(bindings_v(out@) =~= without(bv.subrange(0, 0), n));
    }
    while i < bs.len()
        invariant
            i <= bs@.len(),
            bv == bindings_v(bs@),
            bindings_v(out@) == without(bv.subrange(0, i as int), n),
        decreases bs@.len() - i,
    {
        let ghost before = bindings_v(out@);
        proof {
            assert(bv.subrange(0, i + 1).drop_last() =~= bv.subrange(0, i as int));
        }
        if bs[i].0 != n {
            out.push((bs[i].0, copy_bound(&bs[i].1)));
            proof {
                assert(bindings_v(out@) =~= before.push(bv[i as int]));
            }
        }
        i = i + 1;
    }
    proof {
        assert(bv.subrange(0, i as int) =~= bv);
    }
    let ghost before = bindings_v(out@);
    let ghost b_v = bound_v(b);
    out.push((n, b));
    proof {
        assert(bindings_v(out@) =~= before.push((n, b_v)));
    }
    out
}

fn contains_symbol(v: &Vec<Symbol>, s: Symbol) -> (r: bool)
    ensures
        r == v@.contains(s),
{
    let mut i: usize = 0;
    while i < v.len()
        invariant
            i <= v@.len(),
            forall|k: int| 0 <= k < i ==> v@[k] != s,
        decreases v@.len() - i,
    {
        if v[i] == s {
            return true;
        }
        i = i + 1;
    }
    false
}

/// Equality of literals (floats as floats).
fn literal_eq(x: &ScopedLiteral, y: &ScopedLiteral) -> (r: bool)
    ensures
        r == lit_eq(lit_v(*x), lit_v(*y)),
{
    match (x, y) {
        (ScopedLiteral::Int(a), ScopedLiteral::Int(b)) => *a == *b,
        (ScopedLiteral::FloatBits(a), ScopedLiteral::FloatBits(b)) => float_bits_eq(*a, *b),
        (ScopedLiteral::Str(a), ScopedLiteral::Str(b)) => same_text(a.as_str(), b.as_str()),
        (ScopedLiteral::Bool(a), ScopedLiteral::Bool(b)) => *a == *b,
        (ScopedLiteral::Nil, ScopedLiteral::Nil) => true,
        _ => false,
    }
}

/// Matches the form `a` against the pattern `p`, extending `bs`.
pub fn match_datum(p: &ScopedStx, a: &ScopedStx, lits: &Vec<Symbol>, mk: &MacroMarkers, bs: Vec<(Symbol, Bound)>) -> (r:
    Option<Vec<(Symbol, Bound)>>)
    ensures
        opt_bindings_v(r) == datum_match(sv(*p), sv(*a), lits@, *mk, bindings_v(bs@)),
    decreases p,
{
    match &p.datum {
        ScopedDatum::Symbol(s) => {
            if *s == mk.ellipsis {
                None
            } else if *s == mk.wildcard {
                Some(bs)
            } else if contains_symbol(lits, *s) {
                match &a.datum {
                    ScopedDatum::Symbol(t) => if *t == *s {
                        Some(bs)
                    } else {
                        None
                    },
                    _ => None,
                }
            } else {
                Some(bind_exec(bs, *s, Bound::Single(copy_stx(a))))
            }
        },
        ScopedDatum::Literal(l) => match &a.datum {
            ScopedDatum::Literal(al) => if literal_eq(al, l) {
                Some(bs)
            } else {
                None
            },
            _ => None,
        },
        ScopedDatum::List(ps) => match &a.datum {
            ScopedDatum::List(items) => match_sequence(ps, items, lits, mk, bs),
            _ => None,
        },
        ScopedDatum::Vector(ps) => match &a.datum {
            ScopedDatum::Vector(items) => match_sequence(ps, items, lits, mk, bs),
            _ => None,
        },
    }
}

/// Matches the forms `args` against the pattern list `ps`, extending `bs`.
pub fn match_sequence(ps: &Vec<ScopedStx>, args: &Vec<ScopedStx>, lits: &Vec<Symbol>, mk: &MacroMarkers, bs: Vec<
    (Symbol, Bound),
>) -> (r: Option<Vec<(Symbol, Bound)>>)
    ensures
        opt_bindings_v(r) == seq_match(svs(ps@), svs(args@), lits@, *mk, bindings_v(bs@)),
    decreases ps,
{
    proof {
        lemma_svs_index(ps@);
        lemma_svs_index(args@);
    }
    let ghost (pv, av, b0) = (svs(ps@), svs(args@), bindings_v(bs@));
    let n = ps.len();
    let ellipsis = n >= 2 && match &ps[n - 1].datum {
        ScopedDatum::Symbol(s) => *s == mk.ellipsis,
        _ => false,
    };
    let nf = if ellipsis {
        n - 2
    } else {
        n
    };
    assert(ellipsis == ends_in_ellipsis(pv, *mk));
    assert(nf == fixed_count(pv, *mk));
    if args.len() < nf {
        return None;
    }
    let mut cur = bs;
    let mut k: usize = 0;
    while k < nf
        invariant
            nf <= n == ps@.len(),
            nf <= args@.len(),
            k <= nf,
            nf == fixed_count(pv, *mk),
            ellipsis == ends_in_ellipsis(pv, *mk),
            b0 == bindings_v(bs@),
            pv == svs(ps@),
            av == svs(args@),
            pv.len() == ps@.len(),
            av.len() == args@.len(),
            forall|i: int| 0 <= i < ps@.len() ==> #[trigger] pv[i] == sv(ps@[i]),
            forall|i: int| 0 <= i < args@.len() ==> #[trigger] av[i] == sv(args@[i]),
            fixed_match(pv, av, 0, nf as int, lits@, *mk, b0) == fixed_match(
                pv,
                av,
                k as int,
                nf as int,
                lits@,
                *mk,
                bindings_v(cur@),
            ),
        decreases nf - k,
    {
        let ghost bc = bindings_v(cur@);
        cur = match match_datum(&ps[k], &args[k], lits, mk, cur) {
            None => {
                proof {
                    assert(fixed_match(pv, av, k as int, nf as int, lits@, *mk, bc) is None);
                }
                return None;
            },
            Some(b) => b,
        };
        k = k + 1;
    }
    if ellipsis {
        let ep = &ps[n - 2];
        match &ep.datum {
            ScopedDatum::Symbol(v) => {
                let mut rest: Vec<ScopedStx> = Vec::new();
                push_copies(args, nf, &mut rest);
                proof {
                    assert(svs(rest@) =~= av.subrange(nf as int, av.len() as int));
                }
                return Some(bind_exec(cur, *v, Bound::Sequence(rest)));
            },
            _ => {},
        }
        let ghost b1 = bindings_v(cur@);
        assert(fixed_match(pv, av, nf as int, nf as int, lits@, *mk, b1) == Some(b1));
        let mut j = nf;
        while j < args.len()
            invariant
                nf <= j <= args@.len(),
                n == ps@.len(),
                n >= 2,
                pv == svs(ps@),
                pv.len() == ps@.len(),
                sv(*ep) == pv[n - 2],
                !(pv[n - 2] is Sym),
                nf == fixed_count(pv, *mk),
                ends_in_ellipsis(pv, *mk),
                b0 == bindings_v(bs@),
                fixed_match(pv, av, 0, nf as int, lits@, *mk, b0) == Some(b1),
                forall|i: int| 0 <= i < ps@.len() ==> #[trigger] pv[i] == sv(ps@[i]),
                av == svs(args@),
                av.len() == args@.len(),
                forall|i: int| 0 <= i < args@.len() ==> #[trigger] av[i] == sv(args@[i]),
                each_match(sv(*ep), av, nf as int, lits@, *mk, b1) == each_match(
                    sv(*ep),
                    av,
                    j as int,
                    lits@,
                    *mk,
                    bindings_v(cur@),
                ),
            decreases args@.len() - j,
        {
            let ghost bc = bindings_v(cur@);
            cur = match match_datum(&ps[n - 2], &args[j], lits, mk, cur) {
                None => {
                    proof {
                        assert(each_match(sv(*ep), av, j as int, lits@, *mk, bc) is None);
                    }
                    return None;
                },
                Some(b) => b,
            };
            j = j + 1;
        }
        Some(cur)
    } else if args.len() == nf {
        Some(cur)
    } else {
        None
    }
}

// ---- instantiation ----

/// The binding of `s` in `bs`, the first from `k` on.
pub open spec fn lookup(bs: Seq<(Symbol, BoundV)>, s: Symbol, k: int) -> Option<BoundV>
    decreases bs.len() - k,
{
    if k < 0 || k >= bs.len() {
        None
    } else if bs[k].0 == s {
        Some(bs[k].1)
    } else {
        lookup(bs, s, k + 1)
    }
}

/// The new name of `s` in the renaming `ren` (the first from `k` on), or
/// `s` itself.
pub open spec fn renamed(ren: Seq<(Symbol, Symbol)>, s: Symbol, k: int) -> Symbol
    decreases ren.len() - k,
{
    if k < 0 || k >= ren.len() {
        s
    } else if ren[k].0 == s {
        ren[k].1
    } else {
        renamed(ren, s, k + 1)
    }
}

/// `items[i] ...` where `items[i]` is bound to a sequence.
pub open spec fn splices(items: Seq<SV>, i: int, bs: Seq<(Symbol, BoundV)>, mk: MacroMarkers) -> bool {
    &&& 0 <= i
    &&& i + 1 < items.len()
    &&& items[i + 1] is Sym
    &&& items[i + 1]->Sym_0 == mk.ellipsis
    &&& items[i] is Sym
    &&& lookup(bs, items[i]->Sym_0, 0) matches Some(BoundV::Sequence(_))
}

/// The sequence `items[i]` is bound to.
pub open spec fn spliced(items: Seq<SV>, i: int, bs: Seq<(Symbol, BoundV)>) -> Seq<SV> {
    match lookup(bs, items[i]->Sym_0, 0) {
        Some(BoundV::Sequence(q)) => q,
        _ => Seq::empty(),
    }
}

/// The span of an instantiated list: its items' spans merged in order,
/// starting from the first; the template's span when it is empty.
pub open spec fn merged_from(out: Seq<SV>, k: int, acc: Span) -> Span
    decreases out.len() - k,
{
    if k < 0 || k >= out.len() {
        acc
    } else {
        merged_from(out, k + 1, spec_merge(acc, sv_span(out[k])))
    }
}

pub open spec fn list_span(out: Seq<SV>, sp: Span) -> Span {
    if out.len() == 0 {
        sp
    } else {
        merged_from(out, 0, sv_span(out[0]))
    }
}

/// A template instantiated: a pattern variable bound to one form becomes
/// that form; one bound to a sequence stays (outside `v ...`); a symbol in
/// `keep` stays; any other symbol is renamed by `ren`, keeping its span
/// and scopes; lists and vectors are instantiated item by item.
pub open spec fn inst(
    t: SV,
    bs: Seq<(Symbol, BoundV)>,
    keep: Seq<Symbol>,
    ren: Seq<(Symbol, Symbol)>,
    mk: MacroMarkers,
) -> SV
    decreases t, 1int, 0int,
{
    match t {
        SV::Sym(s, sp, sc) => match lookup(bs, s, 0) {
            Some(BoundV::Single(v)) => v,
            Some(BoundV::Sequence(_)) => t,
            None => if keep.contains(s) {
                t
            } else {
                SV::Sym(renamed(ren, s, 0), sp, sc)
            },
        },
        SV::Lit(_, _, _) => t,
        SV::List(items, sp, sc) => {
            let out = inst_items(items, 0, bs, keep, ren, mk);
            SV::List(out, list_span(out, sp), sc)
        },
        SV::Vector(items, sp, sc) => {
            let out = inst_items(items, 0, bs, keep, ren, mk);
            SV::Vector(out, list_span(out, sp), sc)
        },
    }
}

/// The items from `i` on, instantiated; `v ...` with `v` bound to a
/// sequence becomes the sequence's forms.
pub open spec fn inst_items(
    items: Seq<SV>,
    i: int,
    bs: Seq<(Symbol, BoundV)>,
    keep: Seq<Symbol>,
    ren: Seq<(Symbol, Symbol)>,
    mk: MacroMarkers,
) -> Seq<SV>
    decreases items, 0int, items.len() - i,
{
    if i < 0 || i >= items.len() {
        Seq::empty()
    } else if splices(items, i, bs, mk) {
        spliced(items, i, bs) + inst_items(items, i + 2, bs, keep, ren, mk)
    } else {
        seq![inst(items[i], bs, keep, ren, mk)] + inst_items(items, i + 1, bs, keep, ren, mk)
    }
}

/// The symbols the template introduces, in the order instantiation meets
/// them (with repeats): those neither bound nor kept.
pub open spec fn intro(t: SV, bs: Seq<(Symbol, BoundV)>, keep: Seq<Symbol>, mk: MacroMarkers) -> Seq<Symbol>
    decreases t, 1int, 0int,
{
    match t {
        SV::Sym(s, _, _) => if lookup(bs, s, 0) is None && !keep.contains(s) {
            seq![s]
        } else {
            Seq::empty()
        },
        SV::Lit(_, _, _) => Seq::empty(),
        SV::List(items, _, _) => intro_items(items, 0, bs, keep, mk),
        SV::Vector(items, _, _) => intro_items(items, 0, bs, keep, mk),
    }
}

pub open spec fn intro_items(items: Seq<SV>, i: int, bs: Seq<(Symbol, BoundV)>, keep: Seq<Symbol>, mk: MacroMarkers) -> Seq<
    Symbol,
>
    decreases items, 0int, items.len() - i,
{
    if i < 0 || i >= items.len() {
        Seq::empty()
    } else if splices(items, i, bs, mk) {
        intro_items(items, i + 2, bs, keep, mk)
    } else {
        intro(items[i], bs, keep, mk) + intro_items(items, i + 1, bs, keep, mk)
    }
}

/// The index of the binding of `s`, if any.
fn lookup_index(bs: &Vec<(Symbol, Bound)>, s: Symbol) -> (r: Option<usize>)
    ensures
        match r {
            Some(k) => k < bs@.len() && lookup(bindings_v(bs@), s, 0) == Some(bound_v(bs@[k as int].1)),
            None => lookup(bindings_v(bs@), s, 0) is None,
        },
{
    let ghost bv = bindings_v(bs@);
    let mut k: usize = 0;
    while k < bs.len()
        invariant
            k <= bs@.len(),
            bv == bindings_v(bs@),
            lookup(bv, s, 0) == lookup(bv, s, k as int),
        decreases bs@.len() - k,
    {
        if bs[k].0 == s {
            return Some(k);
        }
        k = k + 1;
    }
    None
}

fn renamed_exec(ren: &Vec<(Symbol, Symbol)>, s: Symbol) -> (r: Symbol)
    ensures
        r == renamed(ren@, s, 0),
{
    let mut k: usize = 0;
    while k < ren.len()
        invariant
            k <= ren@.len(),
            renamed(ren@, s, 0) == renamed(ren@, s, k as int),
        decreases ren@.len() - k,
    {
        if ren[k].0 == s {
            return ren[k].1;
        }
        k = k + 1;
    }
    s
}

/// Whether `items[i] ...` splices a sequence, and its binding's index.
fn splice_at(items: &Vec<ScopedStx>, i: usize, bs: &Vec<(Symbol, Bound)>, mk: &MacroMarkers) -> (r: Option<
    usize,
>)
    requires
        i < items@.len(),
    ensures
        match r {
            Some(k) => k < bs@.len() && splices(svs(items@), i as int, bindings_v(bs@), *mk)
                && bs@[k as int].1 is Sequence && spliced(svs(items@), i as int, bindings_v(bs@))
                == svs(bs@[k as int].1->Sequence_0@),
            None => !splices(svs(items@), i as int, bindings_v(bs@), *mk),
        },
{
    proof {
        lemma_svs_index(items@);
    }
    if items.len() - i <= 1 {
        return None;
    }
    let next_is_ellipsis = match &items[i + 1].datum {
        ScopedDatum::Symbol(e) => *e == mk.ellipsis,
        _ => false,
    };
    if !next_is_ellipsis {
        return None;
    }
    match &items[i].datum {
        ScopedDatum::Symbol(v) => match lookup_index(bs, *v) {
            Some(k) => match &bs[k].1 {
                Bound::Sequence(_) => Some(k),
                _ => None,
            },
            None => None,
        },
        _ => None,
    }
}

fn list_span_exec(out: &Vec<ScopedStx>, sp: Span) -> (r: Span)
    ensures
        r == list_span(svs(out@), sp),
{
    proof {
        lemma_svs_index(out@);
    }
    if out.len() == 0 {
        return sp;
    }
    let ghost ov = svs(out@);
    let mut acc = out[0].span;
    let mut k: usize = 0;
    while k < out.len()
        invariant
            k <= out@.len(),
            ov == svs(out@),
            ov.len() == out@.len(),
            forall|i: int| 0 <= i < out@.len() ==> #[trigger] ov[i] == sv(out@[i]),
            merged_from(ov, 0, sv_span(ov[0])) == merged_from(ov, k as int, acc),
        decreases out@.len() - k,
    {
        acc = acc.merge(out[k].span);
        k = k + 1;
    }
    acc
}

/// Instantiates the template `t`.
pub fn instantiate_template(
    t: &ScopedStx,
    bs: &Vec<(Symbol, Bound)>,
    keep: &Vec<Symbol>,
    ren: &Vec<(Symbol, Symbol)>,
    mk: &MacroMarkers,
) -> (r: ScopedStx)
    ensures
        sv(r) == inst(sv(*t), bindings_v(bs@), keep@, ren@, *mk),
    decreases t,
{
    match &t.datum {
        ScopedDatum::Symbol(s) => match lookup_index(bs, *s) {
            Some(k) => match &bs[k].1 {
                Bound::Single(v) => copy_stx(v),
                Bound::Sequence(_) => copy_stx(t),
            },
            None => if contains_symbol(keep, *s) {
                copy_stx(t)
            } else {
                ScopedStx {
                    datum: ScopedDatum::Symbol(renamed_exec(ren, *s)),
                    span: t.span,
                    scopes: copy_scopes(&t.scopes),
                }
            },
        },
        ScopedDatum::Literal(_) => copy_stx(t),
        ScopedDatum::List(items) => {
            let out = instantiate_items(items, bs, keep, ren, mk);
            let span = list_span_exec(&out, t.span);
            ScopedStx { datum: ScopedDatum::List(out), span, scopes: copy_scopes(&t.scopes) }
        },
        ScopedDatum::Vector(items) => {
            let out = instantiate_items(items, bs, keep, ren, mk);
            let span = list_span_exec(&out, t.span);
            ScopedStx { datum: ScopedDatum::Vector(out), span, scopes: copy_scopes(&t.scopes) }
        },
    }
}

/// Instantiates the items of a template list.
pub fn instantiate_items(
    items: &Vec<ScopedStx>,
    bs: &Vec<(Symbol, Bound)>,
    keep: &Vec<Symbol>,
    ren: &Vec<(Symbol, Symbol)>,
    mk: &MacroMarkers,
) -> (r: Vec<ScopedStx>)
    ensures
        svs(r@) == inst_items(svs(items@), 0, bindings_v(bs@), keep@, ren@, *mk),
    decreases items,
{
    proof {
        lemma_svs_index(items@);
    }
    let ghost (iv, bv) = (svs(items@), bindings_v(bs@));
    let mut out: Vec<ScopedStx> = Vec::new();
    let mut i: usize = 0;
    while i < items.len()
        invariant
            i <= items@.len() + 1,
            iv == svs(items@),
            bv == bindings_v(bs@),
            iv.len() == items@.len(),
            forall|k: int| 0 <= k < items@.len() ==> #[trigger] iv[k] == sv(items@[k]),
            svs(out@) + inst_items(iv, i as int, bv, keep@, ren@, *mk) == inst_items(
                iv,
                0,
                bv,
                keep@,
                ren@,
                *mk,
            ),
        decreases items@.len() + 1 - i,
    {
        let ghost before = svs(out@);
        match splice_at(items, i, bs, mk) {
            Some(k) => {
                match &bs[k].1 {
                    Bound::Sequence(q) => {
                        push_copies(q, 0, &mut out);
                        proof {
                            lemma_svs_index(q@);
                            assert(svs(q@).subrange(0, q@.len() as int) =~= svs(q@));
                            assert(splices(iv, i as int, bv, *mk));
                            assert(spliced(iv, i as int, bv) == svs(q@));
                            assert(inst_items(iv, i as int, bv, keep@, ren@, *mk) == spliced(iv, i as int, bv)
                                + inst_items(iv, i + 2, bv, keep@, ren@, *mk));
                            assert(svs(out@) == before + svs(q@));
                            assert(svs(out@) + inst_items(iv, i + 2, bv, keep@, ren@, *mk) =~= before
                                + inst_items(iv, i as int, bv, keep@, ren@, *mk));
                        }
                    },
                    Bound::Single(_) => {},
                }
                i = i + 2;
            },
            None => {
                let x = instantiate_template(&items[i], bs, keep, ren, mk);
                push_one(&mut out, x);
                proof {
                    assert(svs(out@) + inst_items(iv, i + 1, bv, keep@, ren@, *mk) =~= before
                        + inst_items(iv, i as int, bv, keep@, ren@, *mk));
                }
                i = i + 1;
            },
        }
    }
    proof {
        assert(svs(out@) =~= svs(out@) + inst_items(iv, i as int, bv, keep@, ren@, *mk));
    }
    out
}

fn collect_intro(t: &ScopedStx, bs: &Vec<(Symbol, Bound)>, keep: &Vec<Symbol>, mk: &MacroMarkers, out: &mut Vec<Symbol>)
    ensures
        final(out)@ == old(out)@ + intro(sv(*t), bindings_v(bs@), keep@, *mk),
    decreases t,
{
    match &t.datum {
        ScopedDatum::Symbol(s) => {
            let ghost before = out@;
            if lookup_index(bs, *s).is_none() && !contains_symbol(keep, *s) {
                out.push(*s);
            }
            proof {
                assert(out@ =~= before + intro(sv(*t), bindings_v(bs@), keep@, *mk));
            }
        },
        ScopedDatum::Literal(_) => {
            proof {
                assert(out@ =~= out@ + intro(sv(*t), bindings_v(bs@), keep@, *mk));
            }
        },
        ScopedDatum::List(items) => collect_intro_items(items, bs, keep, mk, out),
        ScopedDatum::Vector(items) => collect_intro_items(items, bs, keep, mk, out),
    }
}

fn collect_intro_items(
    items: &Vec<ScopedStx>,
    bs: &Vec<(Symbol, Bound)>,
    keep: &Vec<Symbol>,
    mk: &MacroMarkers,
    out: &mut Vec<Symbol>,
)
    ensures
        final(out)@ == old(out)@ + intro_items(svs(items@), 0, bindings_v(bs@), keep@, *mk),
    decreases items,
{
    proof {
        lemma_svs_index(items@);
    }
    let ghost (iv, bv, o0) = (svs(items@), bindings_v(bs@), out@);
    let mut i: usize = 0;
    while i < items.len()
        invariant
            i <= items@.len() + 1,
            iv == svs(items@),
            bv == bindings_v(bs@),
            iv.len() == items@.len(),
            forall|k: int| 0 <= k < items@.len() ==> #[trigger] iv[k] == sv(items@[k]),
            out@ + intro_items(iv, i as int, bv, keep@, *mk) == o0 + intro_items(iv, 0, bv, keep@, *mk),
        decreases items@.len() + 1 - i,
    {
        let ghost before = out@;
        match splice_at(items, i, bs, mk) {
            Some(_) => {
                i = i + 2;
            },
            None => {
                collect_intro(&items[i], bs, keep, mk, out);
                proof {
                    assert(out@ + intro_items(iv, i + 1, bv, keep@, *mk) =~= before + intro_items(
                        iv,
                        i as int,
                        bv,
                        keep@,
                        *mk,
                    ));
                }
                i = i + 1;
            },
        }
    }
    proof {
        assert(out@ =~= out@ + intro_items(iv, i as int, bv, keep@, *mk));
    }
}

/// The symbols the template `t` introduces, in the order instantiation
/// meets them, with repeats; the caller gives each its fresh name.
pub fn introduced_symbols(t: &ScopedStx, bs: &Vec<(Symbol, Bound)>, keep: &Vec<Symbol>, mk: &MacroMarkers) -> (r:
    Vec<Symbol>)
    ensures
        r@ == intro(sv(*t), bindings_v(bs@), keep@, *mk),
{
    let mut out: Vec<Symbol> = Vec::new();
    collect_intro(t, bs, keep, mk, &mut out);
    proof {
        assert(out@ =~= intro(sv(*t), bindings_v(bs@), keep@, *mk));
    }
    out
}

/// Every symbol occurrence of `t`, in pre-order.
pub open spec fn symbols_in(t: SV) -> Seq<Symbol>
    decreases t, 1int, 0int,
{
    match t {
        SV::Sym(s, _, _) => seq![s],
        SV::Lit(_, _, _) => Seq::empty(),
        SV::List(items, _, _) => symbols_in_all(items, 0),
        SV::Vector(items, _, _) => symbols_in_all(items, 0),
    }
}

pub open spec fn symbols_in_all(items: Seq<SV>, i: int) -> Seq<Symbol>
    decreases items, 0int, items.len() - i,
{
    if i < 0 || i >= items.len() {
        Seq::empty()
    } else {
        symbols_in(items[i]) + symbols_in_all(items, i + 1)
    }
}

fn collect_symbols(t: &ScopedStx, out: &mut Vec<Symbol>)
    ensures
        final(out)@ == old(out)@ + symbols_in(sv(*t)),
    decreases t,
{
    match &t.datum {
        ScopedDatum::Symbol(s) => {
            let ghost before = out@;
            out.push(*s);
            proof {
                assert(out@ =~= before + symbols_in(sv(*t)));
            }
        },
        ScopedDatum::Literal(_) => {
            proof {
                assert(out@ =~= out@ + symbols_in(sv(*t)));
            }
        },
        ScopedDatum::List(items) => collect_symbols_all(items, out),
        ScopedDatum::Vector(items) => collect_symbols_all(items, out),
    }
}

fn collect_symbols_all(items: &Vec<ScopedStx>, out: &mut Vec<Symbol>)
    ensures
        final(out)@ == old(out)@ + symbols_in_all(svs(items@), 0),
    decreases items,
{
    proof {
        lemma_svs_index(items@);
    }
    let ghost (iv, o0) = (svs(items@), out@);
    let mut i: usize = 0;
    while i < items.len()
        invariant
            i <= items@.len(),
            iv == svs(items@),
            iv.len() == items@.len(),
            forall|k: int| 0 <= k < items@.len() ==> #[trigger] iv[k] == sv(items@[k]),
            out@ + symbols_in_all(iv, i as int) == o0 + symbols_in_all(iv, 0),
        decreases items@.len() - i,
    {
        let ghost before = out@;
        collect_symbols(&items[i], out);
        proof {
            assert(out@ + symbols_in_all(iv, i + 1) =~= before + symbols_in_all(iv, i as int));
        }
        i = i + 1;
    }
    proof {
        assert(out@ =~= out@ + symbols_in_all(iv, i as int));
    }
}

/// Every symbol occurrence of `t`, in pre-order (the caller picks those to
/// keep unrenamed).
pub fn symbols_of(t: &ScopedStx) -> (r: Vec<Symbol>)
    ensures
        r@ == symbols_in(sv(*t)),
{
    let mut out: Vec<Symbol> = Vec::new();
    collect_symbols(t, &mut out);
    proof {
        assert(out@ =~= symbols_in(sv(*t)));
    }
    out
}

// ---- rule sets ----

/// A `syntax-rules` rule set: its literals, its (pattern, template)
/// clauses, and the scopes of its definition.
#[derive(Debug)]
pub struct SyntaxRules {
    literals: Vec<Symbol>,
    clauses: Vec<(ScopedStx, ScopedStx)>,
    def_scopes: Vec<u32>,
}

pub ghost struct RulesV {
    pub literals: Seq<Symbol>,
    pub clauses: Seq<(SV, SV)>,
    pub def_scopes: Seq<u32>,
}

impl View for SyntaxRules {
    type V = RulesV;

    closed spec fn view(&self) -> RulesV {
        RulesV {
            literals: self.literals@,
            clauses: Seq::new(self.clauses@.len(), |i: int| (sv(self.clauses@[i].0), sv(self.clauses@[i].1))),
            def_scopes: self.def_scopes@,
        }
    }
}

/// A clause is a list of a pattern and a template.
pub open spec fn clause_ok(c: SV) -> bool {
    c is List && c->List_0.len() == 2
}

/// The rule set a `(syntax-rules (literal...) (pattern template)...)` form
/// declares, or why it declares none.
pub open spec fn parse_rules(f: SV) -> Result<RulesV, Seq<char>> {
    if !(f is List) {
        Err("syntax-rules 必须是列表"@)
    } else {
        let items = f->List_0;
        if items.len() < 2 {
            Err("syntax-rules 缺少参数（至少需要字面量集合与一个子句）"@)
        } else if !(items[0] is Sym) {
            Err("syntax-rules 首元素必须是符号"@)
        } else if !(items[1] is List) {
            Err("syntax-rules 第二元素必须是字面量列表"@)
        } else if exists|i: int| 0 <= i < items[1]->List_0.len() && !(#[trigger] items[1]->List_0[i] is Sym) {
            Err("syntax-rules 字面量必须是符号"@)
        } else if exists|i: int| 2 <= i < items.len() && !clause_ok(#[trigger] items[i]) {
            Err("syntax-rules 子句必须是 (pattern template) 二元列表"@)
        } else if items.len() == 2 {
            Err("syntax-rules 至少需要一个子句"@)
        } else {
            let lits = items[1]->List_0;
            Ok(
                RulesV {
                    literals: Seq::new(lits.len(), |i: int| lits[i]->Sym_0),
                    clauses: Seq::new(
                        (items.len() - 2) as nat,
                        |i: int| (items[i + 2]->List_0[0], items[i + 2]->List_0[1]),
                    ),
                    def_scopes: sv_scopes(f),
                },
            )
        }
    }
}

/// Matching a call's arguments against a clause's pattern `(keyword p...)`
/// (the keyword position is not matched), from no bindings.
pub open spec fn clause_match(pat: SV, args: Seq<SV>, lits: Seq<Symbol>, mk: MacroMarkers) -> Option<
    Seq<(Symbol, BoundV)>,
> {
    if pat is List {
        let ps = pat->List_0;
        let from = if ps.len() >= 1 {
            1int
        } else {
            0int
        };
        seq_match(ps.subrange(from, ps.len() as int), args, lits, mk, Seq::empty())
    } else {
        None
    }
}

/// The first clause from `k` on whose pattern matches, and its bindings.
pub open spec fn first_match(cl: Seq<(SV, SV)>, k: int, args: Seq<SV>, lits: Seq<Symbol>, mk: MacroMarkers) -> Option<
    (int, Seq<(Symbol, BoundV)>),
>
    decreases cl.len() - k,
{
    if k < 0 || k >= cl.len() {
        None
    } else {
        match clause_match(cl[k].0, args, lits, mk) {
            Some(b) => Some((k, b)),
            None => first_match(cl, k + 1, args, lits, mk),
        }
    }
}

fn message_of(m: &str) -> (r: Result<SyntaxRules, String>)
    ensures
        r matches Err(e) && e@ == m@,
{
    Err(crate::text::string_of(m))
}

impl SyntaxRules {
    /// Reads a rule set from its `syntax-rules` form.
    pub fn parse(form: &ScopedStx) -> (r: Result<SyntaxRules, String>)
        ensures
            match parse_rules(sv(*form)) {
                Ok(v) => r matches Ok(rules) && rules@ == v,
                Err(m) => r matches Err(e) && e@ == m,
            },
    {
        let items = match &form.datum {
            ScopedDatum::List(items) => items,
            _ => {
                return message_of("syntax-rules 必须是列表");
            },
        };
        proof {
            lemma_svs_index(items@);
        }
        let ghost iv = svs(items@);
        if items.len() < 2 {
            return message_of("syntax-rules 缺少参数（至少需要字面量集合与一个子句）");
        }
        match &items[0].datum {
            ScopedDatum::Symbol(_) => {},
            _ => {
                return message_of("syntax-rules 首元素必须是符号");
            },
        }
        let lit_forms = match &items[1].datum {
            ScopedDatum::List(l) => l,
            _ => {
                return message_of("syntax-rules 第二元素必须是字面量列表");
            },
        };
        proof {
            lemma_svs_index(lit_forms@);
        }
        let ghost lv = svs(lit_forms@);
        let mut literals: Vec<Symbol> = Vec::new();
        let mut i: usize = 0;
        while i < lit_forms.len()
            invariant
                i <= lit_forms@.len(),
                sv(*form) == SV::List(iv, form.span, form.scopes@),
                iv.len() >= 2,
                iv[0] is Sym,
                iv[1] is List && iv[1]->List_0 == lv,
                lv == svs(lit_forms@),
                lv.len() == lit_forms@.len(),
                forall|k: int| 0 <= k < lit_forms@.len() ==> #[trigger] lv[k] == sv(lit_forms@[k]),
                literals@.len() == i,
                forall|k: int| 0 <= k < i ==> lv[k] is Sym && literals@[k] == (#[trigger] lv[k])->Sym_0,
            decreases lit_forms@.len() - i,
        {
            match &lit_forms[i].datum {
                ScopedDatum::Symbol(s) => literals.push(*s),
                _ => {
                    proof {
                        assert(!(lv[i as int] is Sym));
                    }
                    return message_of("syntax-rules 字面量必须是符号");
                },
            }
            i = i + 1;
        }
        let mut clauses: Vec<(ScopedStx, ScopedStx)> = Vec::new();
        let mut j: usize = 2;
        while j < items.len()
            invariant
                2 <= j <= items@.len(),
                sv(*form) == SV::List(iv, form.span, form.scopes@),
                iv[0] is Sym,
                iv[1] is List && iv[1]->List_0 == lv,
                lv.len() == lit_forms@.len(),
                literals@.len() == lv.len(),
                forall|k: int| 0 <= k < lv.len() ==> lv[k] is Sym && literals@[k] == (#[trigger] lv[k])->Sym_0,
                iv == svs(items@),
                iv.len() == items@.len(),
                forall|k: int| 0 <= k < items@.len() ==> #[trigger] iv[k] == sv(items@[k]),
                clauses@.len() == j - 2,
                forall|k: int| 2 <= k < j ==> clause_ok(#[trigger] iv[k]),
                forall|k: int|
                    0 <= k < j - 2 ==> sv((#[trigger] clauses@[k]).0) == iv[k + 2]->List_0[0] && sv(
                        clauses@[k].1,
                    ) == iv[k + 2]->List_0[1],
            decreases items@.len() - j,
        {
            let pair = match &items[j].datum {
                ScopedDatum::List(p) => p,
                _ => {
                    proof {
                        assert(!clause_ok(iv[j as int]));
                    }
                    return message_of("syntax-rules 子句必须是 (pattern template) 二元列表");
                },
            };
            proof {
                lemma_svs_index(pair@);
            }
            if pair.len() != 2 {
                proof {
                    assert(!clause_ok(iv[j as int]));
                }
                return message_of("syntax-rules 子句必须是 (pattern template) 二元列表");
            }
            clauses.push((copy_stx(&pair[0]), copy_stx(&pair[1])));
            j = j + 1;
        }
        if clauses.len() == 0 {
            return message_of("syntax-rules 至少需要一个子句");
        }
        let rules = SyntaxRules { literals, clauses, def_scopes: copy_scopes(&form.scopes) };
        proof {
            let v = parse_rules(sv(*form));
            assert(v matches Ok(x) && rules@.literals =~= x.literals && rules@.clauses =~= x.clauses);
        }
        Ok(rules)
    }

    /// The first clause whose pattern the call's arguments match, with the
    /// bindings made.
    pub fn match_call(&self, args: &Vec<ScopedStx>, mk: &MacroMarkers) -> (r: Option<(usize, Vec<(Symbol, Bound)>)>)
        ensures
            match first_match(self@.clauses, 0, svs(args@), self@.literals, *mk) {
                Some((k, b)) => r matches Some((i, v)) && i == k && bindings_v(v@) == b,
                None => r is None,
            },
    {
        let ghost cv = self@.clauses;
        let mut k: usize = 0;
        while k < self.clauses.len()
            invariant
                k <= self.clauses@.len(),
                cv == self@.clauses,
                cv.len() == self.clauses@.len(),
                first_match(cv, 0, svs(args@), self@.literals, *mk) == first_match(
                    cv,
                    k as int,
                    svs(args@),
                    self@.literals,
                    *mk,
                ),
            decreases self.clauses@.len() - k,
        {
            let pattern = &self.clauses[k].0;
            let found = match &pattern.datum {
                ScopedDatum::List(ps) => {
                    proof {
                        lemma_svs_index(ps@);
                    }
                    let from: usize = if ps.len() >= 1 {
                        1
                    } else {
                        0
                    };
                    let mut arg_pats: Vec<ScopedStx> = Vec::new();
                    push_copies(ps, from, &mut arg_pats);
                    proof {
                        assert(svs(arg_pats@) =~= svs(ps@).subrange(from as int, svs(ps@).len() as int));
                    }
                    let empty: Vec<(Symbol, Bound)> = Vec::new();
                    proof {
                        assert(bindings_v(empty@) =~= Seq::empty());
                    }
                    match_sequence(&arg_pats, args, &self.literals, mk, empty)
                },
                _ => None,
            };
            match found {
                Some(b) => {
                    return Some((k, b));
                },
                None => {},
            }
            k = k + 1;
        }
        None
    }

    /// The number of clauses.
    pub fn clause_count(&self) -> (n: usize)
        ensures
            n == self@.clauses.len(),
    {
        self.clauses.len()
    }

    /// The template of clause `k`.
    pub fn template(&self, k: usize) -> (t: &ScopedStx)
        requires
            k < self@.clauses.len(),
        ensures
            sv(*t) == self@.clauses[k as int].1,
    {
        &self.clauses[k].1
    }

    /// The scopes of the rule set's definition.
    pub fn definition_scopes(&self) -> (s: &Vec<u32>)
        ensures
            s@ == self@.def_scopes,
    {
        &self.def_scopes
    }
}

} // verus!
