//! The report of a recovering static check: expansion errors and type
//! diagnostics merged in source order, and everything rendered.
use vstd::prelude::*;

use crate::diagnostic::{diagnostic_positions_ok, render_diagnostic, spec_render_diagnostic, Diagnostic, DiagnosticCode};
use crate::driver::stage_diagnostic;
use crate::expander::ExpandError;
use crate::recover::{same_position, span_le, span_le_exec, stably_sorted, DiagCollector, MAX_DIAGNOSTICS};
use crate::source_map::SourceMap;

verus! {

/// `out[k]` is `input[p[k]]`: `p` places each input diagnostic once, the
/// output is ordered by primary position, and diagnostics at the same
/// position keep their input order.
pub open spec fn diag_arrangement(input: Seq<Diagnostic>, out: Seq<Diagnostic>, p: Seq<int>) -> bool {
    &&& p.len() == input.len()
    &&& out.len() == input.len()
    &&& forall|k: int| 0 <= k < p.len() ==> 0 <= #[trigger] p[k] < input.len() && out[k] == input[p[k]]
    &&& forall|a: int, b: int| 0 <= a < p.len() && 0 <= b < p.len() && a != b ==> p[a] != p[b]
    &&& forall|a: int, b: int|
        #![trigger out[a], out[b]]
        0 <= a < b < out.len() ==> span_le(out[a].primary_span, out[b].primary_span)
    &&& forall|a: int, b: int|
        #![trigger p[a], p[b]]
        0 <= a < b < out.len() && same_position(out[a].primary_span, out[b].primary_span) ==> p[a] < p[b]
}

/// `out` is `input` stably sorted by primary position.
pub open spec fn diags_stably_sorted(input: Seq<Diagnostic>, out: Seq<Diagnostic>) -> bool {
    exists|p: Seq<int>| diag_arrangement(input, out, p)
}

/// Diagnostics stably sorted by primary position (file, start, end).
pub fn sort_by_position(v: Vec<Diagnostic>) -> (r: Vec<Diagnostic>)
    ensures
        diags_stably_sorted(v@, r@),
{
    let ghost input = v@;
    let mut src = v;
    let mut out: Vec<Diagnostic> = Vec::new();
    let ghost mut p: Seq<int> = Seq::empty();
    while src.len() > 0
        invariant
            src@ == input.subrange(0, src@.len() as int),
            out@.len() + src@.len() == input.len(),
            p.len() == out@.len(),
            forall|k: int|
                0 <= k < p.len() ==> src@.len() <= #[trigger] p[k] < input.len() && out@[k]
                    == input[p[k]],
            forall|a: int, b: int| 0 <= a < p.len() && 0 <= b < p.len() && a != b ==> p[a] != p[b],
            forall|a: int, b: int|
                #![trigger out@[a], out@[b]]
                0 <= a < b < out@.len() ==> span_le(out@[a].primary_span, out@[b].primary_span),
            forall|a: int, b: int|
                #![trigger p[a], p[b]]
                0 <= a < b < out@.len() && same_position(out@[a].primary_span, out@[b].primary_span) ==> p[a]
                    < p[b],
        decreases src@.len(),
    {
        let ghost i = src@.len() - 1;
        let x = src.pop().unwrap();
        let mut q: usize = 0;
        while q < out.len() && !span_le_exec(&x.primary_span, &out[q].primary_span)
            invariant
                0 <= q <= out@.len(),
                forall|k: int| 0 <= k < q ==> !span_le(x.primary_span, #[trigger] out@[k].primary_span),
            decreases out@.len() - q,
        {
            q = q + 1;
        }
        let ghost old_out = out@;
        let ghost old_p = p;
        out.insert(q, x);
        proof {
            p = old_p.subrange(0, q as int).push(i).add(old_p.subrange(q as int, old_p.len() as int));
            assert(src@ =~= input.subrange(0, src@.len() as int));
            assert forall|k: int| 0 <= k < p.len() implies src@.len() <= #[trigger] p[k] < input.len()
                && out@[k] == input[p[k]] by {
                if k < q {
                    assert(p[k] == old_p[k]);
                } else if k > q {
                    assert(p[k] == old_p[k - 1]);
                }
            }
            assert forall|a: int, b: int|
                #![trigger out@[a], out@[b]]
                0 <= a < b < out@.len() implies span_le(out@[a].primary_span, out@[b].primary_span) by {
                if b == q {
                    assert(out@[a] == old_out[a]);
                } else if a == q {
                    assert(out@[b] == old_out[b - 1]);
                    if q < old_out.len() {
                        assert(out@[q + 1] == old_out[q as int]);
                        assert(span_le(x.primary_span, old_out[q as int].primary_span));
                        if b - 1 > q {
                            assert(span_le(old_out[q as int].primary_span, old_out[b - 1].primary_span));
                        }
                    }
                } else if b < q {
                    assert(out@[a] == old_out[a] && out@[b] == old_out[b]);
                } else if a > q {
                    assert(out@[a] == old_out[a - 1] && out@[b] == old_out[b - 1]);
                } else {
                    assert(out@[a] == old_out[a] && out@[b] == old_out[b - 1]);
                    assert(!span_le(x.primary_span, old_out[a].primary_span));
                    if q < old_out.len() {
                        assert(span_le(x.primary_span, old_out[q as int].primary_span));
                        if b - 1 > q {
                            assert(span_le(old_out[q as int].primary_span, old_out[b - 1].primary_span));
                        }
                    }
                }
            }
            assert forall|a: int, b: int|
                #![trigger p[a], p[b]]
                0 <= a < b < out@.len() && same_position(out@[a].primary_span, out@[b].primary_span) implies p[a]
                    < p[b] by {
                if b == q {
                    assert(out@[a] == old_out[a]);
                    assert(!span_le(x.primary_span, old_out[a].primary_span));
                } else if a == q {
                    assert(p[b] == old_p[b - 1]);
                } else if b < q {
                    assert(p[a] == old_p[a] && p[b] == old_p[b]);
                    assert(out@[a] == old_out[a] && out@[b] == old_out[b]);
                } else if a > q {
                    assert(p[a] == old_p[a - 1] && p[b] == old_p[b - 1]);
                    assert(out@[a] == old_out[a - 1] && out@[b] == old_out[b - 1]);
                } else {
                    assert(p[a] == old_p[a] && p[b] == old_p[b - 1]);
                    assert(out@[a] == old_out[a] && out@[b] == old_out[b - 1]);
                    assert(!span_le(x.primary_span, old_out[a].primary_span));
                    if q < old_out.len() {
                        assert(span_le(x.primary_span, old_out[q as int].primary_span));
                        if b - 1 > q {
                            assert(span_le(old_out[q as int].primary_span, old_out[b - 1].primary_span));
                        }
                    }
                }
            }
            assert forall|a: int, b: int| 0 <= a < p.len() && 0 <= b < p.len() && a != b implies p[a]
                != p[b] by {
                if a != q && b != q {
                    let a0 = if a < q { a } else { a - 1 };
                    let b0 = if b < q { b } else { b - 1 };
                    assert(p[a] == old_p[a0] && p[b] == old_p[b0]);
                } else if a == q {
                    let b0 = if b < q { b } else { b - 1 };
                    assert(p[b] == old_p[b0]);
                } else {
                    let a0 = if a < q { a } else { a - 1 };
                    assert(p[a] == old_p[a0]);
                }
            }
        }
    }
    proof {
        assert(diag_arrangement(input, out@, p));
    }
    out
}

/// The diagnostic of an expansion error: error E0002 with its message, at
/// its span.
pub open spec fn expansion_diagnostic(e: ExpandError, d: Diagnostic) -> bool {
    stage_diagnostic(2, e.message@, d) && d.primary_span == e.span
}

/// `ins` is the diagnostics of `es`, then `ts`.
pub open spec fn merged(es: Seq<ExpandError>, ts: Seq<Diagnostic>, ins: Seq<Diagnostic>) -> bool {
    &&& ins.len() == es.len() + ts.len()
    &&& forall|i: int| 0 <= i < es.len() ==> expansion_diagnostic(es[i], #[trigger] ins[i])
    &&& forall|j: int| 0 <= j < ts.len() ==> #[trigger] ins[es.len() + j] == ts[j]
}

/// The note added when the expansion errors reached the collector's cap.
pub open spec fn truncation_note() -> Seq<char> {
    "note: 展开诊断达到上限 128（截断——诊断风暴防护）"@
}

/// The diagnostics of a recovering check and their rendered texts.
#[derive(Debug, Clone)]
pub struct CheckDiagnostics {
    pub diagnostics: Vec<Diagnostic>,
    pub rendered: Vec<String>,
}

/// Every diagnostic of `ds` renders against `sm`.
pub open spec fn all_placed(ds: Seq<Diagnostic>, sm: SourceMap) -> bool {
    forall|j: int| 0 <= j < ds.len() ==> diagnostic_positions_ok(#[trigger] ds[j], sm)
}

/// Appends the rendering of each of `ds`.
fn push_rendered(ds: &Vec<Diagnostic>, sm: &SourceMap, out: &mut Vec<String>)
    requires
        sm.wf(),
        all_placed(ds@, *sm),
    ensures
        final(out)@.len() == old(out)@.len() + ds@.len(),
        forall|i: int| 0 <= i < old(out)@.len() ==> #[trigger] final(out)@[i] == old(out)@[i],
        forall|j: int|
            0 <= j < ds@.len() ==> (#[trigger] final(out)@[old(out)@.len() + j])@ == spec_render_diagnostic(
                ds@[j],
                sm@,
            ),
{
    let ghost o0 = out@;
    let mut j: usize = 0;
    while j < ds.len()
        invariant
            sm.wf(),
            all_placed(ds@, *sm),
            j <= ds@.len(),
            out@.len() == o0.len() + j,
            forall|i: int| 0 <= i < o0.len() ==> #[trigger] out@[i] == o0[i],
            forall|q: int|
                0 <= q < j ==> (#[trigger] out@[o0.len() + q])@ == spec_render_diagnostic(ds@[q], sm@),
        decreases ds@.len() - j,
    {
        let text = render_diagnostic(&ds[j], sm);
        out.push(text);
        j = j + 1;
    }
}

/// The report of a recovering check: the expansion errors (each as error
/// E0002) and the type diagnostics, stably sorted together by position;
/// each rendered, then each warning rendered, then a note when the
/// expansion errors reached the collector's cap.
pub fn merge_check_diagnostics(
    expand: DiagCollector,
    type_diags: Vec<Diagnostic>,
    warnings: &Vec<Diagnostic>,
    sm: &SourceMap,
) -> (r: CheckDiagnostics)
    requires
        expand.wf(),
        sm.wf(),
        forall|i: int|
            0 <= i < expand@.0.len() ==> sm.position_ok(
                (#[trigger] expand@.0[i]).span.file_id,
                expand@.0[i].span.start,
            ),
        all_placed(type_diags@, *sm),
        all_placed(warnings@, *sm),
    ensures
        exists|es: Seq<ExpandError>, ins: Seq<Diagnostic>|
            stably_sorted(expand@.0, es) && merged(es, type_diags@, ins) && diags_stably_sorted(
                ins,
                r.diagnostics@,
            ),
        r.rendered@.len() == r.diagnostics@.len() + warnings@.len() + (if expand@.0.len()
            >= MAX_DIAGNOSTICS {
            1int
        } else {
            0int
        }),
        forall|i: int|
            0 <= i < r.diagnostics@.len() ==> (#[trigger] r.rendered@[i])@ == spec_render_diagnostic(
                r.diagnostics@[i],
                sm@,
            ),
        forall|j: int|
            0 <= j < warnings@.len() ==> (#[trigger] r.rendered@[r.diagnostics@.len() + j])@
                == spec_render_diagnostic(warnings@[j], sm@),
        expand@.0.len() >= MAX_DIAGNOSTICS ==> r.rendered@.last()@ == truncation_note(),
{
    let ghost kept = expand@.0;
    let count = expand.len();
    let sorted = expand.into_sorted();
    let ghost es = sorted@;
    proof {
        let p = choose|p: Seq<int>| crate::recover::stable_arrangement(kept, es, p);
        assert forall|i: int| 0 <= i < es.len() implies sm.position_ok(
            (#[trigger] es[i]).span.file_id,
            es[i].span.start,
        ) by {
            assert(es[i] == kept[p[i]]);
        }
    }
    let mut all: Vec<Diagnostic> = Vec::new();
    let mut i: usize = 0;
    while i < sorted.len()
        invariant
            es == sorted@,
            sm.wf(),
            forall|q: int| 0 <= q < es.len() ==> sm.position_ok((#[trigger] es[q]).span.file_id, es[q].span.start),
            i <= es.len(),
            all@.len() == i,
            forall|q: int| 0 <= q < i ==> expansion_diagnostic(es[q], #[trigger] all@[q]),
            all_placed(all@, *sm),
        decreases es.len() - i,
    {
        let d = Diagnostic::error(Some(DiagnosticCode(2)), sorted[i].message.as_str(), sorted[i].span);
        all.push(d);
        i = i + 1;
    }
    let ghost ins0 = all@;
    let mut tail = type_diags;
    all.append(&mut tail);
    proof {
        assert forall|q: int| 0 <= q < all@.len() implies diagnostic_positions_ok(#[trigger] all@[q], *sm) by {
            if q < ins0.len() {
                assert(all@[q] == ins0[q]);
            } else {
                assert(all@[q] == type_diags@[q - ins0.len()]);
            }
        }
        assert forall|q: int| 0 <= q < es.len() implies expansion_diagnostic(es[q], #[trigger] all@[q]) by {
            assert(all@[q] == ins0[q]);
        }
        assert forall|q: int| 0 <= q < type_diags@.len() implies #[trigger] all@[es.len() + q] == type_diags@[q] by {
        }
    }
    let ghost ins = all@;
    let diagnostics = sort_by_position(all);
    proof {
        let p = choose|p: Seq<int>| diag_arrangement(ins, diagnostics@, p);
        assert forall|k: int| 0 <= k < diagnostics@.len() implies diagnostic_positions_ok(
            #[trigger] diagnostics@[k],
            *sm,
        ) by {
            assert(diagnostics@[k] == ins[p[k]]);
        }
        assert(merged(es, type_diags@, ins));
    }
    let mut rendered: Vec<String> = Vec::new();
    push_rendered(&diagnostics, sm, &mut rendered);
    let ghost r1 = rendered@;
    push_rendered(warnings, sm, &mut rendered);
    let ghost r2 = rendered@;
    if count >= MAX_DIAGNOSTICS {
        rendered.push(crate::text::string_of("note: 展开诊断达到上限 128（截断——诊断风暴防护）"));
    }
    proof {
        assert forall|i: int| 0 <= i < diagnostics@.len() implies (#[trigger] rendered@[i])@
            == spec_render_diagnostic(diagnostics@[i], sm@) by {
            assert(rendered@[i] == r2[i]);
            assert(r2[i] == r1[i]);
            assert(r1[0 + i] == r1[i]);
        }
        assert forall|j: int| 0 <= j < warnings@.len() implies (#[trigger] rendered@[diagnostics@.len() + j])@
            == spec_render_diagnostic(warnings@[j], sm@) by {
            assert(rendered@[diagnostics@.len() + j] == r2[r1.len() + j]);
        }
    }
    CheckDiagnostics { diagnostics, rendered }
}

} // verus!
