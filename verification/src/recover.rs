//! Collecting many expansion errors: recovery works form by form, and the
//! collector keeps at most `MAX_DIAGNOSTICS` errors, marking the rest as
//! dropped; it hands them out ordered by position.
use vstd::prelude::*;

use crate::expander::ExpandError;
use crate::span::Span;

verus! {

/// The most errors a collector keeps.
pub const MAX_DIAGNOSTICS: usize = 128;

/// A collector of expansion errors, in the order they were pushed.
#[derive(Debug)]
pub struct DiagCollector {
    diags: Vec<ExpandError>,
    truncated: bool,
}

impl View for DiagCollector {
    /// The errors kept, and whether some were dropped.
    type V = (Seq<ExpandError>, bool);

    closed spec fn view(&self) -> (Seq<ExpandError>, bool) {
        (self.diags@, self.truncated)
    }
}

/// Position order on spans: by file, then start, then end.
pub open spec fn span_le(a: Span, b: Span) -> bool {
    ||| a.file_id < b.file_id
    ||| a.file_id == b.file_id && a.start < b.start
    ||| a.file_id == b.file_id && a.start == b.start && a.end <= b.end
}

/// Two spans at the same position (file, start and end).
pub open spec fn same_position(a: Span, b: Span) -> bool {
    a.file_id == b.file_id && a.start == b.start && a.end == b.end
}

/// `out[k]` is `input[p[k]]`: `p` places each input error once, the output
/// is ordered by position, and errors at the same position keep their
/// input order.
pub open spec fn stable_arrangement(input: Seq<ExpandError>, out: Seq<ExpandError>, p: Seq<int>) -> bool {
    &&& p.len() == input.len()
    &&& out.len() == input.len()
    &&& forall|k: int| 0 <= k < p.len() ==> 0 <= #[trigger] p[k] < input.len() && out[k] == input[p[k]]
    &&& forall|a: int, b: int| 0 <= a < p.len() && 0 <= b < p.len() && a != b ==> p[a] != p[b]
    &&& forall|a: int, b: int|
        #![trigger out[a], out[b]]
        0 <= a < b < out.len() ==> span_le(out[a].span, out[b].span)
    &&& forall|a: int, b: int|
        #![trigger p[a], p[b]]
        0 <= a < b < out.len() && same_position(out[a].span, out[b].span) ==> p[a] < p[b]
}

/// `out` is `input` stably sorted by position.
pub open spec fn stably_sorted(input: Seq<ExpandError>, out: Seq<ExpandError>) -> bool {
    exists|p: Seq<int>| stable_arrangement(input, out, p)
}

pub(crate) fn span_le_exec(a: &Span, b: &Span) -> (r: bool)
    ensures
        r == span_le(*a, *b),
{
    a.file_id < b.file_id || (a.file_id == b.file_id && a.start < b.start) || (a.file_id
        == b.file_id && a.start == b.start && a.end <= b.end)
}

impl DiagCollector {
    /// The collector holds at most `MAX_DIAGNOSTICS` errors.
    pub open spec fn wf(&self) -> bool {
        self@.0.len() <= MAX_DIAGNOSTICS
    }

    /// An empty collector.
    pub fn new() -> (c: DiagCollector)
        ensures
            c.wf(),
            c@.0.len() == 0,
            !c@.1,
    {
        DiagCollector { diags: Vec::new(), truncated: false }
    }

    /// Adds an error; a full collector drops it and records the drop.
    pub fn push(&mut self, e: ExpandError)
        requires
            old(self).wf(),
        ensures
            final(self).wf(),
            old(self)@.0.len() >= MAX_DIAGNOSTICS ==> final(self)@ == (old(self)@.0, true),
            old(self)@.0.len() < MAX_DIAGNOSTICS ==> final(self)@ == (
                old(self)@.0.push(e),
                old(self)@.1,
            ),
    {
        if self.diags.len() >= MAX_DIAGNOSTICS {
            self.truncated = true;
            return;
        }
        self.diags.push(e);
    }

    /// Whether the collector holds as many errors as it may keep.
    pub fn is_full(&self) -> (b: bool)
        requires
            self.wf(),
        ensures
            b == (self@.0.len() == MAX_DIAGNOSTICS),
    {
        self.diags.len() >= MAX_DIAGNOSTICS
    }

    /// Records that errors were dropped.
    pub fn mark_truncated(&mut self)
        requires
            old(self).wf(),
        ensures
            final(self).wf(),
            final(self)@ == (old(self)@.0, true),
    {
        self.truncated = true;
    }

    /// The number of errors kept (never more than `MAX_DIAGNOSTICS`).
    pub fn len(&self) -> (n: usize)
        requires
            self.wf(),
        ensures
            n == self@.0.len(),
            n <= MAX_DIAGNOSTICS,
    {
        self.diags.len()
    }

    /// Whether no error was kept.
    pub fn is_empty(&self) -> (b: bool)
        ensures
            b == (self@.0.len() == 0),
    {
        self.diags.len() == 0
    }

    /// Whether errors were dropped.
    pub fn truncated(&self) -> (b: bool)
        ensures
            b == self@.1,
    {
        self.truncated
    }

    /// The errors kept, stably sorted by position (file, start, end).
    pub fn into_sorted(self) -> (v: Vec<ExpandError>)
        ensures
            stably_sorted(self@.0, v@),
    {
        let ghost input = self.diags@;
        let mut src = self.diags;
        let mut out: Vec<ExpandError> = Vec::new();
        let ghost mut p: Seq<int> = Seq::empty();
        while src.len() > 0
            invariant
                src@ == input.subrange(0, src@.len() as int),
                out@.len() + src@.len() == input.len(),
                p.len() == out@.len(),
                forall|k: int|
                    0 <= k < p.len() ==> src@.len() <= #[trigger] p[k] < input.len() && out@[k]
                        == input[p[k]],
                forall|a: int, b: int| 0 <= a < p.len() && 0 <= b < p.len() && a != b ==> p[a] != p[b],
                forall|a: int, b: int|
                    #![trigger out@[a], out@[b]]
                    0 <= a < b < out@.len() ==> span_le(out@[a].span, out@[b].span),
                forall|a: int, b: int|
                    #![trigger p[a], p[b]]
                    0 <= a < b < out@.len() && same_position(out@[a].span, out@[b].span) ==> p[a]
                        < p[b],
            decreases src@.len(),
        {
            let ghost i = src@.len() - 1;
            let x = src.pop().unwrap();
            let mut q: usize = 0;
            while q < out.len() && !span_le_exec(&x.span, &out[q].span)
                invariant
                    0 <= q <= out@.len(),
                    forall|k: int| 0 <= k < q ==> !span_le(x.span, #[trigger] out@[k].span),
                decreases out@.len() - q,
            {
                q = q + 1;
            }
            let ghost old_out = out@;
            let ghost old_p = p;
            out.insert(q, x);
            proof {
                p = old_p.subrange(0, q as int).push(i).add(old_p.subrange(q as int, old_p.len() as int));
                assert(src@ =~= input.subrange(0, src@.len() as int));
                assert forall|k: int| 0 <= k < p.len() implies src@.len() <= #[trigger] p[k] < input.len()
                    && out@[k] == input[p[k]] by {
                    if k < q {
                        assert(p[k] == old_p[k]);
                    } else if k > q {
                        assert(p[k] == old_p[k - 1]);
                    }
                }
                assert forall|a: int, b: int|
                    #![trigger out@[a], out@[b]]
                    0 <= a < b < out@.len() implies span_le(out@[a].span, out@[b].span) by {
                    if b == q {
                        assert(out@[a] == old_out[a]);
                    } else if a == q {
                        assert(out@[b] == old_out[b - 1]);
                        if q < old_out.len() {
                            assert(out@[q + 1] == old_out[q as int]);
                            assert(span_le(x.span, old_out[q as int].span));
                            if b - 1 > q {
                                assert(span_le(old_out[q as int].span, old_out[b - 1].span));
                            }
                        }
                    } else if b < q {
                        assert(out@[a] == old_out[a] && out@[b] == old_out[b]);
                    } else if a > q {
                        assert(out@[a] == old_out[a - 1] && out@[b] == old_out[b - 1]);
                    } else {
                        assert(out@[a] == old_out[a] && out@[b] == old_out[b - 1]);
                        assert(!span_le(x.span, old_out[a].span));
                        if q < old_out.len() {
                            assert(span_le(x.span, old_out[q as int].span));
                            if b - 1 > q {
                                assert(span_le(old_out[q as int].span, old_out[b - 1].span));
                            }
                        }
                    }
                }
                assert forall|a: int, b: int|
                    #![trigger p[a], p[b]]
                    0 <= a < b < out@.len() && same_position(out@[a].span, out@[b].span) implies p[a]
                        < p[b] by {
                    if b == q {
                        assert(out@[a] == old_out[a]);
                        assert(!span_le(x.span, old_out[a].span));
                    } else if a == q {
                        assert(p[b] == old_p[b - 1]);
                    } else if b < q {
                        assert(p[a] == old_p[a] && p[b] == old_p[b]);
                        assert(out@[a] == old_out[a] && out@[b] == old_out[b]);
                    } else if a > q {
                        assert(p[a] == old_p[a - 1] && p[b] == old_p[b - 1]);
                        assert(out@[a] == old_out[a - 1] && out@[b] == old_out[b - 1]);
                    } else {
                        assert(p[a] == old_p[a] && p[b] == old_p[b - 1]);
                        assert(out@[a] == old_out[a] && out@[b] == old_out[b - 1]);
                        assert(!span_le(x.span, old_out[a].span));
                        if q < old_out.len() {
                            assert(span_le(x.span, old_out[q as int].span));
                            if b - 1 > q {
                                assert(span_le(old_out[q as int].span, old_out[b - 1].span));
                            }
                        }
                    }
                }
                assert forall|a: int, b: int| 0 <= a < p.len() && 0 <= b < p.len() && a != b implies p[a]
                    != p[b] by {
                    if a != q && b != q {
                        let a0 = if a < q { a } else { a - 1 };
                        let b0 = if b < q { b } else { b - 1 };
                        assert(p[a] == old_p[a0] && p[b] == old_p[b0]);
                    } else if a == q {
                        let b0 = if b < q { b } else { b - 1 };
                        assert(p[b] == old_p[b0]);
                    } else {
                        let a0 = if a < q { a } else { a - 1 };
                        assert(p[a] == old_p[a0]);
                    }
                }
            }
        }
        proof {
            assert(stable_arrangement(input, out@, p));
        }
        out
    }
}

impl Default for DiagCollector {
    fn default() -> (c: DiagCollector)
        ensures
            c.wf(),
            c@.0.len() == 0,
            !c@.1,
    {
        DiagCollector::new()
    }
}

/// A program expanded form by form, recovering from errors: the
/// expansions of the forms that succeeded, in order, and the errors of the
/// others.
#[derive(Debug)]
pub struct RecoveredExpansion<C> {
    pub core: Vec<C>,
    pub diags: DiagCollector,
}

impl<C> RecoveredExpansion<C> {
    /// The collector's invariant.
    pub open spec fn wf(&self) -> bool {
        self.diags.wf()
    }

    /// Nothing expanded yet.
    pub fn new() -> (r: Self)
        ensures
            r.wf(),
            r.core@.len() == 0,
            r.diags@.0.len() == 0,
            !r.diags@.1,
    {
        RecoveredExpansion { core: Vec::new(), diags: DiagCollector::new() }
    }

    /// Whether the next form may be expanded: not once the collector is
    /// full, and then the rest of the program is recorded as dropped.
    pub fn admit_next(&mut self) -> (go: bool)
        requires
            old(self).wf(),
        ensures
            final(self).wf(),
            go == (old(self).diags@.0.len() < MAX_DIAGNOSTICS),
            final(self).core@ == old(self).core@,
            go ==> final(self).diags@ == old(self).diags@,
            !go ==> final(self).diags@ == (old(self).diags@.0, true),
    {
        if self.diags.is_full() {
            self.diags.mark_truncated();
            false
        } else {
            true
        }
    }

    /// Records how one form expanded: its expansion, or its error.
    pub fn record(&mut self, outcome: Result<C, ExpandError>)
        requires
            old(self).wf(),
            old(self).diags@.0.len() < MAX_DIAGNOSTICS,
        ensures
            final(self).wf(),
            match outcome {
                Ok(c) => final(self).core@ == old(self).core@.push(c) && final(self).diags@ == old(
                    self,
                ).diags@,
                Err(e) => final(self).core@ == old(self).core@ && final(self).diags@ == (
                    old(self).diags@.0.push(e),
                    old(self).diags@.1,
                ),
            },
    {
        match outcome {
            Ok(c) => self.core.push(c),
            Err(e) => self.diags.push(e),
        }
    }

    /// Whether every form expanded.
    pub fn is_clean(&self) -> (b: bool)
        requires
            self.wf(),
        ensures
            b == (self.diags@.0.len() == 0),
    {
        self.diags.is_empty()
    }
}

} // verus!
