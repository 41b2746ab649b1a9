//! The mark-sweep cycle entry point and its root set.
use vstd::prelude::*;

use crate::heap::{GcRef, GcStats, Heap, collected, spec_stats};

verus! {

/// The roots of a collection, gathered by the evaluator at a safe point
/// (value stack, frame locals, globals, captured values).  The heap's own
/// foreign roots and pins are added by the heap itself.
#[derive(Debug, Clone)]
pub struct RootSet {
    pub refs: Vec<GcRef>,
}

impl RootSet {
    /// An empty root set.
    pub fn new() -> (r: RootSet)
        ensures
            r.refs@ == Seq::<GcRef>::empty(),
    {
        RootSet { refs: Vec::new() }
    }

    /// A root set holding `refs`, in order.
    pub fn from_refs(refs: Vec<GcRef>) -> (r: RootSet)
        ensures
            r.refs@ == refs@,
    {
        RootSet { refs }
    }

    /// Adds a root.
    pub fn push(&mut self, r: GcRef)
        ensures
            final(self).refs@ == old(self).refs@.push(r),
    {
        self.refs.push(r);
    }

    /// Number of roots.
    pub fn len(&self) -> (n: usize)
        ensures
            n == self.refs@.len(),
    {
        self.refs.len()
    }

    /// Whether there is no root.
    pub fn is_empty(&self) -> (b: bool)
        ensures
            b == (self.refs@.len() == 0),
    {
        self.refs.len() == 0
    }
}

impl Default for RootSet {
    fn default() -> (r: RootSet)
        ensures
            r.refs@ == Seq::<GcRef>::empty(),
    {
        RootSet::new()
    }
}

/// One mark-sweep cycle: every slot that is not reachable from the roots,
/// the foreign roots or the pinned references goes to the free list; the
/// objects themselves are left as they are.
pub fn mark_sweep_cycle(heap: &mut Heap, roots: &RootSet) -> (stats: GcStats)
    requires
        old(heap).wf(),
        old(heap).can_collect(),
    ensures
        final(heap).wf(),
        collected(old(heap)@, final(heap)@, roots.refs@),
        stats == spec_stats(final(heap)@),
{
    heap.collect(roots)
}

} // verus!
