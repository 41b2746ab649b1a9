//! The garbage-collected heap: slot allocation and mark-sweep collection.
//!
//! Slots live in a vector (`GcRef` is a slot index); a collection returns
//! every slot not reachable from the roots to the free list, and allocation
//! reuses the free list before growing the vector.
use vstd::prelude::*;
use vstd::set_lib::*;

use crate::io::RuntimeError;

verus! {

/// Reference to a heap object (a slot index).
#[derive(Debug, Clone, Copy, PartialEq, Eq, Structural, Hash)]
pub struct GcRef(pub u32);

/// A boxed foreign value (a closure or builtin of the evaluator).
///
/// `handle` identifies the boxed value: two boxes are the same value exactly
/// when their handles agree.  `children` are the heap references that the
/// boxed value keeps alive (what its tracer enumerates during marking).
#[derive(Debug, Clone)]
pub struct ForeignBox {
    pub handle: u64,
    pub children: Vec<GcRef>,
}

/// A heap object.  A float is stored by its IEEE-754 bit pattern.
#[derive(Debug, Clone)]
pub enum HeapObj {
    Pair(GcRef, GcRef),
    Str(String),
    Int(i64),
    Float(u64),
    Bool(bool),
    Symbol(String),
    Nil,
    Foreign(ForeignBox),
}

/// One heap slot.
#[derive(Debug, Clone)]
pub struct Slot {
    pub obj: HeapObj,
    pub marked: bool,
}

/// A value to box (the immediate forms of the evaluator).
#[derive(Debug, Clone)]
pub enum BoxedInput {
    Str(String),
    Int(i64),
    Float(u64),
    Bool(bool),
    Nil,
    Foreign(ForeignBox),
}

/// What `unbox` reports of a slot (`Pair` marks a pair slot; the caller
/// wraps the reference itself).
#[derive(Debug, Clone)]
pub enum ValueSlot {
    Pair,
    Str(String),
    Int(i64),
    Float(u64),
    Bool(bool),
    Symbol(String),
    Nil,
    Foreign(ForeignBox),
}

/// A snapshot of the heap's statistics.
#[derive(Debug, Clone, Copy, PartialEq, Eq, Structural)]
pub struct GcStats {
    /// Number of slots.
    pub slots: usize,
    /// Number of free slots.
    pub free: usize,
    /// Number of slots not on the free list.
    pub live: usize,
    /// Allocations so far.
    pub total_allocs: u64,
    /// Collections so far.
    pub collections: u64,
    /// Objects freed so far.
    pub total_freed: u64,
}

impl Default for GcStats {
    fn default() -> (s: GcStats)
        ensures
            s == (GcStats { slots: 0, free: 0, live: 0, total_allocs: 0, collections: 0, total_freed: 0 }),
    {
        GcStats { slots: 0, free: 0, live: 0, total_allocs: 0, collections: 0, total_freed: 0 }
    }
}

/// The mark-sweep heap.
#[derive(Debug, Clone)]
pub struct Heap {
    slots: Vec<Slot>,
    free: Vec<GcRef>,
    gc_threshold: usize,
    gc_enabled: bool,
    foreign_roots: Vec<GcRef>,
    pin_counts: Vec<(GcRef, u32)>,
    total_allocs: u64,
    allocs_since_gc: u64,
    collections: u64,
    total_freed: u64,
}

/// The abstract state of a heap.
pub struct HeapView {
    pub slots: Seq<Slot>,
    pub free: Seq<GcRef>,
    pub gc_threshold: usize,
    pub gc_enabled: bool,
    pub foreign_roots: Seq<GcRef>,
    pub pins: Seq<(GcRef, u32)>,
    pub total_allocs: u64,
    pub allocs_since_gc: u64,
    pub collections: u64,
    pub total_freed: u64,
}

impl View for Heap {
    type V = HeapView;

    closed spec fn view(&self) -> HeapView {
        HeapView {
            slots: self.slots@,
            free: self.free@,
            gc_threshold: self.gc_threshold,
            gc_enabled: self.gc_enabled,
            foreign_roots: self.foreign_roots@,
            pins: self.pin_counts@,
            total_allocs: self.total_allocs,
            allocs_since_gc: self.allocs_since_gc,
            collections: self.collections,
            total_freed: self.total_freed,
        }
    }
}

/// The pin count of `r`: the count of its entry, 0 when it has none.
pub open spec fn pin_count_of(pins: Seq<(GcRef, u32)>, r: GcRef) -> nat {
    if exists|k: int| 0 <= k < pins.len() && pins[k].0 == r {
        pins[choose|k: int| 0 <= k < pins.len() && pins[k].0 == r].1 as nat
    } else {
        0
    }
}

/// Pin entries name distinct references, each with a positive count.
pub open spec fn pins_wf(pins: Seq<(GcRef, u32)>) -> bool {
    &&& forall|i: int, j: int| 0 <= i < pins.len() && 0 <= j < pins.len() && i != j
        ==> pins[i].0 != pins[j].0
    &&& forall|i: int| 0 <= i < pins.len() ==> pins[i].1 > 0
}

/// The references of a pin book, in entry order.
pub open spec fn pin_keys(pins: Seq<(GcRef, u32)>) -> Seq<GcRef> {
    pins.map_values(|p: (GcRef, u32)| p.0)
}

/// The elements of a sequence are pairwise distinct.
pub open spec fn distinct_refs(s: Seq<GcRef>) -> bool {
    forall|i: int, j: int| 0 <= i < s.len() && 0 <= j < s.len() && i != j ==> s[i] != s[j]
}

/// An edge of the object graph: `obj` holds `t`.
pub open spec fn obj_edge(obj: HeapObj, t: GcRef) -> bool {
    match obj {
        HeapObj::Pair(a, b) => t == a || t == b,
        HeapObj::Foreign(f) => f.children@.contains(t),
        _ => false,
    }
}

/// `m` holds every in-range start and is closed under the edges of the
/// in-range slots.
pub open spec fn closed_under(slots: Seq<Slot>, starts: Seq<GcRef>, m: Set<int>) -> bool {
    &&& forall|k: int|
        0 <= k < starts.len() && (starts[k].0 as int) < slots.len() ==> #[trigger] m.contains(
            starts[k].0 as int,
        )
    &&& forall|j: int, t: GcRef|
        #![trigger m.contains(j), obj_edge(slots[j].obj, t)]
        m.contains(j) && 0 <= j < slots.len() && obj_edge(slots[j].obj, t) && (t.0 as int)
            < slots.len() ==> m.contains(t.0 as int)
}

/// Slot `i` is reachable from `starts`: it lies in every set that holds the
/// starts and is closed under the edges of the object graph.
pub open spec fn reachable(slots: Seq<Slot>, starts: Seq<GcRef>, i: int) -> bool {
    &&& 0 <= i < slots.len()
    &&& forall|m: Set<int>| #[trigger] closed_under(slots, starts, m) ==> m.contains(i)
}

/// `list` enumerates, in increasing order, exactly the slot indices below
/// `n` that satisfy `p`.
pub open spec fn lists_exactly(list: Seq<GcRef>, n: int, p: Set<int>) -> bool {
    &&& forall|k: int| 0 <= k < list.len() ==> (list[k].0 as int) < n && p.contains(#[trigger] list[k].0 as int)
    &&& forall|k1: int, k2: int| 0 <= k1 < k2 < list.len() ==> list[k1].0 < list[k2].0
    &&& forall|i: int|
        0 <= i < n && #[trigger] p.contains(i) ==> exists|k: int| 0 <= k < list.len() && #[trigger] list[k].0 == i
}

/// The references a collection starts marking from: the given roots, the
/// registered foreign roots and the pinned references.
pub open spec fn collection_starts(v: HeapView, roots: Seq<GcRef>) -> Seq<GcRef> {
    roots + v.foreign_roots + pin_keys(v.pins)
}

/// `v` describes `obj`: the value for an immediate, `Pair` for a pair, and
/// a box of the same handle and children for a foreign value.
pub open spec fn describes(v: ValueSlot, obj: HeapObj) -> bool {
    match obj {
        HeapObj::Foreign(g) => match v {
            ValueSlot::Foreign(f) => f.handle == g.handle && f.children@ == g.children@,
            _ => false,
        },
        _ => v == slot_value(obj),
    }
}

/// What `unbox` reports of an object.
pub open spec fn slot_value(obj: HeapObj) -> ValueSlot {
    match obj {
        HeapObj::Pair(_, _) => ValueSlot::Pair,
        HeapObj::Str(s) => ValueSlot::Str(s),
        HeapObj::Int(i) => ValueSlot::Int(i),
        HeapObj::Float(f) => ValueSlot::Float(f),
        HeapObj::Bool(b) => ValueSlot::Bool(b),
        HeapObj::Symbol(s) => ValueSlot::Symbol(s),
        HeapObj::Nil => ValueSlot::Nil,
        HeapObj::Foreign(f) => ValueSlot::Foreign(f),
    }
}

/// The object that boxing `v` allocates.
pub open spec fn boxed_obj(v: BoxedInput) -> HeapObj {
    match v {
        BoxedInput::Str(s) => HeapObj::Str(s),
        BoxedInput::Int(i) => HeapObj::Int(i),
        BoxedInput::Float(f) => HeapObj::Float(f),
        BoxedInput::Bool(b) => HeapObj::Bool(b),
        BoxedInput::Nil => HeapObj::Nil,
        BoxedInput::Foreign(f) => HeapObj::Foreign(f),
    }
}

/// The effect of allocating `obj`: reuse the most recently freed slot, or
/// append a slot; either way the slot holds `obj` unmarked and both
/// allocation counters grow by one.
pub open spec fn allocated(old: HeapView, new: HeapView, obj: HeapObj, r: GcRef) -> bool {
    &&& new.total_allocs == old.total_allocs + 1
    &&& new.allocs_since_gc == old.allocs_since_gc + 1
    &&& new.gc_threshold == old.gc_threshold
    &&& new.gc_enabled == old.gc_enabled
    &&& new.foreign_roots == old.foreign_roots
    &&& new.pins == old.pins
    &&& new.collections == old.collections
    &&& new.total_freed == old.total_freed
    &&& if old.free.len() > 0 {
        &&& r == old.free.last()
        &&& new.free == old.free.drop_last()
        &&& new.slots == old.slots.update(r.0 as int, Slot { obj, marked: false })
    } else {
        &&& r == GcRef(old.slots.len() as u32)
        &&& new.free == old.free
        &&& new.slots == old.slots.push(Slot { obj, marked: false })
    }
}

/// The effect of a collection with the given roots: the objects stay as they
/// are, the free list becomes the increasing list of the slots that are not
/// reachable, and the counters advance.
pub open spec fn collected(old: HeapView, new: HeapView, roots: Seq<GcRef>) -> bool {
    &&& new.slots == old.slots
    &&& lists_exactly(
        new.free,
        old.slots.len() as int,
        Set::new(|i: int| !reachable(old.slots, collection_starts(old, roots), i)),
    )
    &&& new == (HeapView {
        free: new.free,
        allocs_since_gc: 0,
        collections: (old.collections + 1) as u64,
        total_freed: (old.total_freed + new.free.len()) as u64,
        ..old
    })
}

/// After a collection, the live count of the heap's statistics is the
/// number of objects reachable from where the collection started (the
/// given roots, the foreign roots and the pinned objects).
pub proof fn lemma_live_counts_reachable(old: HeapView, new: HeapView, roots: Seq<GcRef>)
    requires
        old.slots.len() <= u32::MAX,
        collected(old, new, roots),
    ensures
        spec_stats(new).live == Set::new(
            |i: int| 0 <= i < old.slots.len() && reachable(old.slots, collection_starts(old, roots), i),
        ).len(),
{
    let n = old.slots.len() as int;
    let st = collection_starts(old, roots);
    let p = Set::new(|i: int| !reachable(old.slots, st, i));
    let u = Set::new(|i: int| 0 <= i < n && !reachable(old.slots, st, i));
    let r = Set::new(|i: int| 0 <= i < n && reachable(old.slots, st, i));
    let ids = new.free.map_values(|g: GcRef| g.0 as int);
    assert forall|a: int, b: int| 0 <= a < ids.len() && 0 <= b < ids.len() && a != b implies ids[a] != ids[b] by {
        if a < b {
            assert(new.free[a].0 < new.free[b].0);
        } else {
            assert(new.free[b].0 < new.free[a].0);
        }
    }
    assert(ids.no_duplicates());
    ids.unique_seq_to_set();
    assert forall|x: int| ids.to_set().contains(x) <==> u.contains(x) by {
        if u.contains(x) {
            assert(p.contains(x));
            let k = choose|k: int| 0 <= k < new.free.len() && #[trigger] new.free[k].0 == x;
            assert(ids[k] == x);
        }
        if ids.to_set().contains(x) {
            let k = choose|k: int| 0 <= k < ids.len() && ids[k] == x;
            assert(p.contains(new.free[k].0 as int));
        }
    }
    assert(ids.to_set() =~= u);
    lemma_int_range(0, n);
    assert(r + u =~= set_int_range(0, n));
    lemma_len_subset(r, set_int_range(0, n));
    lemma_len_subset(u, set_int_range(0, n));
    assert(r.disjoint(u));
    lemma_set_disjoint_lens(r, u);
}

/// The statistics of a heap state.
pub open spec fn spec_stats(v: HeapView) -> GcStats {
    GcStats {
        slots: v.slots.len() as usize,
        free: v.free.len() as usize,
        live: (v.slots.len() - v.free.len()) as usize,
        total_allocs: v.total_allocs,
        collections: v.collections,
        total_freed: v.total_freed,
    }
}

impl Heap {
    /// The heap's invariant: free slots are distinct in-range indices, no
    /// slot is marked between collections, pin entries are well formed,
    /// foreign roots are distinct and the counters are consistent.
    pub open spec fn wf(&self) -> bool {
        let v = self@;
        &&& v.slots.len() <= u32::MAX
        &&& v.free.len() <= v.slots.len()
        &&& distinct_refs(v.free)
        &&& forall|k: int| 0 <= k < v.free.len() ==> (#[trigger] v.free[k].0 as int) < v.slots.len()
        &&& forall|i: int| 0 <= i < v.slots.len() ==> !(#[trigger] v.slots[i]).marked
        &&& pins_wf(v.pins)
        &&& distinct_refs(v.foreign_roots)
        &&& v.allocs_since_gc <= v.total_allocs
    }

    /// Room for one more allocation (machine limits of the counters and of
    /// 32-bit references).
    pub open spec fn can_alloc(&self) -> bool {
        &&& self@.total_allocs < u64::MAX
        &&& self@.free.len() > 0 || self@.slots.len() < u32::MAX
    }

    /// A heap whose collection threshold is 1024 allocations.
    pub fn new() -> (h: Heap)
        ensures
            h.wf(),
            h@.slots.len() == 0,
            h@.free.len() == 0,
            h@.gc_threshold == 1024,
            h@.gc_enabled,
            h@.foreign_roots.len() == 0,
            h@.pins.len() == 0,
            h@.total_allocs == 0,
            h@.allocs_since_gc == 0,
            h@.collections == 0,
            h@.total_freed == 0,
    {
        Heap::with_threshold(1024)
    }

    /// An empty heap with the given collection threshold.
    pub fn with_threshold(gc_threshold: usize) -> (h: Heap)
        ensures
            h.wf(),
            h@.slots.len() == 0,
            h@.free.len() == 0,
            h@.gc_threshold == gc_threshold,
            h@.gc_enabled,
            h@.foreign_roots.len() == 0,
            h@.pins.len() == 0,
            h@.total_allocs == 0,
            h@.allocs_since_gc == 0,
            h@.collections == 0,
            h@.total_freed == 0,
    {
        Heap {
            slots: Vec::new(),
            free: Vec::new(),
            gc_threshold,
            gc_enabled: true,
            foreign_roots: Vec::new(),
            pin_counts: Vec::new(),
            total_allocs: 0,
            allocs_since_gc: 0,
            collections: 0,
            total_freed: 0,
        }
    }

}

impl Default for Heap {
    /// The same heap as `Heap::new`.
    fn default() -> (h: Heap)
        ensures
            h.wf(),
            h@.slots.len() == 0,
            h@.free.len() == 0,
            h@.gc_threshold == 1024,
            h@.gc_enabled,
            h@.foreign_roots.len() == 0,
            h@.pins.len() == 0,
            h@.total_allocs == 0,
            h@.allocs_since_gc == 0,
            h@.collections == 0,
            h@.total_freed == 0,
    {
        Heap::new()
    }
}

impl Heap {
    fn alloc_obj(&mut self, obj: HeapObj) -> (r: GcRef)
        requires
            old(self).wf(),
            old(self).can_alloc(),
        ensures
            final(self).wf(),
            allocated(old(self)@, final(self)@, obj, r),
            (r.0 as int) < final(self)@.slots.len(),
    {
        self.total_allocs = self.total_allocs + 1;
        self.allocs_since_gc = self.allocs_since_gc + 1;
        let ghost old_free = self.free@;
        match self.free.pop() {
            Some(r) => {
                proof {
                    assert(old_free.last() == r);
                    assert(old_free.contains(r)) by {
                        assert(old_free[old_free.len() - 1] == r);
                    }
                }
                self.slots.set(r.0 as usize, Slot { obj, marked: false });
                proof {
                    assert forall|k: int| 0 <= k < self.free@.len() implies (#[trigger] self.free@[k]).0
                        < self.slots@.len() by {
                        assert(self.free@[k] == old_free[k]);
                    }
                }
                r
            },
            None => {
                let r = GcRef(self.slots.len() as u32);
                self.slots.push(Slot { obj, marked: false });
                r
            },
        }
    }

    /// Allocates the pair `(car . cdr)`.
    pub fn alloc_pair(&mut self, car: GcRef, cdr: GcRef) -> (r: GcRef)
        requires
            old(self).wf(),
            old(self).can_alloc(),
        ensures
            final(self).wf(),
            allocated(old(self)@, final(self)@, HeapObj::Pair(car, cdr), r),
    {
        self.alloc_obj(HeapObj::Pair(car, cdr))
    }

    /// Allocates a boxed string.
    pub fn alloc_str(&mut self, s: String) -> (r: GcRef)
        requires
            old(self).wf(),
            old(self).can_alloc(),
        ensures
            final(self).wf(),
            allocated(old(self)@, final(self)@, HeapObj::Str(s), r),
    {
        self.alloc_obj(HeapObj::Str(s))
    }

    /// Allocates a boxed integer.
    pub fn alloc_int(&mut self, v: i64) -> (r: GcRef)
        requires
            old(self).wf(),
            old(self).can_alloc(),
        ensures
            final(self).wf(),
            allocated(old(self)@, final(self)@, HeapObj::Int(v), r),
    {
        self.alloc_obj(HeapObj::Int(v))
    }

    /// Allocates a boxed float, given by its bit pattern.
    pub fn alloc_float(&mut self, bits: u64) -> (r: GcRef)
        requires
            old(self).wf(),
            old(self).can_alloc(),
        ensures
            final(self).wf(),
            allocated(old(self)@, final(self)@, HeapObj::Float(bits), r),
    {
        self.alloc_obj(HeapObj::Float(bits))
    }

    /// Allocates a boxed boolean.
    pub fn alloc_bool(&mut self, v: bool) -> (r: GcRef)
        requires
            old(self).wf(),
            old(self).can_alloc(),
        ensures
            final(self).wf(),
            allocated(old(self)@, final(self)@, HeapObj::Bool(v), r),
    {
        self.alloc_obj(HeapObj::Bool(v))
    }

    /// Allocates a boxed nil.
    pub fn alloc_nil(&mut self) -> (r: GcRef)
        requires
            old(self).wf(),
            old(self).can_alloc(),
        ensures
            final(self).wf(),
            allocated(old(self)@, final(self)@, HeapObj::Nil, r),
    {
        self.alloc_obj(HeapObj::Nil)
    }

    /// Allocates a boxed symbol.
    pub fn alloc_symbol(&mut self, s: String) -> (r: GcRef)
        requires
            old(self).wf(),
            old(self).can_alloc(),
        ensures
            final(self).wf(),
            allocated(old(self)@, final(self)@, HeapObj::Symbol(s), r),
    {
        self.alloc_obj(HeapObj::Symbol(s))
    }

    /// Allocates a boxed foreign value.
    pub fn alloc_foreign(&mut self, b: ForeignBox) -> (r: GcRef)
        requires
            old(self).wf(),
            old(self).can_alloc(),
        ensures
            final(self).wf(),
            allocated(old(self)@, final(self)@, HeapObj::Foreign(b), r),
    {
        self.alloc_obj(HeapObj::Foreign(b))
    }

    /// Boxes an immediate value.
    pub fn alloc_boxed(&mut self, v: BoxedInput) -> (r: GcRef)
        requires
            old(self).wf(),
            old(self).can_alloc(),
        ensures
            final(self).wf(),
            allocated(old(self)@, final(self)@, boxed_obj(v), r),
    {
        match v {
            BoxedInput::Str(s) => self.alloc_obj(HeapObj::Str(s)),
            BoxedInput::Int(i) => self.alloc_obj(HeapObj::Int(i)),
            BoxedInput::Float(f) => self.alloc_obj(HeapObj::Float(f)),
            BoxedInput::Bool(b) => self.alloc_obj(HeapObj::Bool(b)),
            BoxedInput::Nil => self.alloc_obj(HeapObj::Nil),
            BoxedInput::Foreign(b) => self.alloc_obj(HeapObj::Foreign(b)),
        }
    }

    /// The slot that `r` names, if it is in range.
    pub fn get(&self, r: GcRef) -> (s: Option<&Slot>)
        ensures
            (r.0 as int) < self@.slots.len() ==> s == Some(&self@.slots[r.0 as int]),
            (r.0 as int) >= self@.slots.len() ==> s.is_none(),
    {
        if (r.0 as usize) < self.slots.len() {
            Some(&self.slots[r.0 as usize])
        } else {
            None
        }
    }

    /// The components of the pair that `r` names; `None` when `r` is out of
    /// range or names another kind of object.
    pub fn get_pair(&self, r: GcRef) -> (p: Option<(GcRef, GcRef)>)
        ensures
            p == (if (r.0 as int) < self@.slots.len() {
                match self@.slots[r.0 as int].obj {
                    HeapObj::Pair(a, b) => Some((a, b)),
                    _ => None,
                }
            } else {
                None
            }),
    {
        match self.get(r) {
            Some(s) => match &s.obj {
                HeapObj::Pair(a, b) => Some((*a, *b)),
                _ => None,
            },
            None => None,
        }
    }

    /// What the slot `r` holds, as a value description.
    pub fn unbox(&self, r: GcRef) -> (v: Option<ValueSlot>)
        ensures
            (r.0 as int) < self@.slots.len() ==> v is Some && describes(
                v->0,
                self@.slots[r.0 as int].obj,
            ),
            (r.0 as int) >= self@.slots.len() ==> v.is_none(),
    {
        match self.get(r) {
            Some(s) => Some(
                match &s.obj {
                    HeapObj::Pair(_, _) => ValueSlot::Pair,
                    HeapObj::Str(v) => ValueSlot::Str(v.clone()),
                    HeapObj::Int(v) => ValueSlot::Int(*v),
                    HeapObj::Float(v) => ValueSlot::Float(*v),
                    HeapObj::Bool(v) => ValueSlot::Bool(*v),
                    HeapObj::Symbol(v) => ValueSlot::Symbol(v.clone()),
                    HeapObj::Nil => ValueSlot::Nil,
                    HeapObj::Foreign(b) => ValueSlot::Foreign(copy_foreign(b)),
                },
            ),
            None => None,
        }
    }

    /// Number of slots (free ones included).
    pub fn slot_count(&self) -> (n: usize)
        ensures
            n == self@.slots.len(),
    {
        self.slots.len()
    }

    /// Number of free slots.
    pub fn free_count(&self) -> (n: usize)
        ensures
            n == self@.free.len(),
    {
        self.free.len()
    }

    /// Turns automatic collection on or off.
    pub fn set_gc_enabled(&mut self, enabled: bool)
        requires
            old(self).wf(),
        ensures
            final(self).wf(),
            final(self)@ == (HeapView { gc_enabled: enabled, ..old(self)@ }),
    {
        self.gc_enabled = enabled;
    }

    /// Whether a collection is due: collection is enabled and more
    /// allocations than the threshold happened since the last one.
    pub fn should_collect(&self) -> (b: bool)
        ensures
            b == (self@.gc_enabled && self@.allocs_since_gc > self@.gc_threshold),
    {
        self.gc_enabled && self.allocs_since_gc > self.gc_threshold as u64
    }

    /// Registers a permanent foreign root (once).
    pub fn register_foreign_ref(&mut self, r: GcRef)
        requires
            old(self).wf(),
        ensures
            final(self).wf(),
            final(self)@ == (HeapView {
                foreign_roots: if old(self)@.foreign_roots.contains(r) {
                    old(self)@.foreign_roots
                } else {
                    old(self)@.foreign_roots.push(r)
                },
                ..old(self)@
            }),
    {
        let mut i: usize = 0;
        while i < self.foreign_roots.len()
            invariant
                self.wf(),
                self@ == old(self)@,
                0 <= i <= self.foreign_roots@.len(),
                forall|k: int| 0 <= k < i ==> self.foreign_roots@[k] != r,
            decreases self.foreign_roots@.len() - i,
        {
            if self.foreign_roots[i] == r {
                proof {
                    assert(self.foreign_roots@[i as int] == r);
                }
                return;
            }
            i = i + 1;
        }
        proof {
            assert(!self.foreign_roots@.contains(r));
        }
        self.foreign_roots.push(r);
    }

    /// The registered foreign roots.
    pub fn foreign_roots(&self) -> (s: &[GcRef])
        ensures
            s@ == self@.foreign_roots,
    {
        self.foreign_roots.as_slice()
    }

    /// The heap's statistics.
    pub fn stats(&self) -> (s: GcStats)
        requires
            self.wf(),
        ensures
            s == spec_stats(self@),
    {
        GcStats {
            slots: self.slots.len(),
            free: self.free.len(),
            live: self.slots.len() - self.free.len(),
            total_allocs: self.total_allocs,
            collections: self.collections,
            total_freed: self.total_freed,
        }
    }
}


/// With distinct keys, the pin count of the reference of entry `k` is that
/// entry's count.
pub proof fn lemma_pin_count_at(pins: Seq<(GcRef, u32)>, k: int)
    requires
        pins_wf(pins),
        0 <= k < pins.len(),
    ensures
        pin_count_of(pins, pins[k].0) == pins[k].1,
{
    let r = pins[k].0;
    assert(exists|j: int| 0 <= j < pins.len() && pins[j].0 == r);
    let c = choose|j: int| 0 <= j < pins.len() && pins[j].0 == r;
    assert(c == k);
}

/// What pinning `r` does to the heap: its count goes up by one, a new
/// entry goes last, and nothing else changes.
pub open spec fn pin_effect(old: HeapView, new: HeapView, r: GcRef) -> bool {
    &&& forall|g: GcRef|
        pin_count_of(new.pins, g) == if g == r {
            pin_count_of(old.pins, g) + 1int
        } else {
            pin_count_of(old.pins, g) as int
        }
    &&& pin_keys(new.pins) == if pin_keys(old.pins).contains(r) {
        pin_keys(old.pins)
    } else {
        pin_keys(old.pins).push(r)
    }
    &&& new == (HeapView { pins: new.pins, ..old })
}

/// What a successful unpin of `r` does to the heap: its count goes down by
/// one, its entry leaves when the count reaches 0, and nothing else changes.
pub open spec fn unpin_effect(old: HeapView, new: HeapView, r: GcRef) -> bool {
    &&& forall|g: GcRef|
        pin_count_of(new.pins, g) == if g == r {
            pin_count_of(old.pins, g) - 1
        } else {
            pin_count_of(old.pins, g) as int
        }
    &&& pin_count_of(old.pins, r) == 1 ==> exists|k: int|
        0 <= k < old.pins.len() && old.pins[k].0 == r && pin_keys(new.pins) == pin_keys(old.pins).remove(k)
    &&& pin_count_of(old.pins, r) > 1 ==> pin_keys(new.pins) == pin_keys(old.pins)
    &&& new == (HeapView { pins: new.pins, ..old })
}

/// Pinning an object and then unpinning it gives the heap back as it was:
/// the same pin counts, the same pinned references in the same order, and
/// nothing else changed.
pub proof fn lemma_pin_then_unpin(h0: HeapView, h1: HeapView, h2: HeapView, r: GcRef)
    requires
        pins_wf(h0.pins),
        pins_wf(h1.pins),
        pins_wf(h2.pins),
        pin_effect(h0, h1, r),
        unpin_effect(h1, h2, r),
    ensures
        h2 == h0,
{
    lemma_pin_count_positive(h0.pins, r);
    lemma_pin_count_positive(h1.pins, r);
    let k0 = pin_keys(h0.pins);
    let k1 = pin_keys(h1.pins);
    if !k0.contains(r) {
        assert(pin_count_of(h1.pins, r) == 1);
        let k = choose|k: int|
            0 <= k < h1.pins.len() && h1.pins[k].0 == r && pin_keys(h2.pins) == pin_keys(h1.pins).remove(k);
        assert(k1[k] == r);
        assert(k1[k1.len() - 1] == r);
        if k != k1.len() - 1 {
            assert(h1.pins[k].0 == h1.pins[k1.len() - 1].0);
        }
        assert(k1.remove(k) =~= k0);
    }
    assert(pin_keys(h2.pins) =~= k0);
    assert(h2.pins.len() == h0.pins.len());
    assert forall|i: int| 0 <= i < h0.pins.len() implies h2.pins[i] == h0.pins[i] by {
        assert(pin_keys(h2.pins)[i] == k0[i]);
        lemma_pin_count_at(h0.pins, i);
        lemma_pin_count_at(h2.pins, i);
    }
    assert(h2.pins =~= h0.pins);
}

/// A reference without an entry has pin count 0.
pub proof fn lemma_pin_count_absent(pins: Seq<(GcRef, u32)>, r: GcRef)
    requires
        forall|j: int| 0 <= j < pins.len() ==> pins[j].0 != r,
    ensures
        pin_count_of(pins, r) == 0,
{
}

/// The pin count of `r` is positive exactly when `r` has an entry.
pub proof fn lemma_pin_count_positive(pins: Seq<(GcRef, u32)>, r: GcRef)
    requires
        pins_wf(pins),
    ensures
        pin_count_of(pins, r) > 0 <==> pin_keys(pins).contains(r),
{
    if exists|j: int| 0 <= j < pins.len() && pins[j].0 == r {
        let k = choose|j: int| 0 <= j < pins.len() && pins[j].0 == r;
        lemma_pin_count_at(pins, k);
        assert(pin_keys(pins)[k] == r);
    } else {
        if pin_keys(pins).contains(r) {
            let k = choose|j: int| 0 <= j < pin_keys(pins).len() && pin_keys(pins)[j] == r;
            assert(pins[k].0 == r);
        }
    }
}

impl Heap {
    fn find_pin(&self, r: GcRef) -> (k: Option<usize>)
        requires
            self.wf(),
        ensures
            match k {
                Some(i) => i < self@.pins.len() && self@.pins[i as int].0 == r,
                None => forall|j: int| 0 <= j < self@.pins.len() ==> self@.pins[j].0 != r,
            },
    {
        let mut i: usize = 0;
        while i < self.pin_counts.len()
            invariant
                0 <= i <= self.pin_counts@.len(),
                forall|j: int| 0 <= j < i ==> self.pin_counts@[j].0 != r,
            decreases self.pin_counts@.len() - i,
        {
            if self.pin_counts[i].0 == r {
                return Some(i);
            }
            i = i + 1;
        }
        None
    }

    /// Pins `r`: its pin count grows by one (an entry with count 1 is added
    /// at the end when it had none).  Pinned references are collection roots.
    pub fn pin_object(&mut self, r: GcRef)
        requires
            old(self).wf(),
            pin_count_of(old(self)@.pins, r) < u32::MAX,
        ensures
            final(self).wf(),
            forall|g: GcRef|
                pin_count_of(final(self)@.pins, g) == if g == r {
                    pin_count_of(old(self)@.pins, g) + 1int
                } else {
                    pin_count_of(old(self)@.pins, g) as int
                },
            pin_keys(final(self)@.pins) == if pin_keys(old(self)@.pins).contains(r) {
                pin_keys(old(self)@.pins)
            } else {
                pin_keys(old(self)@.pins).push(r)
            },
            final(self)@ == (HeapView { pins: final(self)@.pins, ..old(self)@ }),
            pin_effect(old(self)@, final(self)@, r),
    {
        let ghost old_pins = self.pin_counts@;
        proof {
            lemma_pin_count_positive(old_pins, r);
        }
        match self.find_pin(r) {
            Some(k) => {
                let c = self.pin_counts[k].1;
                proof {
                    lemma_pin_count_at(old_pins, k as int);
                }
                self.pin_counts.set(k, (r, c + 1));
                let ghost new_pins = self.pin_counts@;
                proof {
                    assert(pins_wf(new_pins));
                    assert forall|g: GcRef|
                        pin_count_of(new_pins, g) == if g == r {
                            pin_count_of(old_pins, g) + 1int
                        } else {
                            pin_count_of(old_pins, g) as int
                        } by {
                        if g == r {
                            lemma_pin_count_at(new_pins, k as int);
                        } else if exists|j: int| 0 <= j < old_pins.len() && old_pins[j].0 == g {
                            let j = choose|j: int| 0 <= j < old_pins.len() && old_pins[j].0 == g;
                            lemma_pin_count_at(old_pins, j);
                            lemma_pin_count_at(new_pins, j);
                        } else {
                            lemma_pin_count_absent(new_pins, g);
                        }
                    }
                    assert(pin_keys(new_pins) =~= pin_keys(old_pins));
                }
            },
            None => {
                self.pin_counts.push((r, 1));
                let ghost new_pins = self.pin_counts@;
                proof {
                    assert(pins_wf(new_pins));
                    assert forall|g: GcRef|
                        pin_count_of(new_pins, g) == if g == r {
                            pin_count_of(old_pins, g) + 1int
                        } else {
                            pin_count_of(old_pins, g) as int
                        } by {
                        if g == r {
                            lemma_pin_count_at(new_pins, old_pins.len() as int);
                        } else if exists|j: int| 0 <= j < old_pins.len() && old_pins[j].0 == g {
                            let j = choose|j: int| 0 <= j < old_pins.len() && old_pins[j].0 == g;
                            lemma_pin_count_at(old_pins, j);
                            lemma_pin_count_at(new_pins, j);
                        } else {
                            lemma_pin_count_absent(new_pins, g);
                        }
                    }
                    assert(pin_keys(new_pins) =~= pin_keys(old_pins).push(r));
                }
            },
        }
    }

    /// Unpins `r`: its pin count drops by one and its entry goes when the
    /// count reaches 0 (the slot becomes collectable from the next
    /// collection on).  Unpinning a reference whose count is 0 is an error
    /// and changes nothing.
    pub fn unpin_object(&mut self, r: GcRef) -> (res: Result<(), RuntimeError>)
        requires
            old(self).wf(),
        ensures
            final(self).wf(),
            pin_count_of(old(self)@.pins, r) == 0 ==> {
                &&& res is Err
                &&& res->Err_0.message@ == unpin_underflow_message()
                &&& final(self)@ == old(self)@
            },
            pin_count_of(old(self)@.pins, r) > 0 ==> {
                &&& res is Ok
                &&& forall|g: GcRef|
                    pin_count_of(final(self)@.pins, g) == if g == r {
                        pin_count_of(old(self)@.pins, g) - 1
                    } else {
                        pin_count_of(old(self)@.pins, g) as int
                    }
                &&& pin_count_of(old(self)@.pins, r) == 1 ==> exists|k: int|
                    0 <= k < old(self)@.pins.len() && old(self)@.pins[k].0 == r && pin_keys(
                        final(self)@.pins,
                    ) == pin_keys(old(self)@.pins).remove(k)
                &&& pin_count_of(old(self)@.pins, r) > 1 ==> pin_keys(final(self)@.pins)
                    == pin_keys(old(self)@.pins)
                &&& final(self)@ == (HeapView { pins: final(self)@.pins, ..old(self)@ })
                &&& unpin_effect(old(self)@, final(self)@, r)
            },
    {
        let ghost old_pins = self.pin_counts@;
        match self.find_pin(r) {
            None => {
                proof {
                    lemma_pin_count_absent(old_pins, r);
                }
                Err(RuntimeError::new("pin 计数下溢（E8 口径——边界实现簿记缺陷，结构配对保证不可达）"))
            },
            Some(k) => {
                proof {
                    lemma_pin_count_at(old_pins, k as int);
                }
                let c = self.pin_counts[k].1;
                if c == 1 {
                    self.pin_counts.remove(k);
                    let ghost new_pins = self.pin_counts@;
                    proof {
                        assert(new_pins =~= old_pins.remove(k as int));
                        assert(pins_wf(new_pins)) by {
                            assert forall|i: int, j: int|
                                0 <= i < new_pins.len() && 0 <= j < new_pins.len() && i != j
                                    implies new_pins[i].0 != new_pins[j].0 by {
                                let oi = if i < k { i } else { i + 1 };
                                let oj = if j < k { j } else { j + 1 };
                                assert(new_pins[i] == old_pins[oi]);
                                assert(new_pins[j] == old_pins[oj]);
                            }
                            assert forall|i: int| 0 <= i < new_pins.len() implies new_pins[i].1
                                > 0 by {
                                let oi = if i < k { i } else { i + 1 };
                                assert(new_pins[i] == old_pins[oi]);
                            }
                        }
                        assert forall|g: GcRef|
                            pin_count_of(new_pins, g) == if g == r {
                                pin_count_of(old_pins, g) - 1
                            } else {
                                pin_count_of(old_pins, g) as int
                            } by {
                            if g == r {
                                assert forall|j: int| 0 <= j < new_pins.len() implies new_pins[j].0
                                    != g by {
                                    let oj = if j < k { j } else { j + 1 };
                                    assert(new_pins[j] == old_pins[oj]);
                                }
                                lemma_pin_count_absent(new_pins, g);
                            } else if exists|j: int| 0 <= j < old_pins.len() && old_pins[j].0 == g {
                                let j = choose|j: int| 0 <= j < old_pins.len() && old_pins[j].0 == g;
                                assert(j != k);
                                lemma_pin_count_at(old_pins, j);
                                let nj = if j < k { j } else { j - 1 };
                                assert(new_pins[nj] == old_pins[j]);
                                lemma_pin_count_at(new_pins, nj);
                            } else {
                                assert forall|j: int| 0 <= j < new_pins.len() implies new_pins[j].0
                                    != g by {
                                    let oj = if j < k { j } else { j + 1 };
                                    assert(new_pins[j] == old_pins[oj]);
                                }
                                lemma_pin_count_absent(new_pins, g);
                            }
                        }
                        assert(pin_keys(new_pins) =~= pin_keys(old_pins).remove(k as int));
                    }
                } else {
                    self.pin_counts.set(k, (r, c - 1));
                    let ghost new_pins = self.pin_counts@;
                    proof {
                        assert(pins_wf(new_pins));
                        assert forall|g: GcRef|
                            pin_count_of(new_pins, g) == if g == r {
                                pin_count_of(old_pins, g) - 1
                            } else {
                                pin_count_of(old_pins, g) as int
                            } by {
                            if g == r {
                                lemma_pin_count_at(new_pins, k as int);
                            } else if exists|j: int| 0 <= j < old_pins.len() && old_pins[j].0 == g {
                                let j = choose|j: int| 0 <= j < old_pins.len() && old_pins[j].0 == g;
                                lemma_pin_count_at(old_pins, j);
                                lemma_pin_count_at(new_pins, j);
                            } else {
                                lemma_pin_count_absent(new_pins, g);
                            }
                        }
                        assert(pin_keys(new_pins) =~= pin_keys(old_pins));
                    }
                }
                Ok(())
            },
        }
    }

    /// The pin count of `r` (0 when it is not pinned).
    pub fn pin_count(&self, r: GcRef) -> (c: u32)
        requires
            self.wf(),
        ensures
            c == pin_count_of(self@.pins, r),
    {
        match self.find_pin(r) {
            Some(k) => {
                proof {
                    lemma_pin_count_at(self@.pins, k as int);
                }
                self.pin_counts[k].1
            },
            None => {
                proof {
                    lemma_pin_count_absent(self@.pins, r);
                }
                0
            },
        }
    }

    /// The pinned references, in the order they were first pinned.
    pub fn pinned_refs(&self) -> (v: Vec<GcRef>)
        ensures
            v@ == pin_keys(self@.pins),
    {
        let mut v: Vec<GcRef> = Vec::new();
        let mut i: usize = 0;
        while i < self.pin_counts.len()
            invariant
                0 <= i <= self.pin_counts@.len(),
                v@ == pin_keys(self.pin_counts@).subrange(0, i as int),
            decreases self.pin_counts@.len() - i,
        {
            v.push(self.pin_counts[i].0);
            i = i + 1;
            proof {
                assert(v@ =~= pin_keys(self.pin_counts@).subrange(0, i as int));
            }
        }
        proof {
            assert(v@ =~= pin_keys(self.pin_counts@));
        }
        v
    }
}

/// The message of an unpin without a matching pin.
pub open spec fn unpin_underflow_message() -> Seq<char> {
    "pin 计数下溢（E8 口径——边界实现簿记缺陷，结构配对保证不可达）"@
}


/// Appends `items` to `work`.
fn push_all(work: &mut Vec<GcRef>, items: &Vec<GcRef>)
    ensures
        final(work)@ == old(work)@ + items@,
{
    let ghost start = work@;
    let mut i: usize = 0;
    while i < items.len()
        invariant
            0 <= i <= items@.len(),
            work@ == start + items@.subrange(0, i as int),
        decreases items@.len() - i,
    {
        work.push(items[i]);
        i = i + 1;
        proof {
            assert(work@ =~= start + items@.subrange(0, i as int));
        }
    }
    proof {
        assert(items@.subrange(0, i as int) =~= items@);
    }
}

/// Appends the references of a pin book to `work`.
fn push_pin_keys(work: &mut Vec<GcRef>, pins: &Vec<(GcRef, u32)>)
    ensures
        final(work)@ == old(work)@ + pin_keys(pins@),
{
    let ghost start = work@;
    let mut i: usize = 0;
    while i < pins.len()
        invariant
            0 <= i <= pins@.len(),
            work@ == start + pin_keys(pins@).subrange(0, i as int),
        decreases pins@.len() - i,
    {
        work.push(pins[i].0);
        i = i + 1;
        proof {
            assert(work@ =~= start + pin_keys(pins@).subrange(0, i as int));
        }
    }
    proof {
        assert(pin_keys(pins@).subrange(0, i as int) =~= pin_keys(pins@));
    }
}

/// A reachable slot's in-range successor is reachable.
pub proof fn lemma_reachable_step(slots: Seq<Slot>, starts: Seq<GcRef>, j: int, t: GcRef)
    requires
        reachable(slots, starts, j),
        obj_edge(slots[j].obj, t),
        (t.0 as int) < slots.len(),
    ensures
        reachable(slots, starts, t.0 as int),
{
    assert forall|m: Set<int>| #[trigger] closed_under(slots, starts, m) implies m.contains(
        t.0 as int,
    ) by {
        assert(m.contains(j));
    }
}

/// An in-range start is reachable.
pub proof fn lemma_reachable_start(slots: Seq<Slot>, starts: Seq<GcRef>, k: int)
    requires
        0 <= k < starts.len(),
        (starts[k].0 as int) < slots.len(),
    ensures
        reachable(slots, starts, starts[k].0 as int),
{
    assert forall|m: Set<int>| #[trigger] closed_under(slots, starts, m) implies m.contains(
        starts[k].0 as int,
    ) by {}
}

impl Heap {
    /// Room for one more collection in the statistics counters.
    pub open spec fn can_collect(&self) -> bool {
        &&& self@.collections < u64::MAX
        &&& self@.total_freed + self@.slots.len() <= u64::MAX
    }

    /// One mark-sweep collection (see `gc::mark_sweep_cycle`).
    pub fn collect(&mut self, roots: &crate::gc::RootSet) -> (stats: GcStats)
        requires
            old(self).wf(),
            old(self).can_collect(),
        ensures
            final(self).wf(),
            collected(old(self)@, final(self)@, roots.refs@),
            stats == spec_stats(final(self)@),
    {
        let n = self.slots.len();
        let ghost slots = self.slots@;
        // 1. mark, with an explicit work list
        let mut work: Vec<GcRef> = Vec::new();
        push_all(&mut work, &roots.refs);
        push_all(&mut work, &self.foreign_roots);
        push_pin_keys(&mut work, &self.pin_counts);
        let ghost starts = work@;
        proof {
            assert(starts =~= collection_starts(self@, roots.refs@));
        }
        let mut marks: Vec<bool> = Vec::new();
        let mut z: usize = 0;
        while z < n
            invariant
                0 <= z <= n,
                marks@.len() == z,
                forall|i: int| 0 <= i < z ==> !marks@[i],
            decreases n - z,
        {
            marks.push(false);
            z = z + 1;
        }
        let ghost mut mset: Set<int> = Set::empty();
        proof {
            assert forall|k: int|
                0 <= k < starts.len() && (starts[k].0 as int) < n implies marks@[starts[k].0 as int]
                || work@.contains(#[trigger] starts[k]) by {
                assert(work@[k] == starts[k]);
            }
        }
        while work.len() > 0
            invariant
                n == slots.len(),
                slots == self.slots@,
                marks@.len() == n,
                mset.finite(),
                mset.len() <= n,
                forall|i: int| #[trigger] mset.contains(i) <==> 0 <= i < n && marks@[i],
                forall|i: int| 0 <= i < n && #[trigger] marks@[i] ==> reachable(slots, starts, i),
                forall|k: int|
                    0 <= k < work@.len() && (work@[k].0 as int) < n ==> reachable(
                        slots,
                        starts,
                        #[trigger] work@[k].0 as int,
                    ),
                forall|k: int|
                    0 <= k < starts.len() && (starts[k].0 as int) < n ==> marks@[starts[k].0 as int]
                        || work@.contains(#[trigger] starts[k]),
                forall|j: int, t: GcRef|
                    #![trigger marks@[j], obj_edge(slots[j].obj, t)]
                    0 <= j < n && marks@[j] && obj_edge(slots[j].obj, t) && (t.0 as int) < n
                        ==> marks@[t.0 as int] || work@.contains(t),
            decreases n - mset.len(), work@.len(),
        {
            let ghost old_work = work@;
            let ghost old_marks = marks@;
            let r = work.pop().unwrap();
            proof {
                assert(old_work.last() == r);
                assert(work@ == old_work.drop_last());
                assert forall|t: GcRef| old_work.contains(t) && t != r implies work@.contains(t) by {
                    let k = choose|k: int| 0 <= k < old_work.len() && old_work[k] == t;
                    assert(k != old_work.len() - 1);
                    assert(work@[k] == t);
                }
            }
            let i = r.0 as usize;
            if i < n && !marks[i] {
                proof {
                    assert(reachable(slots, starts, i as int)) by {
                        assert(old_work[old_work.len() - 1] == r);
                    }
                }
                marks.set(i, true);
                proof {
                    let old_mset = mset;
                    mset = mset.insert(i as int);
                    assert(mset.subset_of(set_int_range(0, n as int)));
                    lemma_int_range(0, n as int);
                    lemma_len_subset(mset, set_int_range(0, n as int));
                    assert(!old_mset.contains(i as int));
                }
                let ghost before_children = work@;
                match &self.slots[i].obj {
                    HeapObj::Pair(a, b) => {
                        work.push(*a);
                        work.push(*b);
                        proof {
                            assert(work@ == before_children.push(*a).push(*b));
                            assert(work@[work@.len() - 2] == *a);
                            assert(work@[work@.len() - 1] == *b);
                        }
                    },
                    HeapObj::Foreign(f) => {
                        push_all(&mut work, &f.children);
                        proof {
                            assert forall|t: GcRef| f.children@.contains(t) implies work@.contains(
                                t,
                            ) by {
                                let k = choose|k: int| 0 <= k < f.children@.len() && f.children@[k] == t;
                                assert(work@[before_children.len() + k] == t);
                            }
                        }
                    },
                    _ => {},
                }
                proof {
                    assert forall|t: GcRef| before_children.contains(t) implies work@.contains(t) by {
                        let k = choose|k: int| 0 <= k < before_children.len() && before_children[k] == t;
                        assert(work@[k] == t);
                    }
                    assert forall|t: GcRef|
                        obj_edge(slots[i as int].obj, t) && (t.0 as int) < n implies work@.contains(
                        t,
                    ) by {}
                    assert forall|k: int|
                        0 <= k < work@.len() && (work@[k].0 as int) < n implies reachable(
                        slots,
                        starts,
                        #[trigger] work@[k].0 as int,
                    ) by {
                        if k < before_children.len() {
                            assert(work@[k] == old_work[k]);
                        } else {
                            let t = work@[k];
                            assert(obj_edge(slots[i as int].obj, t)) by {
                                match slots[i as int].obj {
                                    HeapObj::Foreign(f) => {
                                        assert(f.children@[k - before_children.len()] == t);
                                    },
                                    _ => {},
                                }
                            }
                            lemma_reachable_step(slots, starts, i as int, t);
                        }
                    }
                    assert forall|k: int|
                        0 <= k < starts.len() && (starts[k].0 as int) < n implies marks@[starts[k].0 as int]
                        || work@.contains(#[trigger] starts[k]) by {
                        if starts[k] != r {
                            if !old_marks[starts[k].0 as int] {
                                assert(old_work.contains(starts[k]));
                            }
                        }
                    }
                    assert forall|j: int, t: GcRef|
                        0 <= j < n && #[trigger] marks@[j] && #[trigger] obj_edge(slots[j].obj, t)
                            && (t.0 as int) < n implies marks@[t.0 as int] || work@.contains(t) by {
                        if j != i {
                            assert(old_marks[j]);
                            if t != r && !old_marks[t.0 as int] {
                                assert(old_work.contains(t));
                            }
                        }
                    }
                }
            } else {
                proof {
                    assert forall|k: int|
                        0 <= k < starts.len() && (starts[k].0 as int) < n implies marks@[starts[k].0 as int]
                        || work@.contains(#[trigger] starts[k]) by {
                        if starts[k] != r && !marks@[starts[k].0 as int] {
                            assert(old_work.contains(starts[k]));
                        }
                    }
                    assert forall|j: int, t: GcRef|
                        0 <= j < n && #[trigger] marks@[j] && #[trigger] obj_edge(slots[j].obj, t)
                            && (t.0 as int) < n implies marks@[t.0 as int] || work@.contains(t) by {
                        if t != r && !marks@[t.0 as int] {
                            assert(old_work.contains(t));
                        }
                    }
                    assert forall|k: int|
                        0 <= k < work@.len() && (work@[k].0 as int) < n implies reachable(
                        slots,
                        starts,
                        #[trigger] work@[k].0 as int,
                    ) by {
                        assert(work@[k] == old_work[k]);
                    }
                }
            }
        }
        // every reachable slot is marked: the marked set is closed
        proof {
            assert(closed_under(slots, starts, mset)) by {
                assert forall|k: int|
                    0 <= k < starts.len() && (starts[k].0 as int) < slots.len() implies #[trigger] mset.contains(
                    starts[k].0 as int,
                ) by {
                    if !marks@[starts[k].0 as int] {
                        assert(work@.contains(starts[k]));
                    }
                }
                assert forall|j: int, t: GcRef|
                    mset.contains(j) && 0 <= j < slots.len() && obj_edge(slots[j].obj, t) && (t.0 as int)
                        < slots.len() implies mset.contains(t.0 as int) by {
                    assert(marks@[j]);
                    if !marks@[t.0 as int] {
                        assert(work@.contains(t));
                    }
                }
            }
            assert forall|i: int| 0 <= i < n implies (marks@[i] <==> reachable(slots, starts, i)) by {
                if reachable(slots, starts, i) {
                    assert(mset.contains(i));
                }
            }
        }
        // 2. sweep: the unmarked slots, in increasing order
        let mut new_free: Vec<GcRef> = Vec::new();
        let mut freed: u64 = 0;
        let mut i: usize = 0;
        while i < n
            invariant
                0 <= i <= n,
                n == slots.len(),
                n <= u32::MAX,
                marks@.len() == n,
                new_free@.len() <= i,
                freed == new_free@.len(),
                forall|k: int| 0 <= k < new_free@.len() ==> (#[trigger] new_free@[k].0 as int) < i && !marks@[new_free@[k].0 as int],
                forall|k1: int, k2: int| 0 <= k1 < k2 < new_free@.len() ==> new_free@[k1].0 < new_free@[k2].0,
                forall|j: int| 0 <= j < i && !#[trigger] marks@[j] ==> exists|k: int| 0 <= k < new_free@.len() && #[trigger] new_free@[k].0 == j,
            decreases n - i,
        {
            if !marks[i] {
                let ghost prev = new_free@;
                new_free.push(GcRef(i as u32));
                freed = freed + 1;
                proof {
                    assert forall|j: int| 0 <= j < i + 1 && !#[trigger] marks@[j] implies exists|k: int|
                        0 <= k < new_free@.len() && #[trigger] new_free@[k].0 == j by {
                        if j < i {
                            let k = choose|k: int| 0 <= k < prev.len() && #[trigger] prev[k].0 == j;
                            assert(new_free@[k] == prev[k]);
                        } else {
                            assert(new_free@[prev.len() as int].0 == j);
                        }
                    }
                    assert forall|k: int| 0 <= k < new_free@.len() implies (#[trigger] new_free@[k].0 as int) < i + 1 && !marks@[new_free@[k].0 as int] by {
                        if k < prev.len() { assert(new_free@[k] == prev[k]); }
                    }
                }
            } else {
                proof {
                    assert forall|j: int| 0 <= j < i + 1 && !#[trigger] marks@[j] implies exists|k: int|
                        0 <= k < new_free@.len() && #[trigger] new_free@[k].0 == j by {
                        assert(j < i);
                    }
                }
            }
            i = i + 1;
        }
        proof {
            let p = Set::new(|j: int| !reachable(slots, starts, j));
            assert(lists_exactly(new_free@, n as int, p)) by {
                assert forall|j: int| 0 <= j < n && #[trigger] p.contains(j) implies exists|k: int|
                    0 <= k < new_free@.len() && #[trigger] new_free@[k].0 == j by {
                    assert(!marks@[j]);
                }
            }
            assert(distinct_refs(new_free@)) by {
                assert forall|a: int, b: int|
                    0 <= a < new_free@.len() && 0 <= b < new_free@.len() && a != b implies new_free@[a]
                    != new_free@[b] by {
                    if a < b {
                        assert(new_free@[a].0 < new_free@[b].0);
                    } else {
                        assert(new_free@[b].0 < new_free@[a].0);
                    }
                }
            }
        }
        // 3. the marks were kept aside, so every slot is unmarked again
        self.free = new_free;
        self.total_freed = self.total_freed + freed;
        self.collections = self.collections + 1;
        self.allocs_since_gc = 0;
        self.stats()
    }
}

/// A copy of a foreign box (same handle, same children).
fn copy_foreign(b: &ForeignBox) -> (c: ForeignBox)
    ensures
        c.handle == b.handle,
        c.children@ == b.children@,
{
    let mut children: Vec<GcRef> = Vec::new();
    let mut i: usize = 0;
    while i < b.children.len()
        invariant
            0 <= i <= b.children@.len(),
            children@ == b.children@.subrange(0, i as int),
        decreases b.children@.len() - i,
    {
        children.push(b.children[i]);
        i = i + 1;
        proof {
            assert(children@ =~= b.children@.subrange(0, i as int));
        }
    }
    ForeignBox { handle: b.handle, children }
}

} // verus!

verus! {

/// Two increasing listings of the same slots agree up to position `k`.
proof fn lemma_listing_prefix(a: Seq<GcRef>, b: Seq<GcRef>, n: int, p: Set<int>, k: int)
    requires
        lists_exactly(a, n, p),
        lists_exactly(b, n, p),
        0 <= k <= a.len(),
        k <= b.len(),
    ensures
        forall|j: int| 0 <= j < k ==> a[j] == b[j],
    decreases k,
{
    if k > 0 {
        lemma_listing_prefix(a, b, n, p, k - 1);
        let x = a[k - 1];
        assert(p.contains(x.0 as int));
        let m = choose|m: int| 0 <= m < b.len() && #[trigger] b[m].0 == x.0;
        if m < k - 1 {
            assert(a[m] == b[m]);
            assert(a[m].0 < a[k - 1].0);
        } else if m > k - 1 {
            let y = b[k - 1];
            assert(y.0 < b[m].0);
            assert(p.contains(y.0 as int));
            let m2 = choose|m2: int| 0 <= m2 < a.len() && #[trigger] a[m2].0 == y.0;
            if m2 < k - 1 {
                assert(a[m2] == b[m2]);
                assert(b[m2].0 < b[k - 1].0);
            } else if m2 > k - 1 {
                assert(a[k - 1].0 < a[m2].0);
            }
        }
        assert(a[k - 1].0 == b[k - 1].0);
    }
}

/// A listing of exactly the slots of a set is unique: it is the increasing
/// enumeration of that set.
pub proof fn lemma_listing_unique(a: Seq<GcRef>, b: Seq<GcRef>, n: int, p: Set<int>)
    requires
        lists_exactly(a, n, p),
        lists_exactly(b, n, p),
    ensures
        a == b,
{
    if a.len() < b.len() {
        lemma_listing_prefix(a, b, n, p, a.len() as int);
        let x = b[a.len() as int];
        assert(p.contains(x.0 as int));
        let m = choose|m: int| 0 <= m < a.len() && #[trigger] a[m].0 == x.0;
        assert(b[m].0 < x.0);
    } else if b.len() < a.len() {
        lemma_listing_prefix(b, a, n, p, b.len() as int);
        let x = a[b.len() as int];
        assert(p.contains(x.0 as int));
        let m = choose|m: int| 0 <= m < b.len() && #[trigger] b[m].0 == x.0;
        assert(a[m].0 < x.0);
    } else {
        lemma_listing_prefix(a, b, n, p, a.len() as int);
        assert(a =~= b);
    }
}

/// A collection never frees a slot that is reachable from its roots, its
/// foreign roots or its pinned references, and frees every other slot.
pub proof fn lemma_collect_frees_exactly_unreachable(
    old: HeapView,
    new: HeapView,
    roots: Seq<GcRef>,
    i: int,
)
    requires
        collected(old, new, roots),
        old.slots.len() <= u32::MAX,
        0 <= i < old.slots.len(),
    ensures
        new.free.contains(GcRef(i as u32)) <==> !reachable(old.slots, collection_starts(old, roots), i),
{
    let p = Set::new(|j: int| !reachable(old.slots, collection_starts(old, roots), j));
    if new.free.contains(GcRef(i as u32)) {
        let k = choose|k: int| 0 <= k < new.free.len() && new.free[k] == GcRef(i as u32);
        assert(p.contains(new.free[k].0 as int));
    }
    if !reachable(old.slots, collection_starts(old, roots), i) {
        assert(p.contains(i));
        let k = choose|k: int| 0 <= k < new.free.len() && #[trigger] new.free[k].0 == i;
        assert(new.free[k] == GcRef(i as u32));
    }
}

/// A root slot survives a collection.
pub proof fn lemma_root_survives(old: HeapView, new: HeapView, roots: Seq<GcRef>, r: GcRef)
    requires
        collected(old, new, roots),
        old.slots.len() <= u32::MAX,
        roots.contains(r),
        (r.0 as int) < old.slots.len(),
    ensures
        !new.free.contains(r),
{
    let starts = collection_starts(old, roots);
    let k = choose|k: int| 0 <= k < roots.len() && roots[k] == r;
    assert(starts[k] == r);
    lemma_reachable_start(old.slots, starts, k);
    lemma_collect_frees_exactly_unreachable(old, new, roots, r.0 as int);
}

/// A pinned slot survives a collection, whatever the roots.
pub proof fn lemma_pinned_survives(old: HeapView, new: HeapView, roots: Seq<GcRef>, r: GcRef)
    requires
        collected(old, new, roots),
        old.slots.len() <= u32::MAX,
        pins_wf(old.pins),
        pin_count_of(old.pins, r) > 0,
        (r.0 as int) < old.slots.len(),
    ensures
        !new.free.contains(r),
{
    let starts = collection_starts(old, roots);
    lemma_pin_count_positive(old.pins, r);
    let k = choose|k: int| 0 <= k < pin_keys(old.pins).len() && pin_keys(old.pins)[k] == r;
    let idx = roots.len() + old.foreign_roots.len() + k;
    assert(starts[idx] == r);
    lemma_reachable_start(old.slots, starts, idx);
    lemma_collect_frees_exactly_unreachable(old, new, roots, r.0 as int);
}

/// A registered foreign root survives a collection, whatever the roots.
pub proof fn lemma_foreign_root_survives(old: HeapView, new: HeapView, roots: Seq<GcRef>, r: GcRef)
    requires
        collected(old, new, roots),
        old.slots.len() <= u32::MAX,
        old.foreign_roots.contains(r),
        (r.0 as int) < old.slots.len(),
    ensures
        !new.free.contains(r),
{
    let starts = collection_starts(old, roots);
    let k = choose|k: int| 0 <= k < old.foreign_roots.len() && old.foreign_roots[k] == r;
    assert(starts[roots.len() + k] == r);
    lemma_reachable_start(old.slots, starts, roots.len() + k);
    lemma_collect_frees_exactly_unreachable(old, new, roots, r.0 as int);
}

/// The pair components of a surviving pair survive too: a collection never
/// leaves a live object pointing at a freed slot.
pub proof fn lemma_survivor_children_survive(
    old: HeapView,
    new: HeapView,
    roots: Seq<GcRef>,
    i: int,
    t: GcRef,
)
    requires
        collected(old, new, roots),
        old.slots.len() <= u32::MAX,
        0 <= i < old.slots.len(),
        !new.free.contains(GcRef(i as u32)),
        obj_edge(old.slots[i].obj, t),
        (t.0 as int) < old.slots.len(),
    ensures
        !new.free.contains(t),
{
    let starts = collection_starts(old, roots);
    lemma_collect_frees_exactly_unreachable(old, new, roots, i);
    lemma_reachable_step(old.slots, starts, i, t);
    lemma_collect_frees_exactly_unreachable(old, new, roots, t.0 as int);
    assert(GcRef(t.0) == t);
}

/// Collecting again with the same roots frees exactly the same slots.
pub proof fn lemma_collect_idempotent(
    h0: HeapView,
    h1: HeapView,
    h2: HeapView,
    roots: Seq<GcRef>,
)
    requires
        collected(h0, h1, roots),
        collected(h1, h2, roots),
    ensures
        h2.free == h1.free,
        h2.slots == h0.slots,
{
    assert(collection_starts(h1, roots) == collection_starts(h0, roots));
    let p = Set::new(|j: int| !reachable(h0.slots, collection_starts(h0, roots), j));
    let q = Set::new(|j: int| !reachable(h1.slots, collection_starts(h1, roots), j));
    assert(p == q);
    lemma_listing_unique(h2.free, h1.free, h0.slots.len() as int, p);
}

/// Pinning and then unpinning a reference gives back every pin count
/// (`p1` is the pin book after `pin_object(r)` on `p0`, `p2` the book after
/// `unpin_object(r)` on `p1`).
pub proof fn lemma_pin_unpin_restores(
    p0: Seq<(GcRef, u32)>,
    p1: Seq<(GcRef, u32)>,
    p2: Seq<(GcRef, u32)>,
    r: GcRef,
)
    requires
        forall|g: GcRef|
            #[trigger] pin_count_of(p1, g) == if g == r {
                pin_count_of(p0, g) + 1int
            } else {
                pin_count_of(p0, g) as int
            },
        forall|g: GcRef|
            #[trigger] pin_count_of(p2, g) == if g == r {
                pin_count_of(p1, g) - 1
            } else {
                pin_count_of(p1, g) as int
            },
    ensures
        forall|g: GcRef| #[trigger] pin_count_of(p2, g) == pin_count_of(p0, g),
{
    assert forall|g: GcRef| #[trigger] pin_count_of(p2, g) == pin_count_of(p0, g) by {
        assert(pin_count_of(p1, g) == pin_count_of(p1, g));
    }
}

/// A float's bits encode NaN.
pub open spec fn is_nan_bits(x: u64) -> bool {
    (x >> 52u64) & 0x7ffu64 == 0x7ffu64 && x & 0xf_ffff_ffff_ffffu64 != 0
}

/// Two floats, by their bits, are equal as floats: neither is NaN, and
/// they are the same or both zero.
pub open spec fn float_eq(a: u64, b: u64) -> bool {
    !is_nan_bits(a) && !is_nan_bits(b) && (a == b || (a & 0x7fff_ffff_ffff_ffffu64 == 0
        && b & 0x7fff_ffff_ffff_ffffu64 == 0))
}

/// Float equality on bit patterns.
pub fn float_bits_eq(a: u64, b: u64) -> (r: bool)
    ensures
        r == float_eq(a, b),
{
    let a_nan = (a >> 52u64) & 0x7ffu64 == 0x7ffu64 && a & 0xf_ffff_ffff_ffffu64 != 0;
    let b_nan = (b >> 52u64) & 0x7ffu64 == 0x7ffu64 && b & 0xf_ffff_ffff_ffffu64 != 0;
    !a_nan && !b_nan && (a == b || (a & 0x7fff_ffff_ffff_ffffu64 == 0 && b & 0x7fff_ffff_ffff_ffffu64 == 0))
}

/// Value equality of heap objects: pairs by their references, strings
/// and symbols by their text, floats as floats, foreign boxes by handle;
/// objects of different kinds differ.
pub open spec fn obj_eq(a: HeapObj, b: HeapObj) -> bool {
    match (a, b) {
        (HeapObj::Pair(a1, b1), HeapObj::Pair(a2, b2)) => a1 == a2 && b1 == b2,
        (HeapObj::Str(x), HeapObj::Str(y)) => x@ == y@,
        (HeapObj::Int(x), HeapObj::Int(y)) => x == y,
        (HeapObj::Float(x), HeapObj::Float(y)) => float_eq(x, y),
        (HeapObj::Bool(x), HeapObj::Bool(y)) => x == y,
        (HeapObj::Symbol(x), HeapObj::Symbol(y)) => x@ == y@,
        (HeapObj::Nil, HeapObj::Nil) => true,
        (HeapObj::Foreign(x), HeapObj::Foreign(y)) => x.handle == y.handle,
        _ => false,
    }
}

/// Pairs, integers, booleans and nil are the same value exactly when they
/// are equal: a pair only when both its car and its cdr references are the
/// same.  Strings and symbols are the same value exactly when their texts
/// are.  Objects of different kinds are never the same value.
pub proof fn lemma_same_value_is_equality(a: HeapObj, b: HeapObj)
    ensures
        (a is Pair || a is Int || a is Bool || a is Nil) ==> (obj_eq(a, b) <==> a == b),
        (a is Str && b is Str) ==> (obj_eq(a, b) <==> a->Str_0@ == b->Str_0@),
        (a is Symbol && b is Symbol) ==> (obj_eq(a, b) <==> a->Symbol_0@ == b->Symbol_0@),
        (a is Foreign && b is Foreign) ==> (obj_eq(a, b) <==> a->Foreign_0.handle == b->Foreign_0.handle),
        obj_eq(a, b) ==> (a is Pair <==> b is Pair) && (a is Str <==> b is Str) && (a is Int <==> b is Int)
            && (a is Float <==> b is Float) && (a is Bool <==> b is Bool) && (a is Symbol <==> b is Symbol)
            && (a is Nil <==> b is Nil) && (a is Foreign <==> b is Foreign),
{
}

/// Floats are compared as numbers: a NaN (bits 0x7FF0_0000_0000_0001 to
/// 0x7FFF_FFFF_FFFF_FFFF, or the same with the sign bit set) is the same as
/// nothing, not even itself; +0.0 and -0.0 are the same; any other two
/// floats are the same exactly when their bits are.
pub proof fn lemma_float_same_value(x: u64, y: u64)
    ensures
        (0x7FF0_0000_0000_0001u64 <= x <= 0x7FFF_FFFF_FFFF_FFFFu64 || 0xFFF0_0000_0000_0001u64 <= x)
            ==> !obj_eq(HeapObj::Float(x), HeapObj::Float(y)),
        ((x == 0 || x == 0x8000_0000_0000_0000u64) && (y == 0 || y == 0x8000_0000_0000_0000u64))
            ==> obj_eq(HeapObj::Float(x), HeapObj::Float(y)),
        !(0x7FF0_0000_0000_0001u64 <= x <= 0x7FFF_FFFF_FFFF_FFFFu64 || 0xFFF0_0000_0000_0001u64 <= x)
            ==> obj_eq(HeapObj::Float(x), HeapObj::Float(x)),
        (!(0x7FF0_0000_0000_0001u64 <= x <= 0x7FFF_FFFF_FFFF_FFFFu64 || 0xFFF0_0000_0000_0001u64 <= x)
            && !(0x7FF0_0000_0000_0001u64 <= y <= 0x7FFF_FFFF_FFFF_FFFFu64 || 0xFFF0_0000_0000_0001u64 <= y)
            && x != 0 && x != 0x8000_0000_0000_0000u64) ==> (obj_eq(HeapObj::Float(x), HeapObj::Float(y))
            <==> x == y),
{
    assert(is_nan_bits(x) <==> (0x7FF0_0000_0000_0001u64 <= x <= 0x7FFF_FFFF_FFFF_FFFFu64 || 0xFFF0_0000_0000_0001u64
        <= x)) by (bit_vector);
    assert(is_nan_bits(y) <==> (0x7FF0_0000_0000_0001u64 <= y <= 0x7FFF_FFFF_FFFF_FFFFu64 || 0xFFF0_0000_0000_0001u64
        <= y)) by (bit_vector);
    assert((x & 0x7fff_ffff_ffff_ffffu64 == 0) <==> (x == 0 || x == 0x8000_0000_0000_0000u64)) by (bit_vector);
    assert((y & 0x7fff_ffff_ffff_ffffu64 == 0) <==> (y == 0 || y == 0x8000_0000_0000_0000u64)) by (bit_vector);
}

/// Two pairs are the same value exactly when their cars are the same
/// reference and their cdrs are the same reference.
pub proof fn lemma_pair_same_value(a1: GcRef, b1: GcRef, a2: GcRef, b2: GcRef)
    ensures
        obj_eq(HeapObj::Pair(a1, b1), HeapObj::Pair(a2, b2)) <==> (a1 == a2 && b1 == b2),
{
}

impl HeapObj {
    /// Whether two heap objects are the same value (see `obj_eq`).
    pub fn same_value(&self, other: &HeapObj) -> (b: bool)
        ensures
            b == obj_eq(*self, *other),
    {
        match (self, other) {
            (HeapObj::Pair(a1, b1), HeapObj::Pair(a2, b2)) => *a1 == *a2 && *b1 == *b2,
            (HeapObj::Str(x), HeapObj::Str(y)) => crate::text::same_text(x.as_str(), y.as_str()),
            (HeapObj::Int(x), HeapObj::Int(y)) => *x == *y,
            (HeapObj::Float(x), HeapObj::Float(y)) => float_bits_eq(*x, *y),
            (HeapObj::Bool(x), HeapObj::Bool(y)) => *x == *y,
            (HeapObj::Symbol(x), HeapObj::Symbol(y)) => crate::text::same_text(x.as_str(), y.as_str()),
            (HeapObj::Nil, HeapObj::Nil) => true,
            (HeapObj::Foreign(x), HeapObj::Foreign(y)) => x.handle == y.handle,
            _ => false,
        }
    }
}

} // verus!
