use kerf::gc::{mark_sweep_cycle, RootSet};
use kerf::heap::{ForeignBox, GcRef, Heap, HeapObj, ValueSlot};
use kerf::io::RuntimeError;

#[test]
fn runtime_error_shape() {
    let e = RuntimeError::new("boom");
    assert_eq!(e.message, "boom");
}

#[test]
fn alloc_reuses_free_slots() {
    let mut heap = Heap::new();
    let a = heap.alloc_pair(GcRef(0), GcRef(0));
    let b = heap.alloc_pair(GcRef(0), GcRef(0));
    assert_ne!(a, b);
    assert_eq!(heap.slot_count(), 2);
}

#[test]
fn collect_frees_unreachable() {
    let mut heap = Heap::new();
    let nil = heap.alloc_str(String::new());
    let two = heap.alloc_str("2".to_string());
    let one = heap.alloc_str("1".to_string());
    let _inner = heap.alloc_pair(two, nil);
    let outer = heap.alloc_pair(one, two);
    let roots = RootSet::from_refs(vec![outer]);
    let stats = heap.collect(&roots);
    assert_eq!(stats.free, 2);
    assert_eq!(stats.live, 3);
    assert_eq!(heap.stats().collections, 1);
    let x = heap.alloc_pair(GcRef(0), GcRef(0));
    assert!(x.0 < 5);
    assert_eq!(heap.free_count(), 1);
}

#[test]
fn unrooted_pairs_are_collected() {
    let mut heap = Heap::new();
    let a = heap.alloc_pair(GcRef(0), GcRef(0));
    let stats = heap.collect(&RootSet::new());
    assert_eq!(stats.free, 1);
    assert_eq!(a, GcRef(0));
}

#[test]
fn self_referencing_pair_from_root_survives() {
    let mut heap = Heap::new();
    let a = heap.alloc_pair(GcRef(0), GcRef(0));
    let stats = heap.collect(&RootSet::from_refs(vec![a]));
    assert_eq!(stats.live, 1);
    assert_eq!(stats.free, 0);
}

#[test]
fn deep_chain_no_stack_overflow() {
    let mut heap = Heap::with_threshold(usize::MAX);
    let nil = heap.alloc_str("nil".to_string());
    let mut head = nil;
    for _ in 0..100_000 {
        head = heap.alloc_pair(nil, head);
    }
    let stats = heap.collect(&RootSet::from_refs(vec![head]));
    assert_eq!(stats.live, 100_001);
    assert_eq!(stats.free, 0);
}

#[test]
fn foreign_roots_survive() {
    let mut heap = Heap::new();
    let s = heap.alloc_str("foreign".to_string());
    heap.register_foreign_ref(s);
    heap.register_foreign_ref(s);
    assert_eq!(heap.foreign_roots(), &[s]);
    let stats = heap.collect(&RootSet::from_refs(vec![]));
    assert_eq!(stats.live, 1);
}

#[test]
fn gc_disabled_stays_put() {
    let mut heap = Heap::new();
    heap.set_gc_enabled(false);
    let _ = heap.alloc_str("x".to_string());
    let stats = heap.collect(&RootSet::from_refs(vec![]));
    assert_eq!(stats.free, 1);
    assert!(!heap.should_collect());
}

#[test]
fn should_collect_after_threshold() {
    let mut heap = Heap::with_threshold(2);
    heap.alloc_int(1);
    heap.alloc_int(2);
    assert!(!heap.should_collect());
    heap.alloc_int(3);
    assert!(heap.should_collect());
    mark_sweep_cycle(&mut heap, &RootSet::new());
    assert!(!heap.should_collect());
}

#[test]
fn pinned_pair_survives_gc_cycle() {
    let mut heap = Heap::new();
    let s = heap.alloc_str("pinned".to_string());
    let p = heap.alloc_pair(s, s);
    heap.pin_object(p);
    mark_sweep_cycle(&mut heap, &RootSet::new());
    assert_eq!(heap.free_count(), 0);
    heap.unpin_object(p).expect("paired");
    mark_sweep_cycle(&mut heap, &RootSet::new());
    assert_eq!(heap.free_count(), 2);
}

#[test]
fn pin_counts_accumulate_and_underflow_is_an_error() {
    let mut heap = Heap::new();
    let a = heap.alloc_int(7);
    let b = heap.alloc_int(8);
    heap.pin_object(a);
    heap.pin_object(b);
    heap.pin_object(a);
    assert_eq!(heap.pin_count(a), 2);
    assert_eq!(heap.pinned_refs(), vec![a, b]);
    heap.unpin_object(a).unwrap();
    assert_eq!(heap.pin_count(a), 1);
    heap.unpin_object(a).unwrap();
    assert_eq!(heap.pin_count(a), 0);
    assert_eq!(heap.pinned_refs(), vec![b]);
    let err = heap.unpin_object(a).unwrap_err();
    assert!(err.message.contains("下溢"));
}

#[test]
fn foreign_children_are_traced() {
    let mut heap = Heap::new();
    let captured = heap.alloc_int(1);
    let lonely = heap.alloc_int(2);
    let f = heap.alloc_foreign(ForeignBox { handle: 9, children: vec![captured] });
    let stats = heap.collect(&RootSet::from_refs(vec![f]));
    assert_eq!(stats.live, 2);
    assert_eq!(heap.free_count(), 1);
    assert!(matches!(heap.unbox(lonely), Some(ValueSlot::Int(2))));
    match heap.unbox(f) {
        Some(ValueSlot::Foreign(b)) => {
            assert_eq!(b.handle, 9);
            assert_eq!(b.children, vec![captured]);
        }
        _ => panic!("expected a foreign box"),
    }
}

#[test]
fn get_pair_and_unbox() {
    let mut heap = Heap::new();
    let s = heap.alloc_symbol("sym".to_string());
    let n = heap.alloc_nil();
    let p = heap.alloc_pair(s, n);
    assert_eq!(heap.get_pair(p), Some((s, n)));
    assert_eq!(heap.get_pair(s), None);
    assert_eq!(heap.get_pair(GcRef(99)), None);
    assert!(matches!(heap.unbox(p), Some(ValueSlot::Pair)));
    assert!(matches!(heap.unbox(s), Some(ValueSlot::Symbol(ref t)) if t == "sym"));
    assert!(heap.unbox(GcRef(99)).is_none());
    assert!(heap.get(GcRef(99)).is_none());
    assert_eq!(heap.stats().total_allocs, 3);
}

#[test]
fn heap_objects_compare_as_values() {
    let nan = f64::NAN.to_bits();
    assert!(!HeapObj::Float(nan).same_value(&HeapObj::Float(nan)));
    assert!(HeapObj::Float(0.0f64.to_bits()).same_value(&HeapObj::Float((-0.0f64).to_bits())));
    assert!(HeapObj::Float(1.5f64.to_bits()).same_value(&HeapObj::Float(1.5f64.to_bits())));
    assert!(HeapObj::Str("ab".to_string()).same_value(&HeapObj::Str("ab".to_string())));
    assert!(!HeapObj::Str("ab".to_string()).same_value(&HeapObj::Symbol("ab".to_string())));
    let a = HeapObj::Foreign(ForeignBox { handle: 7, children: vec![] });
    let b = HeapObj::Foreign(ForeignBox { handle: 7, children: vec![kerf::heap::GcRef(1)] });
    assert!(a.same_value(&b));
    assert!(HeapObj::Nil.same_value(&HeapObj::Nil));
    assert!(!HeapObj::Int(1).same_value(&HeapObj::Bool(true)));
}

#[test]
fn pin_then_unpin_restores_the_pins() {
    let mut heap = Heap::new();
    let a = heap.alloc_str("a".to_string());
    let b = heap.alloc_str("b".to_string());
    heap.pin_object(a);
    let before = (heap.pin_count(a), heap.pin_count(b), heap.pinned_refs());
    heap.pin_object(b);
    heap.unpin_object(b).expect("pinned just now");
    assert_eq!((heap.pin_count(a), heap.pin_count(b), heap.pinned_refs()), before);
    heap.pin_object(a);
    heap.unpin_object(a).expect("pinned just now");
    assert_eq!((heap.pin_count(a), heap.pin_count(b), heap.pinned_refs()), before);
}
