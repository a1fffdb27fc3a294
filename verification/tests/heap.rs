use yarel::memory::{
    allocate, allocate_unique, get_root, Gc, GcManaged, Heap, Root, UniqueRoot, HEAP_GROWTH_FACTOR,
    HEAP_INIT_BYTES_MAX,
};

type Obj = Vec<Gc>;

fn obj_size() -> usize {
    std::mem::size_of::<Obj>()
}

#[test]
fn new_heap_is_empty() {
    let heap: Heap<Obj> = Heap::new();
    assert_eq!(heap.bytes_allocated(), 0);
    assert!(!heap.holds(Gc::dangling()));
    assert_eq!(HEAP_INIT_BYTES_MAX, 65536);
    assert_eq!(HEAP_GROWTH_FACTOR, 2);
}

#[test]
fn allocation_roots_and_stores_the_object() {
    let mut heap: Heap<Obj> = Heap::new();
    let a = heap.allocate_root(Vec::new());
    let b = heap.allocate_root(vec![a.as_gc()]);
    assert!(heap.holds(a.as_gc()));
    assert!(heap.holds(b.as_gc()));
    assert_eq!(heap.get(b.as_gc()), &vec![a.as_gc()]);
    assert_eq!(heap.bytes_allocated(), 2 * obj_size());
}

#[test]
fn collection_frees_only_unreachable_objects() {
    let mut heap: Heap<Obj> = Heap::new();
    let a = heap.allocate_root(Vec::new());
    let b = heap.allocate_root(vec![a.as_gc()]);
    let c = heap.allocate_root(Vec::new());
    let (ga, gb, gc) = (a.as_gc(), b.as_gc(), c.as_gc());
    heap.drop_root(a);
    heap.drop_root(c);
    heap.collect();
    // `a` is still referred to by the rooted `b`; `c` is unreachable.
    assert!(heap.holds(ga));
    assert!(heap.holds(gb));
    assert!(!heap.holds(gc));
    assert_eq!(heap.bytes_allocated(), 2 * obj_size());
    heap.drop_root(b);
    heap.collect();
    assert!(!heap.holds(ga));
    assert!(!heap.holds(gb));
    assert_eq!(heap.bytes_allocated(), 0);
}

#[test]
fn cycles_without_roots_are_freed() {
    let mut heap: Heap<Obj> = Heap::new();
    let a = allocate(&mut heap, Vec::new());
    let u = UniqueRoot::new(&mut heap, vec![a.as_gc()]);
    let old = heap.replace(&u, vec![a.as_gc(), u.as_gc()]);
    assert_eq!(old, vec![a.as_gc()]);
    let (ga, gu) = (a.as_gc(), u.as_gc());
    heap.drop_root(a);
    heap.drop_unique_root(u);
    heap.collect();
    assert!(!heap.holds(ga));
    assert!(!heap.holds(gu));
}

#[test]
fn collecting_twice_changes_nothing() {
    let mut heap: Heap<Obj> = Heap::new();
    let a = Root::new(&mut heap, Vec::new());
    let b = heap.allocate_root(Vec::new());
    let gb = b.as_gc();
    heap.drop_root(b);
    heap.collect();
    let after_one = heap.bytes_allocated();
    heap.collect();
    assert_eq!(heap.bytes_allocated(), after_one);
    assert!(heap.holds(a.as_gc()));
    assert!(!heap.holds(gb));
}

#[test]
fn extra_roots_keep_objects_alive() {
    let mut heap: Heap<Obj> = Heap::new();
    let a = heap.allocate_root(Vec::new());
    let ga = a.as_gc();
    let a2 = heap.clone_root(&a);
    let a3 = get_root(&mut heap, ga);
    let a4 = ga.as_root(&mut heap);
    heap.drop_root(a);
    heap.drop_root(a2);
    heap.drop_root(a3);
    heap.collect();
    assert!(heap.holds(ga));
    heap.drop_root(a4);
    heap.collect();
    assert!(!heap.holds(ga));
}

#[test]
fn freed_slots_are_reused() {
    let mut heap: Heap<Obj> = Heap::new();
    let a = heap.allocate_root(Vec::new());
    let ga = a.as_gc();
    heap.drop_root(a);
    heap.collect();
    let b = allocate_unique(&mut heap, Vec::new());
    assert_eq!(b.as_gc(), ga);
    assert_eq!(heap.bytes_allocated(), obj_size());
}

#[test]
fn collection_if_required_waits_for_the_threshold() {
    let mut heap: Heap<Obj> = Heap::new();
    let a = heap.allocate_root(Vec::new());
    let ga = a.as_gc();
    heap.drop_root(a);
    heap.collect_if_required();
    // Far below the first threshold: nothing is collected.
    assert!(heap.holds(ga));
    heap.collect();
    assert!(!heap.holds(ga));
}

#[test]
fn references_are_traced() {
    let g = Gc::dangling();
    assert_eq!(g.trace(), vec![g]);
    let v: Vec<Gc> = vec![g, g];
    assert_eq!(v.trace(), vec![g, g]);
    let none: Option<Gc> = None;
    assert!(none.trace().is_empty());
    assert_eq!(Some(g).trace(), vec![g]);
}

#[test]
fn allocation_collects_past_the_threshold() {
    let mut heap: Heap<Obj> = Heap::new();
    let a = heap.allocate_root(Vec::new());
    let b = heap.allocate_root(vec![a.as_gc()]);
    let ga = a.as_gc();
    heap.drop_root(a);
    let per_object = obj_size();
    let count = HEAP_INIT_BYTES_MAX / per_object + 10;
    for _ in 0..count {
        let r = heap.allocate_root(Vec::new());
        heap.drop_root(r);
    }
    // A collection ran on the way: the unrooted objects went, while `a`,
    // reachable through the rooted `b`, stayed.
    assert!(heap.holds(ga));
    assert!(heap.holds(b.as_gc()));
    assert!(heap.bytes_allocated() < count * per_object);
}
