use vstd::prelude::*;

verus! {

/// The number of bytes that may be allocated before the first collection.
pub const HEAP_INIT_BYTES_MAX: usize = 65536;

/// After a collection, the next one happens once the live bytes have grown
/// by this factor.
pub const HEAP_GROWTH_FACTOR: usize = 2;

/// A reference to an object on a heap. It does not keep the object alive.
#[derive(Clone, Copy, Debug, PartialEq, Eq, Structural)]
pub struct Gc {
    index: usize,
}

/// A handle that keeps an object, and whatever it refers to, alive.
#[derive(Debug)]
pub struct Root {
    index: usize,
}

/// A keep-alive handle through which an object may also be replaced.
#[derive(Debug)]
pub struct UniqueRoot {
    index: usize,
}

/// A value that may live on a heap: it knows the heap objects it refers to.
pub trait GcManaged {
    /// The heap objects this value refers to directly, in order.
    spec fn references(&self) -> Seq<Gc>;

    /// Lists the heap objects this value refers to directly.
    fn trace(&self) -> (r: Vec<Gc>)
        ensures
            r@ == self.references(),
    ;
}

impl Gc {
    /// The heap slot the reference designates.
    pub closed spec fn slot(self) -> int {
        self.index as int
    }

    /// A reference that designates no object.
    pub fn dangling() -> (g: Gc)
        ensures
            g.slot() == usize::MAX,
    {
        Gc { index: usize::MAX }
    }
}

impl Root {
    /// The heap slot of the object kept alive.
    pub closed spec fn slot(&self) -> int {
        self.index as int
    }

    /// The plain reference to the object kept alive.
    pub closed spec fn spec_gc(&self) -> Gc {
        Gc { index: self.index }
    }

    /// A plain reference to the object kept alive.
    pub fn as_gc(&self) -> (g: Gc)
        ensures
            g == self.spec_gc(),
            g.slot() == self.slot(),
    {
        Gc { index: self.index }
    }
}

impl UniqueRoot {
    /// The heap slot of the object kept alive.
    pub closed spec fn slot(&self) -> int {
        self.index as int
    }

    /// A plain reference to the object kept alive.
    pub fn as_gc(&self) -> (g: Gc)
        ensures
            g.slot() == self.slot(),
    {
        Gc { index: self.index }
    }
}

impl GcManaged for Gc {
    open spec fn references(&self) -> Seq<Gc> {
        seq![*self]
    }

    fn trace(&self) -> (r: Vec<Gc>) {
        let mut v = Vec::new();
        v.push(*self);
        assert(v@ =~= seq![*self]);
        v
    }
}

impl GcManaged for Root {
    open spec fn references(&self) -> Seq<Gc> {
        seq![self.spec_gc()]
    }

    fn trace(&self) -> (r: Vec<Gc>) {
        let mut v = Vec::new();
        v.push(self.as_gc());
        assert(v@ =~= seq![self.spec_gc()]);
        v
    }
}

/// The references of each element, concatenated in order.
pub open spec fn concat_references(s: Seq<Seq<Gc>>) -> Seq<Gc>
    decreases s.len(),
{
    if s.len() == 0 {
        Seq::empty()
    } else {
        concat_references(s.drop_last()) + s.last()
    }
}

impl<T: GcManaged> GcManaged for Vec<T> {
    open spec fn references(&self) -> Seq<Gc> {
        concat_references(self@.map_values(|x: T| x.references()))
    }

    fn trace(&self) -> (r: Vec<Gc>) {
        let mut out: Vec<Gc> = Vec::new();
        let mut i: usize = 0;
        while i < self.len()
            invariant
                i <= self@.len(),
                out@ == concat_references(self@.take(i as int).map_values(|x: T| x.references())),
            decreases self@.len() - i,
        {
            let mut inner = self[i].trace();
            out.append(&mut inner);
            proof {
                assert(self@.take((i + 1) as int).map_values(|x: T| x.references()).drop_last()
                    =~= self@.take(i as int).map_values(|x: T| x.references()));
            }
            i = i + 1;
        }
        assert(self@.take(i as int) =~= self@);
        out
    }
}

impl<T: GcManaged> GcManaged for Option<T> {
    open spec fn references(&self) -> Seq<Gc> {
        match self {
            Some(x) => x.references(),
            None => Seq::empty(),
        }
    }

    fn trace(&self) -> (r: Vec<Gc>) {
        match self {
            Some(x) => x.trace(),
            None => Vec::new(),
        }
    }
}

// ---------------------------------------------------------------------------
// The object graph.
// ---------------------------------------------------------------------------

/// Whether slot `i` holds an object.
pub open spec fn obj_live<T>(objs: Seq<Option<T>>, i: int) -> bool {
    0 <= i < objs.len() && objs[i] is Some
}

/// Whether the object in slot `i` refers directly to slot `j`.
pub open spec fn obj_points_to<T: GcManaged>(objs: Seq<Option<T>>, i: int, j: int) -> bool {
    &&& obj_live(objs, i)
    &&& exists|k: int|
        0 <= k < objs[i].unwrap().references().len() && #[trigger] objs[i].unwrap().references()[k].slot()
            == j
}

/// Whether the object in slot `i` has at least one root.
pub open spec fn obj_rooted<T>(objs: Seq<Option<T>>, roots: Seq<usize>, i: int) -> bool {
    obj_live(objs, i) && i < roots.len() && roots[i] > 0
}

/// A chain of references that starts at a rooted object.
pub open spec fn obj_path<T: GcManaged>(objs: Seq<Option<T>>, roots: Seq<usize>, p: Seq<int>) -> bool {
    &&& p.len() > 0
    &&& obj_rooted(objs, roots, p[0])
    &&& forall|k: int| 0 <= k < p.len() - 1 ==> #[trigger] obj_points_to(objs, p[k], p[k + 1])
}

/// Whether slot `i` can be reached from a rooted object by following references.
pub open spec fn obj_reachable<T: GcManaged>(objs: Seq<Option<T>>, roots: Seq<usize>, i: int) -> bool {
    exists|p: Seq<int>| #[trigger] obj_path(objs, roots, p) && p.last() == i
}

/// Every reference held by an object designates an object.
pub open spec fn obj_closed<T: GcManaged>(objs: Seq<Option<T>>) -> bool {
    forall|i: int, j: int| #[trigger] obj_points_to(objs, i, j) ==> obj_live(objs, j)
}

/// The number of elements of `s` that satisfy `f`.
pub open spec fn count_where<A>(s: Seq<A>, f: spec_fn(A) -> bool) -> nat
    decreases s.len(),
{
    if s.len() == 0 {
        0
    } else {
        count_where(s.drop_last(), f) + if f(s.last()) {
            1nat
        } else {
            0nat
        }
    }
}

/// The number of occupied slots.
pub open spec fn live_count<T>(objs: Seq<Option<T>>) -> nat {
    count_where(objs, |o: Option<T>| o is Some)
}

pub proof fn lemma_count_where_update<A>(s: Seq<A>, j: int, x: A, f: spec_fn(A) -> bool)
    requires
        0 <= j < s.len(),
    ensures
        count_where(s.update(j, x), f) + (if f(s[j]) {
            1int
        } else {
            0int
        }) == count_where(s, f) + (if f(x) {
            1int
        } else {
            0int
        }),
    decreases s.len(),
{
    if j < s.len() - 1 {
        assert(s.update(j, x).drop_last() =~= s.drop_last().update(j, x));
        lemma_count_where_update(s.drop_last(), j, x, f);
    } else {
        assert(s.update(j, x).drop_last() =~= s.drop_last());
    }
}

pub proof fn lemma_count_where_bound<A>(s: Seq<A>, f: spec_fn(A) -> bool)
    ensures
        count_where(s, f) <= s.len(),
    decreases s.len(),
{
    if s.len() > 0 {
        lemma_count_where_bound(s.drop_last(), f);
    }
}

/// Where `s2` satisfies `f` wherever `s1` does, it counts at least as many.
pub proof fn lemma_count_where_mono<A>(s1: Seq<A>, s2: Seq<A>, f: spec_fn(A) -> bool)
    requires
        s1.len() == s2.len(),
        forall|i: int| 0 <= i < s1.len() && f(#[trigger] s1[i]) ==> f(s2[i]),
    ensures
        count_where(s1, f) <= count_where(s2, f),
    decreases s1.len(),
{
    if s1.len() > 0 {
        lemma_count_where_mono(s1.drop_last(), s2.drop_last(), f);
        assert(f(s1.last()) ==> f(s2.last()));
    }
}

/// A path extended by one reference is a path.
pub proof fn lemma_path_extend<T: GcManaged>(
    objs: Seq<Option<T>>,
    roots: Seq<usize>,
    p: Seq<int>,
    j: int,
)
    requires
        obj_path(objs, roots, p),
        obj_points_to(objs, p.last(), j),
    ensures
        obj_path(objs, roots, p.push(j)),
        obj_reachable(objs, roots, j),
{
    let q = p.push(j);
    assert forall|k: int| 0 <= k < q.len() - 1 implies #[trigger] obj_points_to(objs, q[k], q[k + 1]) by {
        if k < p.len() - 1 {
            assert(q[k] == p[k] && q[k + 1] == p[k + 1]);
        } else {
            assert(q[k] == p.last() && q[k + 1] == j);
        }
    }
    assert(q.last() == j);
}

/// A rooted object is reachable.
pub proof fn lemma_rooted_reachable<T: GcManaged>(objs: Seq<Option<T>>, roots: Seq<usize>, i: int)
    requires
        obj_rooted(objs, roots, i),
    ensures
        obj_reachable(objs, roots, i),
{
    let p = seq![i];
    assert(obj_path(objs, roots, p));
    assert(p.last() == i);
}

/// The colours of the marking phase.
#[derive(Clone, Copy, Debug, PartialEq, Eq, Structural)]
enum Colour {
    Black,
    Grey,
    White,
}


/// The state of a marking in progress over the slots `objs` with roots
/// `roots`: `col` colours each slot and `grey` lists the objects still to
/// scan. Every marked object is reachable, every grey object is listed, a
/// black object refers only to marked objects, and every rooted object is
/// marked.
spec fn marking<T: GcManaged>(
    objs: Seq<Option<T>>,
    roots: Seq<usize>,
    col: Seq<Colour>,
    grey: Seq<usize>,
) -> bool {
    &&& col.len() == objs.len()
    &&& forall|k: int|
        0 <= k < grey.len() ==> #[trigger] grey[k] < objs.len() && col[grey[k] as int]
            != Colour::White
    &&& forall|i: int| 0 <= i < objs.len() && #[trigger] col[i] == Colour::Grey ==> grey.contains(i as usize)
    &&& forall|i: int|
        0 <= i < objs.len() && #[trigger] col[i] != Colour::White ==> obj_live(objs, i)
            && obj_reachable(objs, roots, i)
    &&& forall|i: int, j: int|
        0 <= i < objs.len() && col[i] == Colour::Black && #[trigger] obj_points_to(objs, i, j) ==> col[j]
            != Colour::White
    &&& forall|i: int| #[trigger] obj_rooted(objs, roots, i) ==> col[i] != Colour::White
}

spec fn white_count(col: Seq<Colour>) -> nat {
    count_where(col, |c: Colour| c == Colour::White)
}

/// Once no object is left to scan, every reachable object is black.
proof fn lemma_marking_complete<T: GcManaged>(
    objs: Seq<Option<T>>,
    roots: Seq<usize>,
    col: Seq<Colour>,
    p: Seq<int>,
)
    requires
        marking(objs, roots, col, Seq::empty()),
        obj_closed(objs),
        obj_path(objs, roots, p),
    ensures
        0 <= p.last() < objs.len(),
        col[p.last()] == Colour::Black,
    decreases p.len(),
{
    if p.len() == 1 {
        assert(obj_rooted(objs, roots, p[0]));
        if col[p[0]] == Colour::Grey {
            assert(Seq::<usize>::empty().contains(p[0] as usize));
        }
    } else {
        let q = p.drop_last();
        assert forall|k: int| 0 <= k < q.len() - 1 implies #[trigger] obj_points_to(objs, q[k], q[k + 1]) by {
            assert(obj_points_to(objs, p[k], p[k + 1]));
        }
        lemma_marking_complete(objs, roots, col, q);
        let m = p.len() - 2;
        assert(obj_points_to(objs, p[m], p[m + 1]));
        let j = p.last();
        if col[j] == Colour::Grey {
            assert(Seq::<usize>::empty().contains(j as usize));
        }
    }
}

/// A reachable slot holds an object when every reference designates one.
pub proof fn lemma_reachable_live<T: GcManaged>(objs: Seq<Option<T>>, roots: Seq<usize>, i: int)
    requires
        obj_closed(objs),
        obj_reachable(objs, roots, i),
    ensures
        obj_live(objs, i),
{
    let p = choose|p: Seq<int>| #[trigger] obj_path(objs, roots, p) && p.last() == i;
    if p.len() > 1 {
        let m = p.len() - 2;
        assert(obj_points_to(objs, p[m], p[m + 1]));
    }
}

/// A mark-and-sweep heap of objects of type `T`, kept in numbered slots.
pub struct Heap<T> {
    collection_threshold: usize,
    bytes_allocated: usize,
    objects: Vec<Option<T>>,
    colours: Vec<Colour>,
    num_roots: Vec<usize>,
    free_slots: Vec<usize>,
}

impl<T: GcManaged> Heap<T> {
    /// The slots of the heap: an object, or nothing where none is allocated.
    pub closed spec fn spec_objects(&self) -> Seq<Option<T>> {
        self.objects@
    }

    /// The number of roots held on each slot.
    pub closed spec fn spec_roots(&self) -> Seq<usize> {
        self.num_roots@
    }

    /// The bytes accounted to the live objects.
    pub closed spec fn spec_bytes_allocated(&self) -> int {
        self.bytes_allocated as int
    }

    /// The allocation level at which the next collection happens.
    pub closed spec fn spec_threshold(&self) -> int {
        self.collection_threshold as int
    }

    /// Whether slot `i` holds an object.
    pub open spec fn is_live(&self, i: int) -> bool {
        obj_live(self.spec_objects(), i)
    }

    /// The object in slot `i`.
    pub open spec fn value(&self, i: int) -> T {
        self.spec_objects()[i].unwrap()
    }

    /// The number of roots held on slot `i`.
    pub open spec fn root_count(&self, i: int) -> nat {
        self.spec_roots()[i] as nat
    }

    /// Whether slot `i` is reachable from a rooted object.
    pub open spec fn reachable(&self, i: int) -> bool {
        obj_reachable(self.spec_objects(), self.spec_roots(), i)
    }

    /// The heap's internal consistency.
    pub closed spec fn wf(&self) -> bool {
        &&& self.colours@.len() == self.objects@.len()
        &&& self.num_roots@.len() == self.objects@.len()
        &&& self.objects@.len() < usize::MAX
        &&& forall|k: int|
            0 <= k < self.free_slots@.len() ==> #[trigger] self.free_slots@[k] < self.objects@.len()
                && self.objects@[self.free_slots@[k] as int] is None
        &&& self.free_slots@.no_duplicates()
        &&& obj_closed(self.objects@)
        &&& self.bytes_allocated == live_count(self.objects@) * vstd::layout::size_of::<T>()
        &&& self.bytes_allocated <= usize::MAX / 2
    }

    /// A consistent heap keeps a root count for every slot, and counts as
    /// allocated the size of each live object.
    pub proof fn lemma_wf_lengths(&self)
        requires
            self.wf(),
        ensures
            self.spec_roots().len() == self.spec_objects().len(),
            self.spec_bytes_allocated() == live_count(self.spec_objects()) * vstd::layout::size_of::<T>(),
    {
    }

    /// An empty heap.
    pub fn new() -> (h: Self)
        ensures
            h.wf(),
            h.spec_objects() == Seq::<Option<T>>::empty(),
            h.spec_bytes_allocated() == 0,
            h.spec_threshold() == HEAP_INIT_BYTES_MAX,
    {
        let h = Heap {
            collection_threshold: HEAP_INIT_BYTES_MAX,
            bytes_allocated: 0,
            objects: Vec::new(),
            colours: Vec::new(),
            num_roots: Vec::new(),
            free_slots: Vec::new(),
        };
        assert(live_count(h.objects@) == 0);
        h
    }

    /// The object a reference designates.
    pub fn get(&self, gc: Gc) -> (r: &T)
        requires
            self.is_live(gc.slot()),
        ensures
            *r == self.value(gc.slot()),
    {
        self.objects[gc.index].as_ref().unwrap()
    }

    /// Whether a reference designates an object the heap still holds.
    pub fn holds(&self, gc: Gc) -> (b: bool)
        ensures
            b == self.is_live(gc.slot()),
    {
        gc.index < self.objects.len() && self.objects[gc.index].is_some()
    }

    /// The bytes accounted to the live objects.
    pub fn bytes_allocated(&self) -> (n: usize)
        ensures
            n == self.spec_bytes_allocated(),
    {
        self.bytes_allocated
    }

    /// Takes one more root on a live object.
    pub fn get_root(&mut self, gc: Gc) -> (r: Root)
        requires
            old(self).wf(),
            old(self).is_live(gc.slot()),
            old(self).root_count(gc.slot()) < usize::MAX,
        ensures
            final(self).wf(),
            r.slot() == gc.slot(),
            final(self).spec_objects() == old(self).spec_objects(),
            final(self).spec_roots() == old(self).spec_roots().update(
                gc.slot(),
                (old(self).spec_roots()[gc.slot()] + 1) as usize,
            ),
            final(self).root_count(gc.slot()) == old(self).root_count(gc.slot()) + 1,
            final(self).spec_bytes_allocated() == old(self).spec_bytes_allocated(),
            final(self).spec_threshold() == old(self).spec_threshold(),
    {
        let n = self.num_roots[gc.index];
        self.num_roots.set(gc.index, n + 1);
        Root { index: gc.index }
    }

    /// Gives up a root.
    pub fn drop_root(&mut self, root: Root)
        requires
            old(self).wf(),
            old(self).is_live(root.slot()),
            old(self).root_count(root.slot()) > 0,
        ensures
            final(self).wf(),
            final(self).spec_objects() == old(self).spec_objects(),
            final(self).spec_roots() == old(self).spec_roots().update(
                root.slot(),
                (old(self).spec_roots()[root.slot()] - 1) as usize,
            ),
            final(self).root_count(root.slot()) == old(self).root_count(root.slot()) - 1,
            final(self).spec_bytes_allocated() == old(self).spec_bytes_allocated(),
            final(self).spec_threshold() == old(self).spec_threshold(),
    {
        let n = self.num_roots[root.index];
        self.num_roots.set(root.index, n - 1);
    }

    /// Unmarks every object, then marks the rooted ones; the objects left to scan.
    fn mark_roots(&mut self) -> (grey: Vec<usize>)
        requires
            old(self).wf(),
        ensures
            final(self).wf(),
            final(self).objects == old(self).objects,
            final(self).num_roots == old(self).num_roots,
            final(self).free_slots == old(self).free_slots,
            final(self).bytes_allocated == old(self).bytes_allocated,
            final(self).collection_threshold == old(self).collection_threshold,
            marking(final(self).objects@, final(self).num_roots@, final(self).colours@, grey@),
    {
        let n = self.colours.len();
        let mut i: usize = 0;
        while i < n
            invariant
                self.wf(),
                self.objects == old(self).objects,
                self.num_roots == old(self).num_roots,
                self.free_slots == old(self).free_slots,
                self.bytes_allocated == old(self).bytes_allocated,
                self.collection_threshold == old(self).collection_threshold,
                n == self.colours@.len(),
                i <= n,
                forall|k: int| 0 <= k < i ==> self.colours@[k] == Colour::White,
            decreases n - i,
        {
            self.colours.set(i, Colour::White);
            i = i + 1;
        }
        let mut grey: Vec<usize> = Vec::new();
        let mut i: usize = 0;
        while i < n
            invariant
                self.wf(),
                self.objects == old(self).objects,
                self.num_roots == old(self).num_roots,
                self.free_slots == old(self).free_slots,
                self.bytes_allocated == old(self).bytes_allocated,
                self.collection_threshold == old(self).collection_threshold,
                n == self.colours@.len(),
                i <= n,
                forall|k: int| i <= k < n ==> self.colours@[k] == Colour::White,
                forall|k: int|
                    0 <= k < i ==> (self.colours@[k] == Colour::Grey <==> obj_rooted(
                        self.objects@,
                        self.num_roots@,
                        k,
                    )),
                forall|k: int| 0 <= k < n ==> self.colours@[k] != Colour::Black,
                forall|k: int| 0 <= k < grey@.len() ==> #[trigger] grey@[k] < i && self.colours@[grey@[k] as int] == Colour::Grey,
                forall|k: int| 0 <= k < n && self.colours@[k] == Colour::Grey ==> grey@.contains(k as usize),
            decreases n - i,
        {
            if self.objects[i].is_some() && self.num_roots[i] > 0 {
                self.colours.set(i, Colour::Grey);
                let ghost before = grey@;
                grey.push(i);
                assert(grey@[grey@.len() - 1] == i);
                assert forall|k: int| 0 <= k < n && self.colours@[k] == Colour::Grey implies grey@.contains(k as usize) by {
                    if k != i {
                        let m = choose|m: int| 0 <= m < before.len() && before[m] == k as usize;
                        assert(grey@[m] == k as usize);
                    }
                }
            }
            i = i + 1;
        }
        proof {
            let objs = self.objects@;
            let roots = self.num_roots@;
            assert forall|k: int| 0 <= k < objs.len() && #[trigger] self.colours@[k] != Colour::White
                implies obj_live(objs, k) && obj_reachable(objs, roots, k) by {
                lemma_rooted_reachable(objs, roots, k);
            }
        }
        grey
    }

    /// Scans the listed objects, marking what they refer to, until every
    /// marked object has been scanned.
    fn trace_references(&mut self, grey: Vec<usize>)
        requires
            old(self).wf(),
            marking(old(self).objects@, old(self).num_roots@, old(self).colours@, grey@),
        ensures
            final(self).wf(),
            final(self).objects == old(self).objects,
            final(self).num_roots == old(self).num_roots,
            final(self).free_slots == old(self).free_slots,
            final(self).bytes_allocated == old(self).bytes_allocated,
            final(self).collection_threshold == old(self).collection_threshold,
            marking(final(self).objects@, final(self).num_roots@, final(self).colours@, Seq::empty()),
    {
        let mut grey = grey;
        proof {
            lemma_count_where_bound(self.colours@, |c: Colour| c == Colour::White);
        }
        while grey.len() > 0
            invariant
                self.wf(),
                self.objects == old(self).objects,
                self.num_roots == old(self).num_roots,
                self.free_slots == old(self).free_slots,
                self.bytes_allocated == old(self).bytes_allocated,
                self.collection_threshold == old(self).collection_threshold,
                marking(self.objects@, self.num_roots@, self.colours@, grey@),
            decreases 2 * white_count(self.colours@) + grey@.len(),
        {
            let ghost objs = self.objects@;
            let ghost roots = self.num_roots@;
            let ghost measure = 2 * white_count(self.colours@) + grey@.len();
            let ghost grey0 = grey@;
            let i = grey.pop().unwrap();
            assert(grey0[grey0.len() - 1] == i);
            assert(grey@ =~= grey0.drop_last());
            let ghost col0 = self.colours@;
            self.colours.set(i, Colour::Black);
            proof {
                lemma_count_where_update(col0, i as int, Colour::Black, |c: Colour| c == Colour::White);
                assert forall|j: int| 0 <= j < objs.len() && #[trigger] self.colours@[j] == Colour::Grey
                    implies grey@.contains(j as usize) by {
                    assert(col0[j] == Colour::Grey);
                    let m = choose|m: int| 0 <= m < grey0.len() && grey0[m] == j as usize;
                    assert(m != grey0.len() - 1);
                    assert(grey@[m] == j as usize);
                }
            }
            let children = self.objects[i].as_ref().unwrap().trace();
            proof {
                assert forall|m: int| 0 <= m < children@.len() implies 0 <= #[trigger] children@[m].slot() < objs.len() by {
                    assert(obj_points_to(objs, i as int, children@[m].slot()));
                }
            }
            let mut k: usize = 0;
            while k < children.len()
                invariant
                    self.wf(),
                    self.objects == old(self).objects,
                    self.num_roots == old(self).num_roots,
                    self.free_slots == old(self).free_slots,
                    self.bytes_allocated == old(self).bytes_allocated,
                    self.collection_threshold == old(self).collection_threshold,
                    objs == self.objects@,
                    roots == self.num_roots@,
                    i < objs.len(),
                    obj_live(objs, i as int),
                    obj_reachable(objs, roots, i as int),
                    children@ == objs[i as int].unwrap().references(),
                    k <= children@.len(),
                    forall|m: int| 0 <= m < children@.len() ==> 0 <= #[trigger] children@[m].slot() < objs.len(),
                    self.colours@.len() == objs.len(),
                    self.colours@[i as int] == Colour::Black,
                    2 * white_count(self.colours@) + grey@.len() < measure,
                    forall|m: int| 0 <= m < k ==> self.colours@[#[trigger] children@[m].slot()] != Colour::White,
                    forall|m: int|
                        0 <= m < grey@.len() ==> #[trigger] grey@[m] < objs.len() && self.colours@[grey@[m] as int]
                            != Colour::White,
                    forall|j: int| 0 <= j < objs.len() && #[trigger] self.colours@[j] == Colour::Grey ==> grey@.contains(j as usize),
                    forall|j: int|
                        0 <= j < objs.len() && #[trigger] self.colours@[j] != Colour::White ==> obj_live(objs, j)
                            && obj_reachable(objs, roots, j),
                    forall|a: int, b: int|
                        0 <= a < objs.len() && a != i && self.colours@[a] == Colour::Black && #[trigger] obj_points_to(objs, a, b)
                            ==> self.colours@[b] != Colour::White,
                    forall|a: int| #[trigger] obj_rooted(objs, roots, a) ==> self.colours@[a] != Colour::White,
                decreases children@.len() - k,
            {
                let c = children[k];
                proof {
                    assert(obj_points_to(objs, i as int, c.slot()));
                }
                if self.colours[c.index] == Colour::White {
                    let ghost col1 = self.colours@;
                    let ghost grey1 = grey@;
                    self.colours.set(c.index, Colour::Grey);
                    grey.push(c.index);
                    proof {
                        lemma_count_where_update(col1, c.slot(), Colour::Grey, |c: Colour| c == Colour::White);
                        let p = choose|p: Seq<int>| #[trigger] obj_path(objs, roots, p) && p.last() == i as int;
                        lemma_path_extend(objs, roots, p, c.slot());
                        assert(grey@[grey@.len() - 1] == c.index);
                        assert forall|j: int| 0 <= j < objs.len() && #[trigger] self.colours@[j] == Colour::Grey
                            implies grey@.contains(j as usize) by {
                            if j != c.slot() {
                                let m = choose|m: int| 0 <= m < grey1.len() && grey1[m] == j as usize;
                                assert(grey@[m] == j as usize);
                            }
                        }
                    }
                }
                assert(children@[k as int] == c);
                assert(self.colours@[c.slot()] != Colour::White);
                k = k + 1;
            }
            proof {
                assert forall|a: int, b: int|
                    0 <= a < objs.len() && self.colours@[a] == Colour::Black && #[trigger] obj_points_to(objs, a, b)
                        implies self.colours@[b] != Colour::White by {
                    if a == i {
                        let m = choose|m: int|
                            0 <= m < objs[a].unwrap().references().len() && #[trigger] objs[a].unwrap().references()[m].slot() == b;
                        assert(children@[m].slot() == b);
                    }
                }
            }
        }
    }

    /// Frees every unmarked object; the bytes freed.
    fn sweep(&mut self) -> (freed: usize)
        requires
            old(self).wf(),
            marking(old(self).objects@, old(self).num_roots@, old(self).colours@, Seq::empty()),
        ensures
            final(self).objects@.len() == old(self).objects@.len(),
            forall|i: int|
                0 <= i < old(self).objects@.len() ==> #[trigger] final(self).objects@[i] == (if old(
                    self,
                ).colours@[i] == Colour::Black {
                    old(self).objects@[i]
                } else {
                    None
                }),
            final(self).num_roots == old(self).num_roots,
            final(self).colours == old(self).colours,
            final(self).bytes_allocated == old(self).bytes_allocated,
            final(self).collection_threshold == old(self).collection_threshold,
            freed <= old(self).bytes_allocated,
            old(self).bytes_allocated - freed == live_count(final(self).objects@)
                * vstd::layout::size_of::<T>(),
            ({
                let h = *final(self);
                &&& h.colours@.len() == h.objects@.len()
                &&& h.num_roots@.len() == h.objects@.len()
                &&& h.objects@.len() < usize::MAX
                &&& forall|k: int|
                    0 <= k < h.free_slots@.len() ==> #[trigger] h.free_slots@[k] < h.objects@.len()
                        && h.objects@[h.free_slots@[k] as int] is None
                &&& h.free_slots@.no_duplicates()
                &&& obj_closed(h.objects@)
            }),
    {
        let size = core::mem::size_of::<T>();
        let n = self.objects.len();
        let ghost objs0 = self.objects@;
        let ghost total = live_count(objs0);
        let ghost sz = vstd::layout::size_of::<T>() as int;
        let mut freed: usize = 0;
        let ghost mut dropped: int = 0;
        let mut i: usize = 0;
        while i < n
            invariant
                n == objs0.len() == self.objects@.len() == self.colours@.len() == self.num_roots@.len(),
                objs0 == old(self).objects@,
                marking(objs0, self.num_roots@, self.colours@, Seq::empty()),
                obj_closed(objs0),
                total == live_count(objs0),
                sz == size,
                self.num_roots == old(self).num_roots,
                self.colours == old(self).colours,
                self.bytes_allocated == old(self).bytes_allocated,
                self.collection_threshold == old(self).collection_threshold,
                self.bytes_allocated == total * sz,
                self.bytes_allocated <= usize::MAX / 2,
                n < usize::MAX,
                i <= n,
                forall|k: int|
                    0 <= k < i ==> #[trigger] self.objects@[k] == (if self.colours@[k] == Colour::Black {
                        objs0[k]
                    } else {
                        None
                    }),
                forall|k: int| i <= k < n ==> #[trigger] self.objects@[k] == objs0[k],
                forall|k: int|
                    0 <= k < self.free_slots@.len() ==> #[trigger] self.free_slots@[k] < n
                        && self.objects@[self.free_slots@[k] as int] is None,
                self.free_slots@.no_duplicates(),
                0 <= dropped,
                dropped + live_count(self.objects@) == total,
                freed == dropped * sz,
            decreases n - i,
        {
            if self.objects[i].is_some() && self.colours[i] == Colour::White {
                let ghost before = self.objects@;
                self.objects.set(i, None);
                proof {
                    lemma_count_where_update(before, i as int, None, |o: Option<T>| o is Some);
                    assert((dropped + 1) * sz <= total * sz) by (nonlinear_arith)
                        requires
                            dropped + 1 <= total,
                            0 <= sz,
                    ;
                    assert((dropped + 1) * sz == dropped * sz + sz) by (nonlinear_arith);
                }
                let ghost free_before = self.free_slots@;
                self.free_slots.push(i);
                proof {
                    assert forall|a: int, b: int| 0 <= a < b < self.free_slots@.len() implies self.free_slots@[a]
                        != self.free_slots@[b] by {
                        if b == self.free_slots@.len() - 1 {
                            assert(before[free_before[a] as int] is None);
                        }
                    }
                }
                freed = freed + size;
                proof {
                    dropped = dropped + 1;
                }
            } else {
                proof {
                    if self.objects@[i as int] is Some {
                        assert(self.colours@[i as int] != Colour::White);
                        assert(self.colours@[i as int] != Colour::Grey) by {
                            if self.colours@[i as int] == Colour::Grey {
                                assert(Seq::<usize>::empty().contains(i));
                            }
                        }
                    } else {
                        assert(objs0[i as int] is None);
                    }
                }
            }
            i = i + 1;
        }
        proof {
            assert(self.objects@ =~= self.objects@);
            assert((total - dropped) * sz == total * sz - dropped * sz) by (nonlinear_arith);
            assert forall|a: int, b: int| #[trigger] obj_points_to(self.objects@, a, b) implies obj_live(
                self.objects@,
                b,
            ) by {
                assert(self.colours@[a] == Colour::Black);
                assert(obj_points_to(objs0, a, b));
                assert(obj_live(objs0, b));
                assert(self.colours@[b] != Colour::White);
                if self.colours@[b] == Colour::Grey {
                    assert(Seq::<usize>::empty().contains(b as usize));
                }
            }
        }
        freed
    }

    /// Frees every object that cannot be reached from a rooted object, then
    /// sets the next collection to happen once the live bytes have grown by
    /// the growth factor.
    pub fn collect(&mut self)
        requires
            old(self).wf(),
        ensures
            final(self).wf(),
            final(self).spec_objects().len() == old(self).spec_objects().len(),
            forall|i: int|
                0 <= i < old(self).spec_objects().len() ==> #[trigger] final(self).spec_objects()[i] == (if old(
                    self,
                ).reachable(i) {
                    old(self).spec_objects()[i]
                } else {
                    None
                }),
            final(self).spec_roots() == old(self).spec_roots(),
            final(self).spec_bytes_allocated() == live_count(final(self).spec_objects())
                * vstd::layout::size_of::<T>(),
            final(self).spec_threshold() == final(self).spec_bytes_allocated() * HEAP_GROWTH_FACTOR,
    {
        let ghost objs0 = self.objects@;
        let ghost roots0 = self.num_roots@;
        let grey = self.mark_roots();
        self.trace_references(grey);
        let ghost col = self.colours@;
        let bytes_freed = self.sweep();
        self.bytes_allocated = self.bytes_allocated - bytes_freed;
        self.collection_threshold = self.bytes_allocated * HEAP_GROWTH_FACTOR;
        proof {
            assert forall|i: int| 0 <= i < objs0.len() implies #[trigger] self.objects@[i] == (if obj_reachable(
                objs0,
                roots0,
                i,
            ) {
                objs0[i]
            } else {
                None
            }) by {
                if obj_reachable(objs0, roots0, i) {
                    let p = choose|p: Seq<int>| #[trigger] obj_path(objs0, roots0, p) && p.last() == i;
                    lemma_marking_complete(objs0, roots0, col, p);
                } else {
                    if col[i] != Colour::White {
                        assert(obj_reachable(objs0, roots0, i));
                    }
                }
            }
            assert(live_count(self.objects@) * vstd::layout::size_of::<T>() <= live_count(objs0)
                * vstd::layout::size_of::<T>());
        }
    }

    /// Collects when the bytes allocated have reached the threshold.
    pub fn collect_if_required(&mut self)
        requires
            old(self).wf(),
        ensures
            final(self).wf(),
            final(self).spec_objects().len() == old(self).spec_objects().len(),
            forall|i: int|
                0 <= i < old(self).spec_objects().len() ==> #[trigger] final(self).spec_objects()[i] == (if old(
                    self,
                ).spec_bytes_allocated() >= old(self).spec_threshold() && !old(self).reachable(i) {
                    None
                } else {
                    old(self).spec_objects()[i]
                }),
            final(self).spec_roots() == old(self).spec_roots(),
            final(self).spec_bytes_allocated() == live_count(final(self).spec_objects())
                * vstd::layout::size_of::<T>(),
            final(self).spec_threshold() == (if old(self).spec_bytes_allocated() >= old(
                self,
            ).spec_threshold() {
                final(self).spec_bytes_allocated() * HEAP_GROWTH_FACTOR
            } else {
                old(self).spec_threshold()
            }),
            old(self).spec_bytes_allocated() < old(self).spec_threshold() ==> final(self).spec_bytes_allocated()
                == old(self).spec_bytes_allocated(),
    {
        if self.bytes_allocated >= self.collection_threshold {
            self.collect();
        }
    }

    /// Whether allocating now would first collect.
    pub open spec fn will_collect(&self) -> bool {
        self.spec_bytes_allocated() >= self.spec_threshold()
    }

    /// Whether slot `i` still holds its object after the collection, if any,
    /// that precedes an allocation.
    pub open spec fn survives(&self, i: int) -> bool {
        if self.will_collect() {
            self.reachable(i)
        } else {
            self.is_live(i)
        }
    }

    /// What an allocation may require of the value stored: each object it
    /// refers to is reachable, so that it survives a collection.
    pub open spec fn can_hold(&self, data: T) -> bool {
        forall|k: int|
            0 <= k < data.references().len() ==> self.reachable(#[trigger] data.references()[k].slot())
    }

    /// What an allocation leaves on a heap: the slot of the new object, the
    /// objects that survived around it, and the byte accounting.
    pub open spec fn allocated(old_heap: &Self, new_heap: &Self, slot: int, data: T, roots: nat) -> bool {
        &&& 0 <= slot <= old_heap.spec_objects().len()
        &&& new_heap.spec_objects().len() == (if slot == old_heap.spec_objects().len() {
            old_heap.spec_objects().len() + 1
        } else {
            old_heap.spec_objects().len()
        })
        &&& slot < old_heap.spec_objects().len() ==> !old_heap.survives(slot)
        &&& new_heap.is_live(slot)
        &&& new_heap.value(slot) == data
        &&& new_heap.root_count(slot) == roots
        &&& forall|j: int|
            0 <= j < new_heap.spec_objects().len() && j != slot ==> #[trigger] new_heap.spec_objects()[j]
                == (if old_heap.survives(j) {
                old_heap.spec_objects()[j]
            } else {
                None
            }) && new_heap.spec_roots()[j] == old_heap.spec_roots()[j]
        &&& new_heap.spec_bytes_allocated() == live_count(new_heap.spec_objects())
            * vstd::layout::size_of::<T>()
        &&& new_heap.spec_threshold() == (if old_heap.will_collect() {
            (new_heap.spec_bytes_allocated() - vstd::layout::size_of::<T>()) * HEAP_GROWTH_FACTOR
        } else {
            old_heap.spec_threshold()
        })
    }

    /// Stores a new object with no root, collecting first if required.
    fn allocate_raw(&mut self, data: T) -> (slot: usize)
        requires
            old(self).wf(),
            old(self).can_hold(data),
            old(self).spec_bytes_allocated() + vstd::layout::size_of::<T>() <= usize::MAX / 2,
            old(self).spec_objects().len() + 1 < usize::MAX,
        ensures
            final(self).wf(),
            Self::allocated(old(self), final(self), slot as int, data, 0),
    {
        let ghost h0 = *self;
        proof {
            assert forall|k: int| 0 <= k < data.references().len() implies h0.is_live(
                #[trigger] data.references()[k].slot(),
            ) by {
                lemma_reachable_live(h0.objects@, h0.num_roots@, data.references()[k].slot());
            }
        }
        self.collect_if_required();
        let ghost mid = self.objects@;
        proof {
            lemma_count_where_mono(mid, h0.objects@, |o: Option<T>| o is Some);
            assert(live_count(mid) * vstd::layout::size_of::<T>() <= live_count(h0.objects@)
                * vstd::layout::size_of::<T>()) by (nonlinear_arith)
                requires
                    live_count(mid) <= live_count(h0.objects@),
            ;
            assert forall|k: int| 0 <= k < data.references().len() implies obj_live(
                mid,
                #[trigger] data.references()[k].slot(),
            ) by {
                let b = data.references()[k].slot();
                assert(mid[b] == (if h0.will_collect() && !h0.reachable(b) {
                    None
                } else {
                    h0.objects@[b]
                }));
            }
        }
        let size = core::mem::size_of::<T>();
        let slot = match self.free_slots.pop() {
            Some(s) => {
                let ghost before = self.objects@;
                self.objects.set(s, Some(data));
                self.colours.set(s, Colour::White);
                self.num_roots.set(s, 0);
                proof {
                    lemma_count_where_update(before, s as int, Some(data), |o: Option<T>| o is Some);
                }
                s
            },
            None => {
                let ghost before = self.objects@;
                self.objects.push(Some(data));
                self.colours.push(Colour::White);
                self.num_roots.push(0);
                proof {
                    assert(self.objects@.drop_last() =~= before);
                }
                self.objects.len() - 1
            },
        };
        proof {
            assert((live_count(mid) + 1) * vstd::layout::size_of::<T>() == live_count(mid)
                * vstd::layout::size_of::<T>() + vstd::layout::size_of::<T>()) by (nonlinear_arith);
        }
        self.bytes_allocated = self.bytes_allocated + size;
        proof {
            let objs = self.objects@;
            assert forall|a: int, b: int| #[trigger] obj_points_to(objs, a, b) implies obj_live(objs, b) by {
                if a == slot as int {
                    let m = choose|m: int|
                        0 <= m < objs[a].unwrap().references().len() && #[trigger] objs[a].unwrap().references()[m].slot() == b;
                    assert(obj_live(mid, data.references()[m].slot()));
                } else {
                    assert(obj_points_to(mid, a, b));
                }
            }
            assert forall|j: int|
                0 <= j < self.objects@.len() && j != slot ==> #[trigger] self.objects@[j] == (if h0.survives(j) {
                    h0.objects@[j]
                } else {
                    None
                }) by {
                if 0 <= j < self.objects@.len() && j != slot {
                    if h0.will_collect() && h0.reachable(j) {
                        lemma_reachable_live(h0.objects@, h0.num_roots@, j);
                    }
                }
            }
            if slot < h0.spec_objects().len() {
                assert(mid[slot as int] is None);
                if h0.will_collect() && h0.reachable(slot as int) {
                    lemma_reachable_live(h0.objects@, h0.num_roots@, slot as int);
                }
            }
        }
        slot
    }

    /// Stores a new object holding one root.
    pub fn allocate_root(&mut self, data: T) -> (r: Root)
        requires
            old(self).wf(),
            old(self).can_hold(data),
            old(self).spec_bytes_allocated() + vstd::layout::size_of::<T>() <= usize::MAX / 2,
            old(self).spec_objects().len() + 1 < usize::MAX,
        ensures
            final(self).wf(),
            Self::allocated(old(self), final(self), r.slot(), data, 1),
    {
        let slot = self.allocate_raw(data);
        self.num_roots.set(slot, 1);
        Root { index: slot }
    }

    /// Stores a new object holding one root through which it may be replaced.
    pub fn allocate_unique(&mut self, data: T) -> (r: UniqueRoot)
        requires
            old(self).wf(),
            old(self).can_hold(data),
            old(self).spec_bytes_allocated() + vstd::layout::size_of::<T>() <= usize::MAX / 2,
            old(self).spec_objects().len() + 1 < usize::MAX,
        ensures
            final(self).wf(),
            Self::allocated(old(self), final(self), r.slot(), data, 1),
    {
        let slot = self.allocate_raw(data);
        self.num_roots.set(slot, 1);
        UniqueRoot { index: slot }
    }

    /// Gives up the root of a unique handle.
    pub fn drop_unique_root(&mut self, root: UniqueRoot)
        requires
            old(self).wf(),
            old(self).is_live(root.slot()),
            old(self).root_count(root.slot()) > 0,
        ensures
            final(self).wf(),
            final(self).spec_objects() == old(self).spec_objects(),
            final(self).spec_roots() == old(self).spec_roots().update(
                root.slot(),
                (old(self).spec_roots()[root.slot()] - 1) as usize,
            ),
            final(self).root_count(root.slot()) == old(self).root_count(root.slot()) - 1,
            final(self).spec_bytes_allocated() == old(self).spec_bytes_allocated(),
            final(self).spec_threshold() == old(self).spec_threshold(),
    {
        let n = self.num_roots[root.index];
        self.num_roots.set(root.index, n - 1);
    }

    /// A second root on the object a root keeps alive.
    pub fn clone_root(&mut self, root: &Root) -> (r: Root)
        requires
            old(self).wf(),
            old(self).is_live(root.slot()),
            old(self).root_count(root.slot()) < usize::MAX,
        ensures
            final(self).wf(),
            r.slot() == root.slot(),
            final(self).spec_objects() == old(self).spec_objects(),
            final(self).spec_roots() == old(self).spec_roots().update(
                root.slot(),
                (old(self).spec_roots()[root.slot()] + 1) as usize,
            ),
            final(self).root_count(root.slot()) == old(self).root_count(root.slot()) + 1,
            final(self).spec_bytes_allocated() == old(self).spec_bytes_allocated(),
            final(self).spec_threshold() == old(self).spec_threshold(),
    {
        self.get_root(root.as_gc())
    }

    /// Replaces the object a unique handle keeps alive.
    pub fn replace(&mut self, root: &UniqueRoot, data: T) -> (previous: T)
        requires
            old(self).wf(),
            old(self).is_live(root.slot()),
            forall|k: int|
                0 <= k < data.references().len() ==> old(self).is_live(
                    #[trigger] data.references()[k].slot(),
                ),
        ensures
            final(self).wf(),
            previous == old(self).value(root.slot()),
            final(self).spec_objects() == old(self).spec_objects().update(root.slot(), Some(data)),
            final(self).spec_roots() == old(self).spec_roots(),
            final(self).spec_bytes_allocated() == old(self).spec_bytes_allocated(),
            final(self).spec_threshold() == old(self).spec_threshold(),
    {
        let ghost before = self.objects@;
        let mut slot_value = Some(data);
        self.objects.set_and_swap(root.index, &mut slot_value);
        proof {
            lemma_count_where_update(before, root.slot(), Some(data), |o: Option<T>| o is Some);
            let objs = self.objects@;
            assert forall|a: int, b: int| #[trigger] obj_points_to(objs, a, b) implies obj_live(objs, b) by {
                if a == root.slot() {
                    let m = choose|m: int|
                        0 <= m < objs[a].unwrap().references().len() && #[trigger] objs[a].unwrap().references()[m].slot() == b;
                    assert(obj_live(before, data.references()[m].slot()));
                } else {
                    assert(obj_points_to(before, a, b));
                }
            }
        }
        slot_value.unwrap()
    }
}

/// Allocates an object on `heap`, collecting first if required, and roots it.
pub fn allocate<T: GcManaged>(heap: &mut Heap<T>, data: T) -> (r: Root)
    requires
        old(heap).wf(),
        old(heap).can_hold(data),
        old(heap).spec_bytes_allocated() + vstd::layout::size_of::<T>() <= usize::MAX / 2,
        old(heap).spec_objects().len() + 1 < usize::MAX,
    ensures
        final(heap).wf(),
        Heap::allocated(old(heap), final(heap), r.slot(), data, 1),
{
    heap.allocate_root(data)
}

/// Allocates an object on `heap` behind a unique handle.
pub fn allocate_unique<T: GcManaged>(heap: &mut Heap<T>, data: T) -> (r: UniqueRoot)
    requires
        old(heap).wf(),
        old(heap).can_hold(data),
        old(heap).spec_bytes_allocated() + vstd::layout::size_of::<T>() <= usize::MAX / 2,
        old(heap).spec_objects().len() + 1 < usize::MAX,
    ensures
        final(heap).wf(),
        Heap::allocated(old(heap), final(heap), r.slot(), data, 1),
{
    heap.allocate_unique(data)
}

/// Takes a root on the object `ptr` designates.
pub fn get_root<T: GcManaged>(heap: &mut Heap<T>, ptr: Gc) -> (r: Root)
    requires
        old(heap).wf(),
        old(heap).is_live(ptr.slot()),
        old(heap).root_count(ptr.slot()) < usize::MAX,
    ensures
        final(heap).wf(),
        r.slot() == ptr.slot(),
        final(heap).spec_objects() == old(heap).spec_objects(),
        final(heap).spec_roots() == old(heap).spec_roots().update(
            ptr.slot(),
            (old(heap).spec_roots()[ptr.slot()] + 1) as usize,
        ),
        final(heap).root_count(ptr.slot()) == old(heap).root_count(ptr.slot()) + 1,
        final(heap).spec_bytes_allocated() == old(heap).spec_bytes_allocated(),
        final(heap).spec_threshold() == old(heap).spec_threshold(),
{
    heap.get_root(ptr)
}

impl Root {
    /// Allocates an object on `heap` and roots it.
    pub fn new<T: GcManaged>(heap: &mut Heap<T>, data: T) -> (r: Root)
        requires
            old(heap).wf(),
            old(heap).can_hold(data),
            old(heap).spec_bytes_allocated() + vstd::layout::size_of::<T>() <= usize::MAX / 2,
            old(heap).spec_objects().len() + 1 < usize::MAX,
        ensures
            final(heap).wf(),
            Heap::allocated(old(heap), final(heap), r.slot(), data, 1),
    {
        heap.allocate_root(data)
    }
}

impl UniqueRoot {
    /// Allocates an object on `heap` behind a unique handle.
    pub fn new<T: GcManaged>(heap: &mut Heap<T>, data: T) -> (r: UniqueRoot)
        requires
            old(heap).wf(),
            old(heap).can_hold(data),
            old(heap).spec_bytes_allocated() + vstd::layout::size_of::<T>() <= usize::MAX / 2,
            old(heap).spec_objects().len() + 1 < usize::MAX,
        ensures
            final(heap).wf(),
            Heap::allocated(old(heap), final(heap), r.slot(), data, 1),
    {
        heap.allocate_unique(data)
    }
}

impl Gc {
    /// Takes a root on the object this reference designates.
    pub fn as_root<T: GcManaged>(&self, heap: &mut Heap<T>) -> (r: Root)
        requires
            old(heap).wf(),
            old(heap).is_live(self.slot()),
            old(heap).root_count(self.slot()) < usize::MAX,
        ensures
            final(heap).wf(),
            r.slot() == self.slot(),
            final(heap).spec_objects() == old(heap).spec_objects(),
            final(heap).spec_roots() == old(heap).spec_roots().update(
                self.slot(),
                (old(heap).spec_roots()[self.slot()] + 1) as usize,
            ),
            final(heap).root_count(self.slot()) == old(heap).root_count(self.slot()) + 1,
            final(heap).spec_bytes_allocated() == old(heap).spec_bytes_allocated(),
            final(heap).spec_threshold() == old(heap).spec_threshold(),
    {
        heap.get_root(*self)
    }
}

/// Allocating never frees an object reachable from a rooted one: it keeps
/// its slot and its value, and the new object goes elsewhere.
pub proof fn lemma_allocation_keeps_reachable<T: GcManaged>(
    before: Heap<T>,
    after: Heap<T>,
    slot: int,
    data: T,
    roots: nat,
    j: int,
)
    requires
        before.wf(),
        Heap::allocated(&before, &after, slot, data, roots),
        before.reachable(j),
    ensures
        j != slot,
        after.is_live(j),
        after.value(j) == before.value(j),
{
    lemma_reachable_live(before.spec_objects(), before.spec_roots(), j);
    assert(before.survives(j));
    assert(after.spec_objects()[j] == before.spec_objects()[j]);
}

/// An object that holds a root is never freed: it is reachable.
pub proof fn lemma_rooted_objects_survive<T: GcManaged>(heap: Heap<T>, i: int)
    requires
        heap.wf(),
        heap.is_live(i),
        heap.root_count(i) > 0,
    ensures
        heap.reachable(i),
{
    lemma_rooted_reachable(heap.spec_objects(), heap.spec_roots(), i);
}

/// What a reachable object refers to is reachable too, so a collection
/// never frees an object that a surviving object refers to.
pub proof fn lemma_references_of_reachable_survive<T: GcManaged>(heap: Heap<T>, i: int, j: int)
    requires
        heap.reachable(i),
        obj_points_to(heap.spec_objects(), i, j),
    ensures
        heap.reachable(j),
{
    let p = choose|p: Seq<int>| #[trigger] obj_path(heap.spec_objects(), heap.spec_roots(), p) && p.last() == i;
    lemma_path_extend(heap.spec_objects(), heap.spec_roots(), p, j);
}

/// After a collection every remaining object is reachable, so collecting
/// again at once frees nothing.
pub proof fn lemma_collect_idempotent<T: GcManaged>(
    before: Seq<Option<T>>,
    roots: Seq<usize>,
    after: Seq<Option<T>>,
)
    requires
        obj_closed(before),
        after.len() == before.len(),
        forall|i: int|
            0 <= i < before.len() ==> #[trigger] after[i] == (if obj_reachable(before, roots, i) {
                before[i]
            } else {
                None
            }),
    ensures
        forall|i: int| obj_live(after, i) ==> obj_reachable(after, roots, i),
{
    assert forall|i: int| obj_live(after, i) implies obj_reachable(after, roots, i) by {
        let p = choose|p: Seq<int>| #[trigger] obj_path(before, roots, p) && p.last() == i;
        lemma_path_survives(before, roots, after, p);
    }
}

/// A path whose objects all survive is a path after the collection.
proof fn lemma_path_survives<T: GcManaged>(
    before: Seq<Option<T>>,
    roots: Seq<usize>,
    after: Seq<Option<T>>,
    p: Seq<int>,
)
    requires
        obj_closed(before),
        after.len() == before.len(),
        forall|i: int|
            0 <= i < before.len() ==> #[trigger] after[i] == (if obj_reachable(before, roots, i) {
                before[i]
            } else {
                None
            }),
        obj_path(before, roots, p),
    ensures
        obj_path(after, roots, p),
    decreases p.len(),
{
    if p.len() == 1 {
        lemma_rooted_reachable(before, roots, p[0]);
    } else {
        let q = p.drop_last();
        assert forall|k: int| 0 <= k < q.len() - 1 implies #[trigger] obj_points_to(before, q[k], q[k + 1]) by {
            assert(obj_points_to(before, p[k], p[k + 1]));
        }
        lemma_path_survives(before, roots, after, q);
        assert forall|k: int| 0 <= k < p.len() - 1 implies #[trigger] obj_points_to(after, p[k], p[k + 1]) by {
            assert(obj_points_to(before, p[k], p[k + 1]));
            let pk = p.take(k + 1);
            assert forall|m: int| 0 <= m < pk.len() - 1 implies #[trigger] obj_points_to(before, pk[m], pk[m + 1]) by {
                assert(obj_points_to(before, p[m], p[m + 1]));
            }
            assert(obj_path(before, roots, pk));
            assert(pk.last() == p[k]);
            lemma_reachable_live(before, roots, p[k]);
        }
    }
}

} // verus!
