use vstd::prelude::*;
use core::marker::PhantomData;

verus! {

/// The executable coverage test `overlaps` decides like the mathematical
/// predicate `f`: whatever value a call may return for a region is the value
/// of `f` there. A caller that passes a deterministic test with an exact
/// contract can then name the search result exactly.
pub open spec fn agrees<D, OF: Fn(&D) -> bool>(overlaps: OF, f: spec_fn(D) -> bool) -> bool {
    forall|d: &D, b: bool| #[trigger] overlaps.ensures((d,), b) ==> b == f(*d)
}

/// The capability a region type must offer so that it can shape a spatial
/// tree: a boundary-inclusive overlap test, a center-containment test, and a
/// subdivision into a fixed number `S` of children that tile the region.
///
/// The proof obligations state the tiling discipline the engine relies on:
/// overlap is reflexive and symmetric, a contained center implies overlap,
/// every child lies within its parent, and together the children leave no
/// gap, neither for overlap nor for center containment.
pub trait Dimension<const S: usize>: Sized {
    /// The region is well formed (its extent is not degenerate and its
    /// coordinates stay within the range the arithmetic supports).
    spec fn wf(self) -> bool;

    /// What the executable overlap test decides.
    spec fn spec_overlaps(self, other: Self) -> bool;

    /// What the executable center-containment test decides.
    spec fn spec_contains_center(self, other: Self) -> bool;

    /// The children produced by subdivision, in a fixed order.
    spec fn spec_subdivisions(self) -> Seq<Self>;

    /// True when the two regions overlap, boundaries included.
    fn overlaps(&self, other: &Self) -> (r: bool)
        ensures
            r == self.spec_overlaps(*other),
    ;

    /// True when the center of `point` lies within this region on every
    /// axis, boundaries included.
    fn contains_center(&self, point: &Self) -> (r: bool)
        requires
            self.wf(),
            point.wf(),
        ensures
            r == self.spec_contains_center(*point),
    ;

    /// The `S` children of this region: one per sign combination over the
    /// axes, each covering half of the extent per axis.
    fn subdivisions(&self) -> (r: Vec<Self>)
        requires
            self.wf(),
        ensures
            r@ == self.spec_subdivisions(),
    ;

    /// Overlap is reflexive and symmetric, and a region overlaps every
    /// region whose center it contains.
    proof fn lemma_basics(a: Self, b: Self)
        requires
            a.wf(),
            b.wf(),
        ensures
            a.spec_overlaps(a),
            a.spec_overlaps(b) == b.spec_overlaps(a),
            a.spec_contains_center(b) ==> a.spec_overlaps(b),
    ;

    /// The tiling law: subdivision yields exactly `S` well-formed children;
    /// each child lies within the parent, and anything that overlaps the
    /// parent (or whose center the parent contains) meets some child the
    /// same way.
    proof fn lemma_subdivisions(a: Self, x: Self)
        requires
            a.wf(),
            x.wf(),
        ensures
            a.spec_subdivisions().len() == S,
            forall|i: int| 0 <= i < S ==> (#[trigger] a.spec_subdivisions()[i]).wf(),
            forall|i: int| 0 <= i < S ==> ((#[trigger] a.spec_subdivisions()[i]).spec_overlaps(x)
                ==> a.spec_overlaps(x)),
            forall|i: int| 0 <= i < S ==> ((#[trigger] a.spec_subdivisions()[
                i
            ]).spec_contains_center(x) ==> a.spec_contains_center(x)),
            a.spec_overlaps(x) ==> exists|i: int|
                0 <= i < S && (#[trigger] a.spec_subdivisions()[i]).spec_overlaps(x),
            a.spec_contains_center(x) ==> exists|i: int|
                0 <= i < S && (#[trigger] a.spec_subdivisions()[i]).spec_contains_center(x),
    ;
}

/// The recursive engine of the spatial tree. A node covers a region and
/// stores (identifier, region) pairs, either locally while it is growing or
/// in `S` child nodes once it has subdivided.
pub trait Node<I, const S: usize, D: Dimension<S>>: Sized {
    /// The node's internal invariant: regions are well formed, stored pairs
    /// overlap the node's coverage, and children tile their parent.
    spec fn inv(self) -> bool;

    /// The region this node covers.
    spec fn region(self) -> D;

    /// True once the node has split into children.
    spec fn subdivided(self) -> bool;

    /// True while the node still has depth left to split.
    spec fn can_subdivide(self) -> bool;

    /// Every pair a search can still reach: the local pairs of all live
    /// leaves below this node.
    spec fn stored(self) -> Seq<(I, D)>;

    /// What a search for `area` returns: the pairs of every leaf whose whole
    /// path overlaps `area`.
    spec fn found(self, area: D) -> Seq<(I, D)>;

    /// What a search with an arbitrary coverage predicate returns.
    spec fn found_with(self, cover: spec_fn(D) -> bool) -> Seq<(I, D)>;

    /// Insert a pair. The pair is stored whenever it overlaps the node's
    /// region; the result reports whether the region contains the pair's
    /// center (only such inserts are counted).
    fn insert(&mut self, id: I, other: D) -> (r: bool)
        requires
            old(self).inv(),
            other.wf(),
        ensures
            final(self).inv(),
            final(self).region() == old(self).region(),
            final(self).can_subdivide() == old(self).can_subdivide(),
            old(self).subdivided() ==> final(self).subdivided(),
            r == old(self).region().spec_contains_center(other),
            forall|p: (I, D)| #[trigger]
                final(self).stored().contains(p) <==> (old(self).stored().contains(p) || (p == (
                    id,
                    other,
                ) && old(self).region().spec_overlaps(other))),
            !old(self).region().spec_overlaps(other) ==> *final(self) == *old(self),
    ;

    /// Split the node into `S` children and replay the stored pairs into
    /// them. Splitting is one-way and keeps the set of stored pairs.
    fn subdivide(&mut self)
        requires
            old(self).inv(),
            !old(self).subdivided(),
            old(self).can_subdivide(),
        ensures
            final(self).inv(),
            final(self).subdivided(),
            final(self).region() == old(self).region(),
            final(self).can_subdivide() == old(self).can_subdivide(),
            forall|p: (I, D)| #[trigger]
                final(self).stored().contains(p) <==> old(self).stored().contains(p),
    ;

    /// Append to `buffer` every pair of every leaf whose whole path overlaps
    /// `area`. Stored pairs are not re-tested individually: the result is a
    /// conservative superset of the true matches.
    fn search(&self, area: &D, buffer: &mut Vec<(I, D)>)
        requires
            self.inv(),
        ensures
            final(buffer)@ == old(buffer)@ + self.found(*area),
    ;

    /// The same traversal with a caller-supplied coverage test in place of
    /// the fixed overlap test.
    fn search_with<OF: Fn(&D) -> bool>(&self, overlaps: &OF, buffer: &mut Vec<(I, D)>)
        requires
            self.inv(),
            forall|d: &D| #[trigger] overlaps.requires((d,)),
        ensures
            forall|f: spec_fn(D) -> bool|
                agrees(*overlaps, f) ==> final(buffer)@ == old(buffer)@ + #[trigger] self.found_with(f),
    ;

    /// Empty every leaf below this node. The topology (which nodes have
    /// subdivided) is permanent and stays.
    fn clear(&mut self)
        requires
            old(self).inv(),
        ensures
            final(self).inv(),
            final(self).region() == old(self).region(),
            final(self).subdivided() == old(self).subdivided(),
            final(self).can_subdivide() == old(self).can_subdivide(),
            final(self).stored() == Seq::<(I, D)>::empty(),
            forall|area: D| #[trigger] final(self).found(area) == Seq::<(I, D)>::empty(),
    ;

    /// A search that asks for everything the root region covers misses
    /// nothing: it returns exactly the stored pairs.
    proof fn lemma_found_complete(self)
        requires
            self.inv(),
        ensures
            self.found(self.region()) == self.stored(),
    ;

    /// A search only ever returns stored pairs; the false positives it may
    /// include are stored pairs outside the queried area, never inventions.
    proof fn lemma_found_sound(self, area: D)
        ensures
            forall|p: (I, D)| #[trigger]
                self.found(area).contains(p) ==> self.stored().contains(p),
    ;
}

/// The public face of the spatial index: one root node and a running count
/// of the inserts whose center fell inside the covered region.
#[derive(Debug)]
pub struct Tree<I, const S: usize, D: Dimension<S>, N: Node<I, S, D>> {
    prime: N,
    count: usize,
    i: PhantomData<I>,
    dim: PhantomData<D>,
}

impl<I, const S: usize, D: Dimension<S>, N: Node<I, S, D>> Tree<I, S, D, N> {
    /// The root node.
    pub closed spec fn root(self) -> N {
        self.prime
    }

    /// How many inserts have been accepted since construction.
    pub closed spec fn spec_count(self) -> nat {
        self.count as nat
    }

    /// The tree is well formed when its root node is.
    pub open spec fn wf(self) -> bool {
        self.root().inv()
    }

    /// The region the whole tree covers.
    pub open spec fn region(self) -> D {
        self.root().region()
    }

    /// Every pair a search can still reach.
    pub open spec fn stored(self) -> Seq<(I, D)> {
        self.root().stored()
    }

    /// What `search` returns for `area`.
    pub open spec fn found(self, area: D) -> Seq<(I, D)> {
        self.root().found(area)
    }

    /// What `search_custom` returns for a coverage predicate.
    pub open spec fn found_with(self, cover: spec_fn(D) -> bool) -> Seq<(I, D)> {
        self.root().found_with(cover)
    }

    /// Wrap a root node into a tree with a fresh insert counter.
    pub fn new_tree(prime: N) -> (r: Self)
        requires
            prime.inv(),
        ensures
            r.wf(),
            r.root() == prime,
            r.spec_count() == 0,
    {
        Self { prime, count: 0, i: PhantomData, dim: PhantomData }
    }

    /// Insert a pair and count it when its center lies in the covered
    /// region. The pair is stored whenever it overlaps the covered region,
    /// counted or not.
    pub fn insert(&mut self, id: I, item: D) -> (r: bool)
        requires
            old(self).wf(),
            item.wf(),
            old(self).spec_count() < usize::MAX,
        ensures
            final(self).wf(),
            final(self).region() == old(self).region(),
            r == old(self).region().spec_contains_center(item),
            final(self).spec_count() == old(self).spec_count() + (if r {
                1int
            } else {
                0int
            }),
            forall|p: (I, D)| #[trigger]
                final(self).stored().contains(p) <==> (old(self).stored().contains(p) || (p == (
                    id,
                    item,
                ) && old(self).region().spec_overlaps(item))),
            old(self).root().subdivided() ==> final(self).root().subdivided(),
            !old(self).region().spec_overlaps(item) ==> final(self).root() == old(self).root(),
    {
        if self.prime.insert(id, item) {
            self.count = self.count + 1;
            true
        } else {
            false
        }
    }

    /// Collect every pair of every leaf whose path overlaps `area`. The
    /// result may hold duplicates (pairs straddling a split boundary) and
    /// pairs that merely share a leaf with the queried area.
    pub fn search(&self, area: &D) -> (r: Vec<(I, D)>)
        requires
            self.wf(),
        ensures
            r@ == self.found(*area),
    {
        let mut buffer: Vec<(I, D)> = Vec::with_capacity(self.count);
        self.prime.search(area, &mut buffer);
        buffer
    }

    /// The same traversal with a caller-supplied coverage test.
    pub fn search_custom<OF: Fn(&D) -> bool>(&self, overlaps: &OF) -> (r: Vec<(I, D)>)
        requires
            self.wf(),
            forall|d: &D| #[trigger] overlaps.requires((d,)),
        ensures
            forall|f: spec_fn(D) -> bool|
                agrees(*overlaps, f) ==> r@ == #[trigger] self.found_with(f),
    {
        let mut buffer: Vec<(I, D)> = Vec::with_capacity(self.count);
        self.prime.search_with(overlaps, &mut buffer);
        buffer
    }

    /// Empty every leaf. The insert counter keeps its value: it exists to
    /// pre-size search buffers and deliberately survives a clear.
    pub fn clear(&mut self)
        requires
            old(self).wf(),
        ensures
            final(self).wf(),
            final(self).region() == old(self).region(),
            final(self).spec_count() == old(self).spec_count(),
            final(self).stored() == Seq::<(I, D)>::empty(),
            forall|area: D| #[trigger] final(self).found(area) == Seq::<(I, D)>::empty(),
    {
        self.prime.clear();
    }

    /// Borrow the root node.
    pub fn prime(&self) -> (r: &N)
        ensures
            *r == self.root(),
    {
        &self.prime
    }

    /// The number of accepted inserts so far.
    pub fn count(&self) -> (r: usize)
        ensures
            r == self.spec_count(),
    {
        self.count
    }

    /// Searching for everything the tree covers misses nothing: the result
    /// is exactly the stored pairs, so no truly overlapping pair is omitted.
    pub proof fn lemma_search_root_complete(self)
        requires
            self.wf(),
        ensures
            self.found(self.region()) == self.stored(),
    {
        self.root().lemma_found_complete();
    }

    /// A search never invents pairs: everything it returns is stored.
    pub proof fn lemma_search_sound(self, area: D)
        ensures
            forall|p: (I, D)| #[trigger]
                self.found(area).contains(p) ==> self.stored().contains(p),
    {
        self.root().lemma_found_sound(area);
    }
}

} // verus!
