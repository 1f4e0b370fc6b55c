use vstd::prelude::*;
use crate::tree::Dimension;
use crate::tree::agrees;
use crate::tree::Node;

verus! {

/// The coverage predicate that accepts every region; searching with it
/// reaches every live leaf, so it describes the stored pairs themselves.
pub open spec fn cover_all<D>() -> spec_fn(D) -> bool {
    |d: D| true
}

/// The coverage predicate of an ordinary search: a node is entered when its
/// region overlaps the queried area.
pub open spec fn overlap_cover<const S: usize, D: Dimension<S>>(area: D) -> spec_fn(D) -> bool {
    |d: D| d.spec_overlaps(area)
}

/// The default node of the spatial tree. A node covers `space` and is either
/// still growing (pairs kept in `objects`) or subdivided (pairs kept in `S`
/// child nodes; the local list is then dead weight that is never read again).
/// `count` counts the pairs whose center lies inside `space` and gates
/// subdivision; `depth_limit` says how many further levels may be built.
#[derive(Debug)]
pub struct TNode<I: Copy, const S: usize, D: Copy + Dimension<S>> {
    space: D,
    count: usize,
    capacity: u8,
    depth_limit: u8,
    nodes: Option<Box<Vec<TNode<I, S, D>>>>,
    objects: Vec<(I, D)>,
}

impl<I: Copy, const S: usize, D: Copy + Dimension<S>> TNode<I, S, D> {
    /// The child nodes, once subdivided.
    pub closed spec fn spec_subtrees(self) -> Seq<Self> {
        self.nodes->0@
    }

    /// Regions are well formed, every stored pair overlaps the region of its
    /// node, and children cover exactly the subdivisions of their parent
    /// with one level less of remaining depth.
    spec fn inv_rec(self) -> bool
        decreases self.depth_limit,
    {
        &&& self.space.wf()
        &&& self.count <= self.objects@.len()
        &&& (forall|k: int| 0 <= k < self.objects@.len() ==> (#[trigger] self.objects@[k]).1.wf()
            && self.space.spec_overlaps(self.objects@[k].1))
        &&& match self.nodes {
            Some(ch) => {
                &&& self.depth_limit >= 1
                &&& self.count == 0
                &&& ch@.len() == S
                &&& (forall|i: int| 0 <= i < ch@.len() ==> (#[trigger] ch@[i]).depth_limit + 1
                    == self.depth_limit)
                &&& (forall|i: int| 0 <= i < ch@.len() ==> (#[trigger] ch@[i]).capacity
                    == self.capacity)
                &&& (forall|i: int| 0 <= i < ch@.len() ==> (#[trigger] ch@[i]).space
                    == self.space.spec_subdivisions()[i])
                &&& (forall|i: int| 0 <= i < ch@.len() ==> (#[trigger] ch@[i]).inv_rec())
            },
            None => true,
        }
    }

    /// The pairs a traversal with coverage predicate `f` collects: nothing
    /// when `f` rejects this node's region; the local pairs at a live leaf;
    /// the concatenation of what the children yield once subdivided.
    pub closed spec fn found_by(self, f: spec_fn(D) -> bool) -> Seq<(I, D)>
        decreases self,
    {
        if !f(self.space) {
            Seq::empty()
        } else {
            match self.nodes {
                Some(ch) => Self::found_by_of(ch@, f),
                None => self.objects@,
            }
        }
    }

    /// What a row of sibling nodes contributes to a traversal, in order.
    pub closed spec fn found_by_of(nodes: Seq<Self>, f: spec_fn(D) -> bool) -> Seq<(I, D)>
        decreases nodes,
    {
        if nodes.len() == 0 {
            Seq::empty()
        } else {
            nodes[0].found_by(f) + Self::found_by_of(nodes.drop_first(), f)
        }
    }

    proof fn lemma_concat_contains(a: Seq<(I, D)>, b: Seq<(I, D)>, p: (I, D))
        ensures
            (a + b).contains(p) <==> (a.contains(p) || b.contains(p)),
    {
        if a.contains(p) {
            let i = choose|i: int| 0 <= i < a.len() && a[i] == p;
            assert((a + b)[i] == p);
        }
        if b.contains(p) {
            let i = choose|i: int| 0 <= i < b.len() && b[i] == p;
            assert((a + b)[a.len() + i] == p);
        }
        if (a + b).contains(p) {
            let i = choose|i: int| 0 <= i < (a + b).len() && (a + b)[i] == p;
            if i < a.len() {
                assert(a[i] == p);
            } else {
                assert(b[i - a.len()] == p);
            }
        }
    }

    proof fn lemma_push_contains(s: Seq<(I, D)>, x: (I, D), p: (I, D))
        ensures
            s.push(x).contains(p) <==> (s.contains(p) || p == x),
    {
        assert(s.push(x)[s.len() as int] == x);
        if s.contains(p) {
            let i = choose|i: int| 0 <= i < s.len() && s[i] == p;
            assert(s.push(x)[i] == p);
        }
        if s.push(x).contains(p) {
            let i = choose|i: int| 0 <= i < s.push(x).len() && s.push(x)[i] == p;
            if i < s.len() {
                assert(s[i] == p);
            }
        }
    }

    proof fn lemma_found_by_of_append(a: Seq<Self>, b: Seq<Self>, f: spec_fn(D) -> bool)
        ensures
            Self::found_by_of(a + b, f) == Self::found_by_of(a, f) + Self::found_by_of(b, f),
        decreases a,
    {
        if a.len() == 0 {
            assert(a + b =~= b);
            assert(Self::found_by_of(a, f) + Self::found_by_of(b, f) =~= Self::found_by_of(b, f));
        } else {
            assert((a + b).drop_first() =~= a.drop_first() + b);
            assert((a + b)[0] == a[0]);
            Self::lemma_found_by_of_append(a.drop_first(), b, f);
            assert(a[0].found_by(f) + (Self::found_by_of(a.drop_first(), f) + Self::found_by_of(
                b,
                f,
            )) =~= (a[0].found_by(f) + Self::found_by_of(a.drop_first(), f)) + Self::found_by_of(
                b,
                f,
            ));
        }
    }

    proof fn lemma_found_by_of_snoc(nodes: Seq<Self>, i: int, f: spec_fn(D) -> bool)
        requires
            0 <= i < nodes.len(),
        ensures
            Self::found_by_of(nodes.subrange(0, i + 1), f) == Self::found_by_of(
                nodes.subrange(0, i),
                f,
            ) + nodes[i].found_by(f),
    {
        let single = seq![nodes[i]];
        assert(nodes.subrange(0, i + 1) =~= nodes.subrange(0, i) + single);
        Self::lemma_found_by_of_append(nodes.subrange(0, i), single, f);
        assert(single.drop_first().len() == 0);
        assert(Self::found_by_of(single.drop_first(), f) == Seq::<(I, D)>::empty());
        assert(single[0] == nodes[i]);
        assert(Self::found_by_of(single, f) =~= nodes[i].found_by(f));
    }

    proof fn lemma_found_by_of_contains(nodes: Seq<Self>, f: spec_fn(D) -> bool, p: (I, D))
        ensures
            Self::found_by_of(nodes, f).contains(p) <==> exists|i: int|
                0 <= i < nodes.len() && (#[trigger] nodes[i]).found_by(f).contains(p),
        decreases nodes,
    {
        if nodes.len() == 0 {
        } else {
            let rest = nodes.drop_first();
            Self::lemma_concat_contains(nodes[0].found_by(f), Self::found_by_of(rest, f), p);
            Self::lemma_found_by_of_contains(rest, f, p);
            if Self::found_by_of(nodes, f).contains(p) {
                if nodes[0].found_by(f).contains(p) {
                    assert(0 <= 0 < nodes.len() && nodes[0].found_by(f).contains(p));
                } else {
                    let j = choose|j: int|
                        0 <= j < rest.len() && (#[trigger] rest[j]).found_by(f).contains(p);
                    assert(nodes[j + 1].found_by(f).contains(p));
                }
            }
            if (exists|i: int|
                0 <= i < nodes.len() && (#[trigger] nodes[i]).found_by(f).contains(p)) {
                let i = choose|i: int|
                    0 <= i < nodes.len() && (#[trigger] nodes[i]).found_by(f).contains(p);
                if i > 0 {
                    assert(rest[i - 1].found_by(f).contains(p));
                }
            }
        }
    }

    /// Whatever a traversal finds, a traversal that enters everything also
    /// finds: a search never returns a pair that is not stored.
    proof fn lemma_found_by_in_stored(self, f: spec_fn(D) -> bool, p: (I, D))
        ensures
            self.found_by(f).contains(p) ==> self.found_by(cover_all::<D>()).contains(p),
        decreases self,
    {
        if self.found_by(f).contains(p) {
            if self.nodes is Some {
                let ch = self.nodes->0@;
                Self::lemma_found_by_of_contains(ch, f, p);
                let i = choose|i: int|
                    0 <= i < ch.len() && (#[trigger] ch[i]).found_by(f).contains(p);
                assert(decreases_to!(self => self.nodes->0));
                assert(decreases_to!(self.nodes->0 => self.nodes->0@));
                assert(decreases_to!(self.nodes->0@ => self.nodes->0@[i]));
                ch[i].lemma_found_by_in_stored(f, p);
                Self::lemma_found_by_of_contains(ch, cover_all::<D>(), p);
            }
        }
    }

    /// A traversal finds at most as many pairs as are stored.
    proof fn lemma_found_by_le_len(self, f: spec_fn(D) -> bool)
        ensures
            self.found_by(f).len() <= self.found_by(cover_all::<D>()).len(),
        decreases self,
    {
        if f(self.space) && self.nodes is Some {
            Self::lemma_found_by_of_le_len(self.nodes->0@, f);
        }
    }

    proof fn lemma_found_by_of_le_len(nodes: Seq<Self>, f: spec_fn(D) -> bool)
        ensures
            Self::found_by_of(nodes, f).len() <= Self::found_by_of(
                nodes,
                cover_all::<D>(),
            ).len(),
        decreases nodes,
    {
        if nodes.len() > 0 {
            assert(decreases_to!(nodes => nodes[0]));
            nodes[0].lemma_found_by_le_len(f);
            Self::lemma_found_by_of_le_len(nodes.drop_first(), f);
        }
    }

    proof fn lemma_found_by_of_all_empty(nodes: Seq<Self>, f: spec_fn(D) -> bool)
        requires
            forall|i: int| 0 <= i < nodes.len() ==> (#[trigger] nodes[i]).found_by(f)
                == Seq::<(I, D)>::empty(),
        ensures
            Self::found_by_of(nodes, f) == Seq::<(I, D)>::empty(),
        decreases nodes,
    {
        if nodes.len() > 0 {
            let rest = nodes.drop_first();
            assert(forall|i: int| 0 <= i < rest.len() ==> rest[i] == nodes[i + 1]);
            Self::lemma_found_by_of_all_empty(rest, f);
            assert(nodes[0].found_by(f) + Self::found_by_of(rest, f) =~= Seq::<(I, D)>::empty());
        }
    }

    proof fn lemma_found_by_of_congr(
        nodes: Seq<Self>,
        f: spec_fn(D) -> bool,
        g: spec_fn(D) -> bool,
    )
        requires
            forall|i: int| 0 <= i < nodes.len() ==> (#[trigger] nodes[i]).found_by(f)
                == nodes[i].found_by(g),
        ensures
            Self::found_by_of(nodes, f) == Self::found_by_of(nodes, g),
        decreases nodes,
    {
        if nodes.len() > 0 {
            let rest = nodes.drop_first();
            assert(forall|i: int| 0 <= i < rest.len() ==> rest[i] == nodes[i + 1]);
            Self::lemma_found_by_of_congr(rest, f, g);
        }
    }

    /// Completeness of the search below a node: when everything that
    /// overlaps this node's region also overlaps `area`, the search for
    /// `area` reaches every live leaf below the node and returns exactly the
    /// stored pairs.
    proof fn lemma_found_within(self, area: D)
        requires
            self.inv(),
            area.wf(),
            forall|x: D| x.wf() ==> (#[trigger] x.spec_overlaps(self.space) ==> x.spec_overlaps(
                area,
            )),
        ensures
            self.found_by(overlap_cover::<S, D>(area)) == self.found_by(cover_all::<D>()),
        decreases self.depth_limit,
    {
        let f = overlap_cover::<S, D>(area);
        D::lemma_basics(self.space, area);
        assert(self.space.spec_overlaps(area));
        assert(f(self.space));
        if self.nodes is Some {
            let ch = self.nodes->0@;
            assert forall|i: int| 0 <= i < ch.len() implies (#[trigger] ch[i]).found_by(f) == ch[
                i
            ].found_by(cover_all::<D>()) by {
                assert(ch[i].space == self.space.spec_subdivisions()[i]);
                assert forall|x: D| x.wf() && #[trigger] x.spec_overlaps(ch[i].space) implies x
                    .spec_overlaps(area) by {
                    D::lemma_subdivisions(self.space, x);
                    D::lemma_basics(ch[i].space, x);
                    D::lemma_basics(self.space, x);
                }
                ch[i].lemma_found_within(area);
            }
            Self::lemma_found_by_of_congr(ch, f, cover_all::<D>());
        }
    }

    /// A fresh growing node covering `rect`.
    fn new_node(rect: D, capacity: u8, depth: u8) -> (r: Self)
        requires
            rect.wf(),
        ensures
            r.inv(),
            r.space == rect,
            r.count == 0,
            r.capacity == capacity,
            r.depth_limit == depth,
            r.nodes is None,
            r.objects@ == Seq::<(I, D)>::empty(),
            r.found_by(cover_all::<D>()) == Seq::<(I, D)>::empty(),
    {
        Self {
            space: rect,
            count: 0,
            capacity,
            depth_limit: depth,
            nodes: None,
            objects: Vec::with_capacity(capacity as usize),
        }
    }

    /// A fresh growing node covering `rect`, with the given capacity
    /// threshold and remaining depth. A zero capacity would make every
    /// center-contained insert subdivide down to the depth limit at once;
    /// such a degenerate configuration is rejected here, at construction.
    pub fn new(rect: D, capacity: u8, depth: u8) -> (r: Self)
        requires
            rect.wf(),
            capacity >= 1,
        ensures
            r.inv(),
            r.region() == rect,
            !r.subdivided(),
            r.can_subdivide() == (depth >= 1),
            r.stored() == Seq::<(I, D)>::empty(),
    {
        Self::new_node(rect, capacity, depth)
    }

    /// The region this node covers.
    pub fn space(&self) -> (r: &D)
        ensures
            *r == self.region(),
    {
        &self.space
    }

    /// Whether this node has split into children.
    pub fn is_subdivided(&self) -> (r: bool)
        ensures
            r == self.subdivided(),
    {
        self.nodes.is_some()
    }

    /// Borrow the `i`-th child of a subdivided node.
    pub fn subtree(&self, i: usize) -> (r: &Self)
        requires
            self.inv(),
            self.subdivided(),
            i < S,
        ensures
            *r == self.spec_subtrees()[i as int],
            r.inv(),
            r.region() == self.region().spec_subdivisions()[i as int],
    {
        let v: &Vec<Self> = &**self.nodes.as_ref().unwrap();
        &v[i]
    }

    /// Forward a pair to every child whose region overlaps it; a subdivided
    /// node accepts the pair exactly when its region contains the center.
    #[verifier::loop_isolation(false)]
    fn push_to(&mut self, id: I, rect: D) -> (r: bool)
        requires
            old(self).inv(),
            rect.wf(),
        ensures
            final(self).inv(),
            final(self).space == old(self).space,
            final(self).depth_limit == old(self).depth_limit,
            final(self).capacity == old(self).capacity,
            final(self).count == old(self).count,
            final(self).objects == old(self).objects,
            (final(self).nodes is Some) == (old(self).nodes is Some),
            old(self).nodes is None ==> *final(self) == *old(self) && r == false,
            old(self).nodes is Some ==> r == old(self).space.spec_contains_center(rect),
            forall|p: (I, D)| #[trigger]
                final(self).found_by(cover_all::<D>()).contains(p) <==> (old(self).found_by(
                    cover_all::<D>(),
                ).contains(p) || (p == (id, rect) && old(self).nodes is Some && old(
                    self,
                ).space.spec_overlaps(rect))),
        decreases old(self).depth_limit as int, 0int,
    {
        let taken = self.nodes.take();
        match taken {
            Some(bx) => {
                let mut v: Vec<Self> = *bx;
                let n = v.len();
                let mut b = false;
                let ghost olds = old(self).nodes->0@;
                proof {
                    assert(v@ == olds);
                }
                for i in 0..n
                    invariant
                        n == v@.len(),
                        forall|k: int| i <= k < n ==> v@[k] == olds[k],
                        forall|k: int| 0 <= k < i ==> (#[trigger] v@[k]).inv()
                            && v@[k].space == olds[k].space
                            && v@[k].depth_limit == olds[k].depth_limit
                            && v@[k].capacity == olds[k].capacity,
                        forall|k: int, p: (I, D)| 0 <= k < i ==> ((#[trigger] v@[k].found_by(
                            cover_all::<D>(),
                        ).contains(p)) <==> (olds[k].found_by(cover_all::<D>()).contains(p) || (p
                            == (id, rect) && olds[k].space.spec_overlaps(rect)))),
                        b == exists|k: int|
                            0 <= k < i && (#[trigger] olds[k]).space.spec_contains_center(rect),
                {
                    let ri = v[i].insert_rec(id, rect);
                    proof {
                        if ri {
                            assert(olds[i as int].space.spec_contains_center(rect));
                        }
                    }
                    b = b || ri;
                }
                proof {
                    D::lemma_subdivisions(old(self).space, rect);
                    if b {
                        let k = choose|k: int|
                            0 <= k < n && (#[trigger] olds[k]).space.spec_contains_center(rect);
                        assert(old(self).space.spec_subdivisions()[k].spec_contains_center(rect));
                        assert(old(self).space.spec_contains_center(rect));
                    }
                    if old(self).space.spec_contains_center(rect) {
                        let k = choose|k: int|
                            0 <= k < S && (#[trigger] old(self).space.spec_subdivisions()[
                                k
                            ]).spec_contains_center(rect);
                        assert(olds[k].space.spec_contains_center(rect));
                    }
                    assert forall|p: (I, D)| #[trigger]
                        Self::found_by_of(v@, cover_all::<D>()).contains(p) <==> (
                        Self::found_by_of(olds, cover_all::<D>()).contains(p) || (p == (id, rect)
                            && old(self).space.spec_overlaps(rect))) by {
                        Self::lemma_found_by_of_contains(v@, cover_all::<D>(), p);
                        Self::lemma_found_by_of_contains(olds, cover_all::<D>(), p);
                        if Self::found_by_of(v@, cover_all::<D>()).contains(p) {
                            let k = choose|k: int|
                                0 <= k < v@.len() && (#[trigger] v@[k]).found_by(
                                    cover_all::<D>(),
                                ).contains(p);
                            if olds[k].found_by(cover_all::<D>()).contains(p) {
                                assert(Self::found_by_of(olds, cover_all::<D>()).contains(p));
                            } else {
                                assert(p == (id, rect) && olds[k].space.spec_overlaps(rect));
                                assert(old(self).space.spec_overlaps(rect));
                            }
                        }
                        if Self::found_by_of(olds, cover_all::<D>()).contains(p) {
                            let k = choose|k: int|
                                0 <= k < olds.len() && (#[trigger] olds[k]).found_by(
                                    cover_all::<D>(),
                                ).contains(p);
                            assert(v@[k].found_by(cover_all::<D>()).contains(p));
                        }
                        if p == (id, rect) && old(self).space.spec_overlaps(rect) {
                            let k = choose|k: int|
                                0 <= k < S && (#[trigger] old(self).space.spec_subdivisions()[
                                    k
                                ]).spec_overlaps(rect);
                            assert(olds[k].space.spec_overlaps(rect));
                            assert(v@[k].found_by(cover_all::<D>()).contains(p));
                        }
                    }
                }
                let ghost vfin = v@;
                self.nodes = Some(Box::new(v));
                proof {
                    assert(self.nodes->0@ == vfin);
                    assert forall|p: (I, D)| #[trigger]
                        self.found_by(cover_all::<D>()).contains(p) <==> (old(self).found_by(
                            cover_all::<D>(),
                        ).contains(p) || (p == (id, rect) && old(self).nodes is Some && old(
                            self,
                        ).space.spec_overlaps(rect))) by {
                        assert(self.found_by(cover_all::<D>()) == Self::found_by_of(
                            vfin,
                            cover_all::<D>(),
                        ));
                        assert(old(self).found_by(cover_all::<D>()) == Self::found_by_of(
                            olds,
                            cover_all::<D>(),
                        ));
                    }
                }
                b
            }
            None => false,
        }
    }

    /// The recursive insert: reject on no overlap, append at a depth-
    /// exhausted leaf, fan out when subdivided, and otherwise grow locally,
    /// subdividing first once the capacity is met by a center-contained
    /// pair.
    fn insert_rec(&mut self, id: I, other: D) -> (r: bool)
        requires
            old(self).inv(),
            other.wf(),
        ensures
            final(self).inv(),
            final(self).space == old(self).space,
            final(self).depth_limit == old(self).depth_limit,
            final(self).capacity == old(self).capacity,
            old(self).nodes is Some ==> final(self).nodes is Some,
            r == old(self).space.spec_contains_center(other),
            forall|p: (I, D)| #[trigger]
                final(self).found_by(cover_all::<D>()).contains(p) <==> (old(self).found_by(
                    cover_all::<D>(),
                ).contains(p) || (p == (id, other) && old(self).space.spec_overlaps(other))),
            !old(self).space.spec_overlaps(other) ==> *final(self) == *old(self),
        decreases old(self).depth_limit as int, 2int,
    {
        if !self.space.overlaps(&other) {
            proof {
                D::lemma_basics(old(self).space, other);
            }
            return false;
        }
        if self.depth_limit == 0 {
            let contains = self.space.contains_center(&other);
            self.objects.push((id, other));
            let stored_now = self.objects.len();
            let r: bool;
            if contains {
                proof {
                    assert(old(self).count < stored_now);
                }
                self.count = self.count + 1;
                r = true;
            } else {
                r = false;
            }
            proof {
                assert forall|p: (I, D)| #[trigger]
                    self.found_by(cover_all::<D>()).contains(p) <==> (old(self).found_by(
                        cover_all::<D>(),
                    ).contains(p) || (p == (id, other) && old(self).space.spec_overlaps(
                        other,
                    ))) by {
                    Self::lemma_push_contains(old(self).objects@, (id, other), p);
                }
            }
            return r;
        }
        if self.nodes.is_some() {
            return self.push_to(id, other);
        }
        let contains = self.space.contains_center(&other);
        if self.count >= self.capacity as usize && contains {
            self.subdivide_rec();
            let r = self.push_to(id, other);
            return r;
        }
        self.objects.push((id, other));
        let stored_now = self.objects.len();
        let r: bool;
        if contains {
            proof {
                assert(old(self).count < stored_now);
            }
            self.count = self.count + 1;
            r = true;
        } else {
            r = false;
        }
        proof {
            assert forall|p: (I, D)| #[trigger]
                self.found_by(cover_all::<D>()).contains(p) <==> (old(self).found_by(
                    cover_all::<D>(),
                ).contains(p) || (p == (id, other) && old(self).space.spec_overlaps(other))) by {
                Self::lemma_push_contains(old(self).objects@, (id, other), p);
            }
        }
        r
    }

    /// Build the children and replay every locally stored pair into them.
    /// The set of stored pairs is unchanged; the local list stays behind as
    /// dead weight that no later insert or search reads.
    #[verifier::loop_isolation(false)]
    fn subdivide_rec(&mut self)
        requires
            old(self).inv(),
            old(self).nodes is None,
            old(self).depth_limit >= 1,
        ensures
            final(self).inv(),
            final(self).space == old(self).space,
            final(self).depth_limit == old(self).depth_limit,
            final(self).capacity == old(self).capacity,
            final(self).nodes is Some,
            forall|p: (I, D)| #[trigger]
                final(self).found_by(cover_all::<D>()).contains(p) <==> old(self).found_by(
                    cover_all::<D>(),
                ).contains(p),
        decreases old(self).depth_limit as int, 1int,
    {
        let subs: Vec<D> = self.space.subdivisions();
        proof {
            D::lemma_subdivisions(old(self).space, old(self).space);
        }
        let mut children: Vec<Self> = Vec::new();
        let n = subs.len();
        for i in 0..n
            invariant
                children@.len() == i,
                forall|k: int| 0 <= k < i ==> (#[trigger] children@[k]).inv()
                    && children@[k].space == subs@[k]
                    && children@[k].depth_limit == old(self).depth_limit - 1
                    && children@[k].capacity == old(self).capacity
                    && children@[k].found_by(cover_all::<D>()) == Seq::<(I, D)>::empty(),
        {
            let child = Self::new_node(subs[i], self.capacity, self.depth_limit - 1);
            children.push(child);
        }
        self.nodes = Some(Box::new(children));
        self.count = 0;
        proof {
            assert forall|p: (I, D)| !(#[trigger] self.found_by(cover_all::<D>()).contains(
                p,
            )) by {
                Self::lemma_found_by_of_contains(self.nodes->0@, cover_all::<D>(), p);
            }
        }
        let m = self.objects.len();
        for i in 0..m
            invariant
                self.inv(),
                self.nodes is Some,
                self.space == old(self).space,
                self.depth_limit == old(self).depth_limit,
                self.capacity == old(self).capacity,
                self.count == 0,
                self.objects == old(self).objects,
                forall|p: (I, D)| #[trigger]
                    self.found_by(cover_all::<D>()).contains(p) <==> exists|k: int|
                        0 <= k < i && old(self).objects@[k] == p,
        {
            let o = self.objects[i];
            proof {
                assert(old(self).objects@[i as int].1.wf());
                assert(old(self).space.spec_overlaps(old(self).objects@[i as int].1));
            }
            self.push_to(o.0, o.1);
            proof {
                assert forall|p: (I, D)| #[trigger]
                    self.found_by(cover_all::<D>()).contains(p) <==> exists|k: int|
                        0 <= k < i + 1 && old(self).objects@[k] == p by {
                    if self.found_by(cover_all::<D>()).contains(p) {
                        if p == o {
                            assert(old(self).objects@[i as int] == p);
                        }
                    }
                    if (exists|k: int| 0 <= k < i + 1 && old(self).objects@[k] == p) {
                        let k = choose|k: int| 0 <= k < i + 1 && old(self).objects@[k] == p;
                        if k == i {
                            assert(p == (o.0, o.1));
                        }
                    }
                }
            }
        }
        proof {
            assert forall|p: (I, D)| #[trigger]
                self.found_by(cover_all::<D>()).contains(p) <==> old(self).found_by(
                    cover_all::<D>(),
                ).contains(p) by {
                if (exists|k: int| 0 <= k < m && old(self).objects@[k] == p) {
                    let k = choose|k: int| 0 <= k < m && old(self).objects@[k] == p;
                    assert(old(self).objects@.contains(p));
                }
                if old(self).objects@.contains(p) {
                    let k = choose|k: int|
                        0 <= k < old(self).objects@.len() && old(self).objects@[k] == p;
                    assert(0 <= k < m && old(self).objects@[k] == p);
                }
            }
        }
    }

    /// The recursive search: skip a node whose region misses `area`, recurse
    /// into children, and append the whole local list at a live leaf.
    #[verifier::loop_isolation(false)]
    fn search_rec(&self, area: &D, buffer: &mut Vec<(I, D)>)
        ensures
            final(buffer)@ == old(buffer)@ + self.found_by(overlap_cover::<S, D>(*area)),
        decreases *self,
    {
        let ghost f = overlap_cover::<S, D>(*area);
        if self.space.overlaps(area) {
            assert(f(self.space));
            match &self.nodes {
                Some(bx) => {
                    let v: &Vec<Self> = &**bx;
                    let n = v.len();
                    for i in 0..n
                        invariant
                            buffer@ == old(buffer)@ + Self::found_by_of(
                                v@.subrange(0, i as int),
                                f,
                            ),
                    {
                        proof {
                            assert(decreases_to!(*self => self.nodes->0));
                            assert(decreases_to!(self.nodes->0 => self.nodes->0@));
                            assert(decreases_to!(self.nodes->0@ => self.nodes->0@[i as int]));
                        }
                        let ghost pre = buffer@;
                        v[i].search_rec(area, buffer);
                        proof {
                            Self::lemma_found_by_of_snoc(v@, i as int, f);
                            assert(old(buffer)@ + (Self::found_by_of(v@.subrange(0, i as int), f)
                                + v@[i as int].found_by(f)) =~= (old(buffer)@ + Self::found_by_of(
                                v@.subrange(0, i as int),
                                f,
                            )) + v@[i as int].found_by(f));
                        }
                    }
                    proof {
                        assert(v@.subrange(0, n as int) =~= v@);
                    }
                }
                None => {
                    let m = self.objects.len();
                    for k in 0..m
                        invariant
                            buffer@ == old(buffer)@ + self.objects@.subrange(0, k as int),
                    {
                        let o = self.objects[k];
                        buffer.push(o);
                        proof {
                            assert(self.objects@.subrange(0, k as int + 1)
                                =~= self.objects@.subrange(0, k as int).push(o));
                            assert(old(buffer)@ + self.objects@.subrange(0, k as int + 1)
                                =~= (old(buffer)@ + self.objects@.subrange(0, k as int)).push(o));
                        }
                    }
                    proof {
                        assert(self.objects@.subrange(0, m as int) =~= self.objects@);
                    }
                }
            }
        } else {
            proof {
                assert(!f(self.space));
                assert(old(buffer)@ + self.found_by(f) =~= old(buffer)@);
            }
        }
    }

    /// Recurse through a row of siblings, from index `from` on, with a
    /// caller-supplied coverage test. `cd` is the depth every remaining
    /// sibling has left, which bounds the recursion.
    fn search_with_children<OF: Fn(&D) -> bool>(
        v: &Vec<Self>,
        from: usize,
        overlaps: &OF,
        buffer: &mut Vec<(I, D)>,
        Ghost(cd): Ghost<int>,
    )
        requires
            from <= v@.len(),
            0 <= cd,
            forall|k: int| from <= k < v@.len() ==> (#[trigger] v@[k]).inv()
                && v@[k].depth_limit == cd,
            forall|d: &D| #[trigger] overlaps.requires((d,)),
        ensures
            forall|f: spec_fn(D) -> bool|
                agrees(*overlaps, f) ==> final(buffer)@ == old(buffer)@
                    + #[trigger] Self::found_by_of(v@.subrange(from as int, v@.len() as int), f),
        decreases cd + 1, 0int, v@.len() - from,
    {
        let whole = Ghost(v@.subrange(from as int, v@.len() as int));
        if from < v.len() {
            let ghost pre = buffer@;
            v[from].search_with_rec(overlaps, buffer);
            let ghost mid = buffer@;
            Self::search_with_children(v, from + 1, overlaps, buffer, Ghost(cd));
            proof {
                assert forall|f: spec_fn(D) -> bool|
                    agrees(*overlaps, f) implies buffer@ == old(buffer)@
                        + #[trigger] Self::found_by_of(whole@, f) by {
                    let tail = v@.subrange(from as int + 1, v@.len() as int);
                    assert(mid == pre + v@[from as int].found_by(f));
                    assert(buffer@ == mid + Self::found_by_of(tail, f));
                    assert(whole@.drop_first() =~= tail);
                    assert(whole@[0] == v@[from as int]);
                    assert(pre + (v@[from as int].found_by(f) + Self::found_by_of(tail, f)) =~= (
                    pre + v@[from as int].found_by(f)) + Self::found_by_of(tail, f));
                }
            }
        } else {
            proof {
                assert forall|f: spec_fn(D) -> bool|
                    agrees(*overlaps, f) implies buffer@ == old(buffer)@
                        + #[trigger] Self::found_by_of(whole@, f) by {
                    assert(whole@.len() == 0);
                    assert(old(buffer)@ + Self::found_by_of(whole@, f) =~= old(buffer)@);
                }
            }
        }
    }

    /// The recursive search with a caller-supplied coverage test.
    #[verifier::loop_isolation(false)]
    fn search_with_rec<OF: Fn(&D) -> bool>(&self, overlaps: &OF, buffer: &mut Vec<(I, D)>)
        requires
            self.inv(),
            forall|d: &D| #[trigger] overlaps.requires((d,)),
        ensures
            forall|f: spec_fn(D) -> bool|
                agrees(*overlaps, f) ==> final(buffer)@ == old(buffer)@ + #[trigger] self.found_by(
                    f,
                ),
        decreases self.depth_limit as int, 1int, 0int,
    {
        let hit = overlaps(&self.space);
        if hit {
            match &self.nodes {
                Some(bx) => {
                    let v: &Vec<Self> = &**bx;
                    Self::search_with_children(
                        v,
                        0,
                        overlaps,
                        buffer,
                        Ghost(self.depth_limit - 1 as int),
                    );
                    proof {
                        assert(v@.subrange(0, v@.len() as int) =~= v@);
                        assert forall|f: spec_fn(D) -> bool|
                            agrees(*overlaps, f) implies buffer@ == old(buffer)@ + #[trigger] self
                            .found_by(f) by {
                            assert(f(self.space) == hit);
                            assert(buffer@ == old(buffer)@ + Self::found_by_of(
                                v@.subrange(0, v@.len() as int),
                                f,
                            ));
                        }
                    }
                }
                None => {
                    let m = self.objects.len();
                    for k in 0..m
                        invariant
                            buffer@ == old(buffer)@ + self.objects@.subrange(0, k as int),
                    {
                        let o = self.objects[k];
                        buffer.push(o);
                        proof {
                            assert(self.objects@.subrange(0, k as int + 1)
                                =~= self.objects@.subrange(0, k as int).push(o));
                            assert(old(buffer)@ + self.objects@.subrange(0, k as int + 1)
                                =~= (old(buffer)@ + self.objects@.subrange(0, k as int)).push(o));
                        }
                    }
                    proof {
                        assert(self.objects@.subrange(0, m as int) =~= self.objects@);
                        assert forall|f: spec_fn(D) -> bool|
                            agrees(*overlaps, f) implies buffer@ == old(buffer)@ + #[trigger] self
                            .found_by(f) by {
                            assert(f(self.space) == hit);
                        }
                    }
                }
            }
        } else {
            proof {
                assert forall|f: spec_fn(D) -> bool|
                    agrees(*overlaps, f) implies buffer@ == old(buffer)@ + #[trigger] self.found_by(
                    f,
                ) by {
                    assert(f(self.space) == hit);
                    assert(old(buffer)@ + self.found_by(f) =~= old(buffer)@);
                }
            }
        }
    }


    /// The recursive clear: empty the local list at a leaf, recurse into
    /// children otherwise. The topology stays as it is.
    #[verifier::loop_isolation(false)]
    fn clear_rec(&mut self)
        requires
            old(self).inv(),
        ensures
            final(self).inv(),
            final(self).space == old(self).space,
            final(self).depth_limit == old(self).depth_limit,
            final(self).capacity == old(self).capacity,
            (final(self).nodes is Some) == (old(self).nodes is Some),
            final(self).found_by(cover_all::<D>()) == Seq::<(I, D)>::empty(),
        decreases *old(self),
    {
        match &mut self.nodes {
            Some(bx) => {
                let v: &mut Vec<Self> = &mut **bx;
                let n = v.len();
                let ghost olds = old(self).nodes->0@;
                for i in 0..n
                    invariant
                        n == v@.len(),
                        forall|k: int| i <= k < n ==> v@[k] == olds[k],
                        forall|k: int| 0 <= k < i ==> (#[trigger] v@[k]).inv()
                            && v@[k].space == olds[k].space
                            && v@[k].depth_limit == olds[k].depth_limit
                            && v@[k].capacity == olds[k].capacity
                            && (v@[k].nodes is Some) == (olds[k].nodes is Some)
                            && v@[k].found_by(cover_all::<D>()) == Seq::<(I, D)>::empty(),
                {
                    proof {
                        let o = *old(self);
                        assert(decreases_to!(o => o.nodes->0));
                        assert(decreases_to!(o.nodes->0 => o.nodes->0@));
                        assert(decreases_to!(o.nodes->0@ => o.nodes->0@[i as int]));
                    }
                    v[i].clear_rec();
                }
                proof {
                    Self::lemma_found_by_of_all_empty(v@, cover_all::<D>());
                }
            }
            None => {
                self.objects.clear();
                self.count = 0;
            }
        }
    }
}

impl<I: Copy, const S: usize, D: Copy + Dimension<S>> Node<I, S, D> for TNode<I, S, D> {
    /// Regions are well formed, every stored pair overlaps the region of its
    /// node, and children cover exactly the subdivisions of their parent
    /// with one level less of remaining depth.
    closed spec fn inv(self) -> bool {
        self.inv_rec()
    }

    closed spec fn region(self) -> D {
        self.space
    }

    closed spec fn subdivided(self) -> bool {
        self.nodes is Some
    }

    closed spec fn can_subdivide(self) -> bool {
        self.depth_limit >= 1
    }

    closed spec fn stored(self) -> Seq<(I, D)> {
        self.found_by(cover_all::<D>())
    }

    closed spec fn found(self, area: D) -> Seq<(I, D)> {
        self.found_by(overlap_cover::<S, D>(area))
    }

    closed spec fn found_with(self, cover: spec_fn(D) -> bool) -> Seq<(I, D)> {
        self.found_by(cover)
    }

    fn insert(&mut self, id: I, other: D) -> (r: bool) {
        self.insert_rec(id, other)
    }

    fn subdivide(&mut self) {
        self.subdivide_rec()
    }

    fn search(&self, area: &D, buffer: &mut Vec<(I, D)>) {
        self.search_rec(area, buffer)
    }

    fn search_with<OF: Fn(&D) -> bool>(&self, overlaps: &OF, buffer: &mut Vec<(I, D)>) {
        self.search_with_rec(overlaps, buffer)
    }

    fn clear(&mut self) {
        self.clear_rec();
        proof {
            assert forall|area: D| #[trigger] self.found(area) == Seq::<(I, D)>::empty() by {
                self.lemma_found_by_le_len(overlap_cover::<S, D>(area));
                assert(self.found_by(overlap_cover::<S, D>(area)) =~= Seq::<(I, D)>::empty());
            }
        }
    }

    proof fn lemma_found_complete(self) {
        self.lemma_found_within(self.region());
    }

    proof fn lemma_found_sound(self, area: D) {
        assert forall|p: (I, D)| #[trigger] self.found(area).contains(p) implies self
            .stored().contains(p) by {
            self.lemma_found_by_in_stored(overlap_cover::<S, D>(area), p);
        }
    }
}

} // verus!
