use vstd::prelude::*;
use crate::interval::iv_contains;
use crate::interval::iv_mid;
use crate::interval::iv_overlaps;
use crate::interval::iv_wf;
use crate::interval::lemma_mid_in_range;
use crate::interval::mid_point;
use crate::tnode::TNode;
use crate::tree::Dimension;
use crate::tree::Tree;
use crate::DEFAULT_CAPACITY;
use crate::DEFAULT_MAX_DEPTH;

verus! {

/// A one-dimensional segment: the interval `[min, max]`, both ends included.
#[derive(Debug, Clone, Copy, PartialEq, Eq)]
pub struct Line {
    pub min: i64,
    pub max: i64,
}

impl Line {
    /// The segment centered at `x` reaching `half_x` to either side.
    pub fn new(x: i64, half_x: i64) -> (r: Self)
        requires
            0 <= half_x,
            iv_wf(x - half_x, x + half_x),
        ensures
            r == (Line { min: (x - half_x) as i64, max: (x + half_x) as i64 }),
            r.wf(),
    {
        Line { min: x - half_x, max: x + half_x }
    }
}

impl Dimension<2> for Line {
    open spec fn wf(self) -> bool {
        iv_wf(self.min as int, self.max as int)
    }

    open spec fn spec_overlaps(self, other: Self) -> bool {
        iv_overlaps(self.min as int, self.max as int, other.min as int, other.max as int)
    }

    open spec fn spec_contains_center(self, other: Self) -> bool {
        iv_contains(self.min as int, self.max as int, iv_mid(other.min as int, other.max as int))
    }

    open spec fn spec_subdivisions(self) -> Seq<Self> {
        let m = iv_mid(self.min as int, self.max as int) as i64;
        seq![Line { min: self.min, max: m }, Line { min: m, max: self.max }]
    }

    fn overlaps(&self, other: &Self) -> (r: bool) {
        self.min <= other.max && other.min <= self.max
    }

    fn contains_center(&self, point: &Self) -> (r: bool) {
        let p = mid_point(point.min, point.max);
        self.min <= p && p <= self.max
    }

    fn subdivisions(&self) -> (r: Vec<Self>) {
        let m = mid_point(self.min, self.max);
        let mut v: Vec<Line> = Vec::new();
        v.push(Line { min: self.min, max: m });
        v.push(Line { min: m, max: self.max });
        proof {
            assert(v@ =~= self.spec_subdivisions());
        }
        v
    }

    proof fn lemma_basics(a: Self, b: Self) {
        lemma_mid_in_range(b.min as int, b.max as int);
    }

    proof fn lemma_subdivisions(a: Self, x: Self) {
        let m = iv_mid(a.min as int, a.max as int);
        lemma_mid_in_range(a.min as int, a.max as int);
        let subs = a.spec_subdivisions();
        assert(subs[0] == (Line { min: a.min, max: m as i64 }));
        assert(subs[1] == (Line { min: m as i64, max: a.max }));
        if a.spec_overlaps(x) {
            if x.max as int >= m {
                assert(subs[1].spec_overlaps(x));
            } else {
                assert(subs[0].spec_overlaps(x));
            }
        }
        if a.spec_contains_center(x) {
            let p = iv_mid(x.min as int, x.max as int);
            if p <= m {
                assert(subs[0].spec_contains_center(x));
            } else {
                assert(subs[1].spec_contains_center(x));
            }
        }
    }
}

/// A spatial tree over one-dimensional segments.
pub type LineTree<I> = Tree<I, 2, Line, TNode<I, 2, Line>>;

impl<I: Copy> LineTree<I> {
    /// A tree covering `translation` with the default capacity and depth.
    pub fn new(translation: Line) -> (r: Self)
        requires
            translation.wf(),
        ensures
            r.wf(),
            r.region() == translation,
            r.spec_count() == 0,
            r.stored() == Seq::<(I, Line)>::empty(),
    {
        Tree::new_tree(TNode::new(translation, DEFAULT_CAPACITY, DEFAULT_MAX_DEPTH))
    }
}

} // verus!
