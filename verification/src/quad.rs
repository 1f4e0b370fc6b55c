use vstd::prelude::*;
use crate::interval::iv_contains;
use crate::interval::iv_mid;
use crate::interval::iv_overlaps;
use crate::interval::iv_wf;
use crate::interval::lemma_mid_in_range;
use crate::interval::mid_point;
use crate::tnode::TNode;
use crate::tree::Dimension;
use crate::tree::Tree;
use crate::DEFAULT_CAPACITY;
use crate::DEFAULT_MAX_DEPTH;

verus! {

/// A two-dimensional axis-aligned rectangle: the product of the intervals
/// `[x_min, x_max]` and `[y_min, y_max]`, boundaries included.
#[derive(Debug, Clone, Copy, PartialEq, Eq)]
pub struct Quad {
    pub x_min: i64,
    pub x_max: i64,
    pub y_min: i64,
    pub y_max: i64,
}

impl Quad {
    /// The rectangle centered at `(x, y)` reaching `half_x` and `half_y` to
    /// either side per axis.
    pub fn new(x: i64, y: i64, half_x: i64, half_y: i64) -> (r: Self)
        requires
            0 <= half_x,
            0 <= half_y,
            iv_wf(x - half_x, x + half_x),
            iv_wf(y - half_y, y + half_y),
        ensures
            r == (Quad {
                x_min: (x - half_x) as i64,
                x_max: (x + half_x) as i64,
                y_min: (y - half_y) as i64,
                y_max: (y + half_y) as i64,
            }),
            r.wf(),
    {
        Quad { x_min: x - half_x, x_max: x + half_x, y_min: y - half_y, y_max: y + half_y }
    }
}

impl Dimension<4> for Quad {
    open spec fn wf(self) -> bool {
        iv_wf(self.x_min as int, self.x_max as int) && iv_wf(self.y_min as int, self.y_max as int)
    }

    open spec fn spec_overlaps(self, other: Self) -> bool {
        iv_overlaps(self.x_min as int, self.x_max as int, other.x_min as int, other.x_max as int)
            && iv_overlaps(
            self.y_min as int,
            self.y_max as int,
            other.y_min as int,
            other.y_max as int,
        )
    }

    open spec fn spec_contains_center(self, other: Self) -> bool {
        iv_contains(
            self.x_min as int,
            self.x_max as int,
            iv_mid(other.x_min as int, other.x_max as int),
        ) && iv_contains(
            self.y_min as int,
            self.y_max as int,
            iv_mid(other.y_min as int, other.y_max as int),
        )
    }

    open spec fn spec_subdivisions(self) -> Seq<Self> {
        let mx = iv_mid(self.x_min as int, self.x_max as int) as i64;
        let my = iv_mid(self.y_min as int, self.y_max as int) as i64;
        seq![
            Quad { x_min: self.x_min, x_max: mx, y_min: self.y_min, y_max: my },
            Quad { x_min: mx, x_max: self.x_max, y_min: self.y_min, y_max: my },
            Quad { x_min: self.x_min, x_max: mx, y_min: my, y_max: self.y_max },
            Quad { x_min: mx, x_max: self.x_max, y_min: my, y_max: self.y_max },
        ]
    }

    fn overlaps(&self, other: &Self) -> (r: bool) {
        self.x_min <= other.x_max && other.x_min <= self.x_max && self.y_min <= other.y_max
            && other.y_min <= self.y_max
    }

    fn contains_center(&self, point: &Self) -> (r: bool) {
        let px = mid_point(point.x_min, point.x_max);
        let py = mid_point(point.y_min, point.y_max);
        self.x_min <= px && px <= self.x_max && self.y_min <= py && py <= self.y_max
    }

    fn subdivisions(&self) -> (r: Vec<Self>) {
        let mx = mid_point(self.x_min, self.x_max);
        let my = mid_point(self.y_min, self.y_max);
        let mut v: Vec<Quad> = Vec::new();
        v.push(Quad { x_min: self.x_min, x_max: mx, y_min: self.y_min, y_max: my });
        v.push(Quad { x_min: mx, x_max: self.x_max, y_min: self.y_min, y_max: my });
        v.push(Quad { x_min: self.x_min, x_max: mx, y_min: my, y_max: self.y_max });
        v.push(Quad { x_min: mx, x_max: self.x_max, y_min: my, y_max: self.y_max });
        proof {
            assert(v@ =~= self.spec_subdivisions());
        }
        v
    }

    proof fn lemma_basics(a: Self, b: Self) {
        lemma_mid_in_range(b.x_min as int, b.x_max as int);
        lemma_mid_in_range(b.y_min as int, b.y_max as int);
    }

    proof fn lemma_subdivisions(a: Self, x: Self) {
        let mx = iv_mid(a.x_min as int, a.x_max as int);
        let my = iv_mid(a.y_min as int, a.y_max as int);
        lemma_mid_in_range(a.x_min as int, a.x_max as int);
        lemma_mid_in_range(a.y_min as int, a.y_max as int);
        let subs = a.spec_subdivisions();
        if a.spec_overlaps(x) {
            let ix: int = if x.x_max as int >= mx {
                1
            } else {
                0
            };
            let iy: int = if x.y_max as int >= my {
                1
            } else {
                0
            };
            assert(subs[ix + 2 * iy].spec_overlaps(x));
        }
        if a.spec_contains_center(x) {
            let px = iv_mid(x.x_min as int, x.x_max as int);
            let py = iv_mid(x.y_min as int, x.y_max as int);
            let ix: int = if px > mx {
                1
            } else {
                0
            };
            let iy: int = if py > my {
                1
            } else {
                0
            };
            assert(subs[ix + 2 * iy].spec_contains_center(x));
        }
    }
}

/// A spatial tree over two-dimensional rectangles.
pub type QuadTree<I> = Tree<I, 4, Quad, TNode<I, 4, Quad>>;

impl<I: Copy> QuadTree<I> {
    /// A tree covering `translation` with the default capacity and depth.
    pub fn new(translation: Quad) -> (r: Self)
        requires
            translation.wf(),
        ensures
            r.wf(),
            r.region() == translation,
            r.spec_count() == 0,
            r.stored() == Seq::<(I, Quad)>::empty(),
    {
        Tree::new_tree(TNode::new(translation, DEFAULT_CAPACITY, DEFAULT_MAX_DEPTH))
    }
}

} // verus!
