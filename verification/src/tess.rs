use vstd::prelude::*;
use crate::interval::iv_contains;
use crate::interval::iv_mid;
use crate::interval::iv_overlaps;
use crate::interval::iv_wf;
use crate::interval::lemma_mid_in_range;
use crate::interval::mid_point;
use crate::tnode::TNode;
use crate::tree::Dimension;
use crate::tree::Tree;
use crate::DEFAULT_CAPACITY;
use crate::DEFAULT_MAX_DEPTH;

verus! {

/// A four-dimensional axis-aligned hyper-box: the product of four closed
/// coordinate intervals.
#[derive(Debug, Clone, Copy, PartialEq, Eq)]
pub struct Tess {
    pub x_min: i64,
    pub x_max: i64,
    pub y_min: i64,
    pub y_max: i64,
    pub z_min: i64,
    pub z_max: i64,
    pub w_min: i64,
    pub w_max: i64,
}

impl Tess {
    /// The region centered at (`x`, `y`, `z`, `w`) reaching the given half
    /// extent to either side per axis.
    pub fn new(x: i64, y: i64, z: i64, w: i64, half_x: i64, half_y: i64, half_z: i64, half_w: i64) -> (r: Self)
        requires
            0 <= half_x,
            0 <= half_y,
            0 <= half_z,
            0 <= half_w,
            iv_wf(x - half_x, x + half_x),
            iv_wf(y - half_y, y + half_y),
            iv_wf(z - half_z, z + half_z),
            iv_wf(w - half_w, w + half_w),
        ensures
            r == (Tess {
                x_min: (x - half_x) as i64,
                x_max: (x + half_x) as i64,
                y_min: (y - half_y) as i64,
                y_max: (y + half_y) as i64,
                z_min: (z - half_z) as i64,
                z_max: (z + half_z) as i64,
                w_min: (w - half_w) as i64,
                w_max: (w + half_w) as i64,
            }),
            r.wf(),
    {
        Tess {
            x_min: x - half_x,
            x_max: x + half_x,
            y_min: y - half_y,
            y_max: y + half_y,
            z_min: z - half_z,
            z_max: z + half_z,
            w_min: w - half_w,
            w_max: w + half_w,
        }
    }
}

impl Dimension<16> for Tess {
    open spec fn wf(self) -> bool {
        iv_wf(self.x_min as int, self.x_max as int) && iv_wf(self.y_min as int, self.y_max as int) && iv_wf(self.z_min as int, self.z_max as int) && iv_wf(self.w_min as int, self.w_max as int)
    }

    open spec fn spec_overlaps(self, other: Self) -> bool {
        iv_overlaps(self.x_min as int, self.x_max as int, other.x_min as int, other.x_max as int) && iv_overlaps(self.y_min as int, self.y_max as int, other.y_min as int, other.y_max as int) && iv_overlaps(self.z_min as int, self.z_max as int, other.z_min as int, other.z_max as int) && iv_overlaps(self.w_min as int, self.w_max as int, other.w_min as int, other.w_max as int)
    }

    open spec fn spec_contains_center(self, other: Self) -> bool {
        iv_contains(self.x_min as int, self.x_max as int, iv_mid(other.x_min as int, other.x_max as int)) && iv_contains(self.y_min as int, self.y_max as int, iv_mid(other.y_min as int, other.y_max as int)) && iv_contains(self.z_min as int, self.z_max as int, iv_mid(other.z_min as int, other.z_max as int)) && iv_contains(self.w_min as int, self.w_max as int, iv_mid(other.w_min as int, other.w_max as int))
    }

    open spec fn spec_subdivisions(self) -> Seq<Self> {
        let mx = iv_mid(self.x_min as int, self.x_max as int) as i64;
        let my = iv_mid(self.y_min as int, self.y_max as int) as i64;
        let mz = iv_mid(self.z_min as int, self.z_max as int) as i64;
        let mw = iv_mid(self.w_min as int, self.w_max as int) as i64;
        seq![
            Tess { x_min: self.x_min, x_max: mx, y_min: self.y_min, y_max: my, z_min: self.z_min, z_max: mz, w_min: self.w_min, w_max: mw },
            Tess { x_min: mx, x_max: self.x_max, y_min: self.y_min, y_max: my, z_min: self.z_min, z_max: mz, w_min: self.w_min, w_max: mw },
            Tess { x_min: self.x_min, x_max: mx, y_min: my, y_max: self.y_max, z_min: self.z_min, z_max: mz, w_min: self.w_min, w_max: mw },
            Tess { x_min: mx, x_max: self.x_max, y_min: my, y_max: self.y_max, z_min: self.z_min, z_max: mz, w_min: self.w_min, w_max: mw },
            Tess { x_min: self.x_min, x_max: mx, y_min: self.y_min, y_max: my, z_min: mz, z_max: self.z_max, w_min: self.w_min, w_max: mw },
            Tess { x_min: mx, x_max: self.x_max, y_min: self.y_min, y_max: my, z_min: mz, z_max: self.z_max, w_min: self.w_min, w_max: mw },
            Tess { x_min: self.x_min, x_max: mx, y_min: my, y_max: self.y_max, z_min: mz, z_max: self.z_max, w_min: self.w_min, w_max: mw },
            Tess { x_min: mx, x_max: self.x_max, y_min: my, y_max: self.y_max, z_min: mz, z_max: self.z_max, w_min: self.w_min, w_max: mw },
            Tess { x_min: self.x_min, x_max: mx, y_min: self.y_min, y_max: my, z_min: self.z_min, z_max: mz, w_min: mw, w_max: self.w_max },
            Tess { x_min: mx, x_max: self.x_max, y_min: self.y_min, y_max: my, z_min: self.z_min, z_max: mz, w_min: mw, w_max: self.w_max },
            Tess { x_min: self.x_min, x_max: mx, y_min: my, y_max: self.y_max, z_min: self.z_min, z_max: mz, w_min: mw, w_max: self.w_max },
            Tess { x_min: mx, x_max: self.x_max, y_min: my, y_max: self.y_max, z_min: self.z_min, z_max: mz, w_min: mw, w_max: self.w_max },
            Tess { x_min: self.x_min, x_max: mx, y_min: self.y_min, y_max: my, z_min: mz, z_max: self.z_max, w_min: mw, w_max: self.w_max },
            Tess { x_min: mx, x_max: self.x_max, y_min: self.y_min, y_max: my, z_min: mz, z_max: self.z_max, w_min: mw, w_max: self.w_max },
            Tess { x_min: self.x_min, x_max: mx, y_min: my, y_max: self.y_max, z_min: mz, z_max: self.z_max, w_min: mw, w_max: self.w_max },
            Tess { x_min: mx, x_max: self.x_max, y_min: my, y_max: self.y_max, z_min: mz, z_max: self.z_max, w_min: mw, w_max: self.w_max },
        ]
    }

    fn overlaps(&self, other: &Self) -> (r: bool) {
        self.x_min <= other.x_max && other.x_min <= self.x_max && self.y_min <= other.y_max && other.y_min <= self.y_max && self.z_min <= other.z_max && other.z_min <= self.z_max && self.w_min <= other.w_max && other.w_min <= self.w_max
    }

    fn contains_center(&self, point: &Self) -> (r: bool) {
        let px = mid_point(point.x_min, point.x_max);
        let py = mid_point(point.y_min, point.y_max);
        let pz = mid_point(point.z_min, point.z_max);
        let pw = mid_point(point.w_min, point.w_max);
        self.x_min <= px && px <= self.x_max && self.y_min <= py && py <= self.y_max && self.z_min <= pz && pz <= self.z_max && self.w_min <= pw && pw <= self.w_max
    }

    fn subdivisions(&self) -> (r: Vec<Self>) {
        let mx = mid_point(self.x_min, self.x_max);
        let my = mid_point(self.y_min, self.y_max);
        let mz = mid_point(self.z_min, self.z_max);
        let mw = mid_point(self.w_min, self.w_max);
        let mut v: Vec<Tess> = Vec::new();
        v.push(Tess { x_min: self.x_min, x_max: mx, y_min: self.y_min, y_max: my, z_min: self.z_min, z_max: mz, w_min: self.w_min, w_max: mw });
        v.push(Tess { x_min: mx, x_max: self.x_max, y_min: self.y_min, y_max: my, z_min: self.z_min, z_max: mz, w_min: self.w_min, w_max: mw });
        v.push(Tess { x_min: self.x_min, x_max: mx, y_min: my, y_max: self.y_max, z_min: self.z_min, z_max: mz, w_min: self.w_min, w_max: mw });
        v.push(Tess { x_min: mx, x_max: self.x_max, y_min: my, y_max: self.y_max, z_min: self.z_min, z_max: mz, w_min: self.w_min, w_max: mw });
        v.push(Tess { x_min: self.x_min, x_max: mx, y_min: self.y_min, y_max: my, z_min: mz, z_max: self.z_max, w_min: self.w_min, w_max: mw });
        v.push(Tess { x_min: mx, x_max: self.x_max, y_min: self.y_min, y_max: my, z_min: mz, z_max: self.z_max, w_min: self.w_min, w_max: mw });
        v.push(Tess { x_min: self.x_min, x_max: mx, y_min: my, y_max: self.y_max, z_min: mz, z_max: self.z_max, w_min: self.w_min, w_max: mw });
        v.push(Tess { x_min: mx, x_max: self.x_max, y_min: my, y_max: self.y_max, z_min: mz, z_max: self.z_max, w_min: self.w_min, w_max: mw });
        v.push(Tess { x_min: self.x_min, x_max: mx, y_min: self.y_min, y_max: my, z_min: self.z_min, z_max: mz, w_min: mw, w_max: self.w_max });
        v.push(Tess { x_min: mx, x_max: self.x_max, y_min: self.y_min, y_max: my, z_min: self.z_min, z_max: mz, w_min: mw, w_max: self.w_max });
        v.push(Tess { x_min: self.x_min, x_max: mx, y_min: my, y_max: self.y_max, z_min: self.z_min, z_max: mz, w_min: mw, w_max: self.w_max });
        v.push(Tess { x_min: mx, x_max: self.x_max, y_min: my, y_max: self.y_max, z_min: self.z_min, z_max: mz, w_min: mw, w_max: self.w_max });
        v.push(Tess { x_min: self.x_min, x_max: mx, y_min: self.y_min, y_max: my, z_min: mz, z_max: self.z_max, w_min: mw, w_max: self.w_max });
        v.push(Tess { x_min: mx, x_max: self.x_max, y_min: self.y_min, y_max: my, z_min: mz, z_max: self.z_max, w_min: mw, w_max: self.w_max });
        v.push(Tess { x_min: self.x_min, x_max: mx, y_min: my, y_max: self.y_max, z_min: mz, z_max: self.z_max, w_min: mw, w_max: self.w_max });
        v.push(Tess { x_min: mx, x_max: self.x_max, y_min: my, y_max: self.y_max, z_min: mz, z_max: self.z_max, w_min: mw, w_max: self.w_max });
        proof {
            assert(v@ =~= self.spec_subdivisions());
        }
        v
    }

    proof fn lemma_basics(a: Self, b: Self) {
        lemma_mid_in_range(b.x_min as int, b.x_max as int);
        lemma_mid_in_range(b.y_min as int, b.y_max as int);
        lemma_mid_in_range(b.z_min as int, b.z_max as int);
        lemma_mid_in_range(b.w_min as int, b.w_max as int);
    }

    proof fn lemma_subdivisions(a: Self, x: Self) {
        let mx = iv_mid(a.x_min as int, a.x_max as int);
        lemma_mid_in_range(a.x_min as int, a.x_max as int);
        let my = iv_mid(a.y_min as int, a.y_max as int);
        lemma_mid_in_range(a.y_min as int, a.y_max as int);
        let mz = iv_mid(a.z_min as int, a.z_max as int);
        lemma_mid_in_range(a.z_min as int, a.z_max as int);
        let mw = iv_mid(a.w_min as int, a.w_max as int);
        lemma_mid_in_range(a.w_min as int, a.w_max as int);
        let subs = a.spec_subdivisions();
        if a.spec_overlaps(x) {
            let ix: int = if x.x_max as int >= mx {
                1
            } else {
                0
            };
            let iy: int = if x.y_max as int >= my {
                1
            } else {
                0
            };
            let iz: int = if x.z_max as int >= mz {
                1
            } else {
                0
            };
            let iw: int = if x.w_max as int >= mw {
                1
            } else {
                0
            };
            assert(subs[ix + 2 * iy + 4 * iz + 8 * iw].spec_overlaps(x));
        }
        if a.spec_contains_center(x) {
            let px = iv_mid(x.x_min as int, x.x_max as int);
            let py = iv_mid(x.y_min as int, x.y_max as int);
            let pz = iv_mid(x.z_min as int, x.z_max as int);
            let pw = iv_mid(x.w_min as int, x.w_max as int);
            let ix: int = if px > mx {
                1
            } else {
                0
            };
            let iy: int = if py > my {
                1
            } else {
                0
            };
            let iz: int = if pz > mz {
                1
            } else {
                0
            };
            let iw: int = if pw > mw {
                1
            } else {
                0
            };
            assert(subs[ix + 2 * iy + 4 * iz + 8 * iw].spec_contains_center(x));
        }
    }
}

/// A spatial tree over four-dimensional hyper-boxes.
pub type TessTree<I> = Tree<I, 16, Tess, TNode<I, 16, Tess>>;

impl<I: Copy> TessTree<I> {
    /// A tree covering `translation` with the default capacity and depth.
    pub fn new(translation: Tess) -> (r: Self)
        requires
            translation.wf(),
        ensures
            r.wf(),
            r.region() == translation,
            r.spec_count() == 0,
            r.stored() == Seq::<(I, Tess)>::empty(),
    {
        Tree::new_tree(TNode::new(translation, DEFAULT_CAPACITY, DEFAULT_MAX_DEPTH))
    }
}

} // verus!
