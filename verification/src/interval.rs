use vstd::prelude::*;

verus! {

/// Coordinates of every region axis stay within this bound, so that sums and
/// differences of any two coordinates fit in an `i64`.
pub const COORD_LIMIT: i64 = 0x2000_0000_0000_0000;

/// A well-formed axis interval: ordered ends within the coordinate bound.
pub open spec fn iv_wf(lo: int, hi: int) -> bool {
    -(COORD_LIMIT as int) <= lo && lo <= hi && hi <= COORD_LIMIT as int
}

/// Boundary-inclusive overlap of two intervals.
pub open spec fn iv_overlaps(a_lo: int, a_hi: int, b_lo: int, b_hi: int) -> bool {
    a_lo <= b_hi && b_lo <= a_hi
}

/// The midpoint of an interval, rounded down.
pub open spec fn iv_mid(lo: int, hi: int) -> int {
    lo + (hi - lo) / 2
}

/// Boundary-inclusive membership of a point in an interval.
pub open spec fn iv_contains(lo: int, hi: int, p: int) -> bool {
    lo <= p && p <= hi
}

/// The midpoint lies inside any well-formed interval.
pub proof fn lemma_mid_in_range(lo: int, hi: int)
    requires
        lo <= hi,
    ensures
        lo <= iv_mid(lo, hi),
        iv_mid(lo, hi) <= hi,
{
    assert(0 <= (hi - lo) / 2 <= hi - lo);
}

/// Compute the midpoint of a well-formed interval.
pub fn mid_point(lo: i64, hi: i64) -> (r: i64)
    requires
        iv_wf(lo as int, hi as int),
    ensures
        r as int == iv_mid(lo as int, hi as int),
        lo <= r <= hi,
{
    proof {
        lemma_mid_in_range(lo as int, hi as int);
    }
    let w = ((hi - lo) as u64) / 2;
    lo + (w as i64)
}

} // verus!
