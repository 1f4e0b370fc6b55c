use vstd::prelude::*;
use crate::line::Line;
use crate::trav::trav_index::TravIndex;

verus! {

/// Which half of a split segment a path descends into.
#[derive(Debug, Clone, Copy)]
pub enum TravLineDirection {
    Left,
    Right,
}

/// A path through a tree of segments, together with the segment it reaches.
#[derive(Debug, Clone)]
pub struct TravLine {
    index: TravIndex<TravLineDirection>,
    line: Line,
}

} // verus!
