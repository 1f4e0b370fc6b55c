//! An in-memory spatial index: a tree that stores (identifier, region) pairs
//! over an axis-aligned universe and answers which stored pairs overlap a
//! queried region. The engine is generic over the dimensionality through the
//! [`Dimension`] contract; segments, rectangles, boxes and hyper-boxes with
//! integer coordinates instantiate it.

mod interval;
mod line;
mod oct;
mod quad;
mod tess;
mod tnode;
mod trav;
mod tree;

pub use crate::interval::COORD_LIMIT;
pub use crate::line::Line;
pub use crate::line::LineTree;
pub use crate::oct::Oct;
pub use crate::oct::OctTree;
pub use crate::quad::Quad;
pub use crate::quad::QuadTree;
pub use crate::tess::Tess;
pub use crate::tess::TessTree;
pub use crate::tnode::TNode;
pub use crate::trav::trav_index::TravIndex;
pub use crate::trav::trav_line::TravLine;
pub use crate::trav::trav_line::TravLineDirection;
pub use crate::tree::agrees;
pub use crate::tree::Dimension;
pub use crate::tree::Node;
pub use crate::tree::Tree;

use vstd::prelude::*;

verus! {

/// Default number of owned pairs a node may hold before it subdivides.
pub const DEFAULT_CAPACITY: u8 = 17;

/// Default number of levels a tree may grow below its root.
pub const DEFAULT_MAX_DEPTH: u8 = 8;

} // verus!
