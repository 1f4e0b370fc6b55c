use vstd::prelude::*;

verus! {

/// A path through the tree: how many levels it descends and which direction
/// was taken at each level.
#[derive(Debug, Clone)]
pub struct TravIndex<D> {
    depth: u8,
    direction: Vec<D>,
}

impl<D> TravIndex<D> {
    /// How many levels the path descends.
    pub closed spec fn spec_depth(self) -> u8 {
        self.depth
    }

    /// The directions taken, one per level.
    pub closed spec fn spec_direction(self) -> Seq<D> {
        self.direction@
    }

    /// The empty path.
    pub fn new() -> (r: Self)
        ensures
            r.spec_depth() == 0,
            r.spec_direction() == Seq::<D>::empty(),
    {
        Self { depth: 0, direction: Vec::new() }
    }

    /// How many levels the path descends.
    pub fn depth(&self) -> (r: u8)
        ensures
            r == self.spec_depth(),
    {
        self.depth
    }

    /// The directions taken so far.
    pub fn direciton(&self) -> (r: &Vec<D>)
        ensures
            r@ == self.spec_direction(),
    {
        &self.direction
    }

    /// The direction recorded at position `depth`.
    pub fn direciton_at_depth(&self) -> (r: &D)
        requires
            (self.spec_depth() as int) < self.spec_direction().len(),
        ensures
            *r == self.spec_direction()[self.spec_depth() as int],
    {
        &self.direction[self.depth as usize]
    }

    /// The path extended one level down by `rhs`.
    pub fn add(self, rhs: D) -> (r: Self)
        requires
            self.spec_depth() < u8::MAX,
        ensures
            r.spec_depth() == self.spec_depth() + 1,
            r.spec_direction() == self.spec_direction().push(rhs),
    {
        let mut direction = self.direction;
        direction.push(rhs);
        Self { depth: self.depth + 1, direction }
    }
}

} // verus!
