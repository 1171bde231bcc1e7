use vstd::prelude::*;

verus! {

/// Number of block species; the texture atlas holds one band per species.
pub const TOTAL_SPECIES: usize = 3;

/// The material a block is made of.
#[derive(Clone, Copy, Debug, PartialEq, Eq, Structural, PartialOrd, Ord)]
pub enum Species {
    Air,
    Stone,
    Dirt,
}

impl Species {
    /// The species' number: its position in the atlas.
    pub open spec fn spec_id(self) -> int {
        match self {
            Species::Air => 0,
            Species::Stone => 1,
            Species::Dirt => 2,
        }
    }

    /// Returns the species' number (`Air` is 0, `Stone` 1, `Dirt` 2).
    pub fn id(self) -> (n: i32)
        ensures
            n == self.spec_id(),
            0 <= n < TOTAL_SPECIES,
    {
        match self {
            Species::Air => 0,
            Species::Stone => 1,
            Species::Dirt => 2,
        }
    }
}

/// One cell of a chunk.
#[derive(Clone, Copy, Debug)]
pub struct Block {
    pub species: Species,
}

impl Block {
    /// An air block.
    pub fn new() -> (b: Block)
        ensures
            b.species == Species::Air,
    {
        Block { species: Species::Air }
    }
}

} // verus!
