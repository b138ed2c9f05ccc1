use vstd::prelude::*;

verus! {

/// Identifier of a block type.
pub type BlockId = u16;

pub const AIR: BlockId = 0;

pub const GRASS: BlockId = 1;

pub const DIRT: BlockId = 2;

pub const STONE: BlockId = 3;

/// One cell of the world.
#[derive(Debug, Clone, Copy, PartialEq, Eq, Structural)]
pub struct Voxel {
    pub id: BlockId,
}

impl Voxel {
    /// A voxel of block type `id`.
    pub fn new(id: BlockId) -> (v: Self)
        ensures
            v.id == id,
    {
        Self { id }
    }

    /// Whether the voxel blocks movement: every block but air does.
    pub fn is_solid(self) -> (solid: bool)
        ensures
            solid == (self.id != AIR),
    {
        self.id != AIR
    }
}

} // verus!
