use crate::chunk::{fresh_chunk, Chunk};
use crate::coords::{BlockCoord, ChunkCoord};
use crate::voxel::{BlockId, AIR, DIRT, GRASS, STONE};
use vstd::prelude::*;

verus! {

/// Flat layered terrain: grass at sea level, three layers of dirt under it,
/// stone below that and air above.
#[derive(Debug, Clone, Copy)]
pub struct TerrainGenerator {
    pub sea_level: i32,
}

/// The generated block at height `y` for a world with the given sea level.
pub open spec fn terrain_block(sea_level: int, y: int) -> BlockId {
    if y == sea_level {
        GRASS
    } else if y < sea_level && y > sea_level - 4 {
        DIRT
    } else if y <= sea_level - 4 {
        STONE
    } else {
        AIR
    }
}

/// Whether `terrain_block` can be evaluated at `y` without `i32` overflow.
pub open spec fn terrain_defined_at(sea_level: i32, y: i32) -> bool {
    y == sea_level || sea_level >= i32::MIN + 4
}

impl TerrainGenerator {
    /// A generator whose grass layer lies at `sea_level`; the seed does not shape this terrain.
    pub fn new(_seed: u64, sea_level: i32) -> (g: Self)
        ensures
            g.sea_level == sea_level,
    {
        Self { sea_level }
    }

    /// The bookkeeping shell of a generated chunk; blocks are computed on demand by `block_at`.
    pub fn generate_chunk(&self, coord: ChunkCoord) -> (c: Chunk)
        ensures
            c == fresh_chunk(coord),
    {
        Chunk::new(coord)
    }

    /// The generated block at `coord`, which depends only on its height.
    pub fn block_at(&self, coord: BlockCoord) -> (id: BlockId)
        requires
            terrain_defined_at(self.sea_level, coord.y),
        ensures
            id == terrain_block(self.sea_level as int, coord.y as int),
    {
        if coord.y == self.sea_level {
            GRASS
        } else if coord.y < self.sea_level && coord.y > self.sea_level - 4 {
            DIRT
        } else if coord.y <= self.sea_level - 4 {
            STONE
        } else {
            AIR
        }
    }
}

/// The terrain is layered around the sea level, for every sea level: a height is solid
/// exactly when it is at or below the sea level, grass lies exactly at the sea level, dirt
/// fills exactly the three heights under it, and stone everything deeper.
pub proof fn terrain_is_layered_for_every_sea_level(sea_level: int, y: int)
    ensures
        (terrain_block(sea_level, y) != AIR) == (y <= sea_level),
        (terrain_block(sea_level, y) == GRASS) == (y == sea_level),
        (terrain_block(sea_level, y) == DIRT) == (sea_level - 3 <= y && y <= sea_level - 1),
        (terrain_block(sea_level, y) == STONE) == (y <= sea_level - 4),
{
}

/// Raising the sea level raises the whole terrain with it: the block at height `y` under
/// sea level `s` is the block at height `y + d` under sea level `s + d`.
pub proof fn terrain_moves_with_the_sea_level(sea_level: int, y: int, d: int)
    ensures
        terrain_block(sea_level, y) == terrain_block(sea_level + d, y + d),
{
}

} // verus!
