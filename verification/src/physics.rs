use crate::coords::BlockCoord;
use crate::voxel::AIR;
use crate::world::World;
use vstd::prelude::*;

verus! {

/// Block `b` lies in the box of blocks from `min` to `max`, bounds included.
pub open spec fn in_block_box(min: BlockCoord, max: BlockCoord, b: BlockCoord) -> bool {
    &&& min.x <= b.x <= max.x
    &&& min.y <= b.y <= max.y
    &&& min.z <= b.z <= max.z
}

/// Whether any block in the box from `min` to `max` (bounds included) is solid. The
/// box is the set of cells that a collider overlaps.
pub fn intersects_solid(world: &World, min: BlockCoord, max: BlockCoord) -> (hit: bool)
    requires
        forall|b: BlockCoord| in_block_box(min, max, b) ==> #[trigger] world@.can_sample(b),
    ensures
        hit == exists|b: BlockCoord| in_block_box(min, max, b) && #[trigger] world@.block_id_at(b) != AIR,
{
    let mut z: i64 = min.z as i64;
    while z <= max.z as i64
        invariant
            min.z <= z <= max.z + 1 || z == min.z,
            forall|b: BlockCoord| in_block_box(min, max, b) ==> #[trigger] world@.can_sample(b),
            forall|b: BlockCoord| in_block_box(min, max, b) && b.z < z ==> #[trigger] world@.block_id_at(b) == AIR,
        decreases max.z + 1 - z,
    {
        let mut y: i64 = min.y as i64;
        while y <= max.y as i64
            invariant
                min.z <= z <= max.z,
                min.y <= y <= max.y + 1 || y == min.y,
                forall|b: BlockCoord| in_block_box(min, max, b) ==> #[trigger] world@.can_sample(b),
                forall|b: BlockCoord|
                    in_block_box(min, max, b) && (b.z < z || (b.z == z && b.y < y)) ==> #[trigger] world@.block_id_at(b) == AIR,
            decreases max.y + 1 - y,
        {
            let mut x: i64 = min.x as i64;
            while x <= max.x as i64
                invariant
                    min.z <= z <= max.z,
                    min.y <= y <= max.y,
                    min.x <= x <= max.x + 1 || x == min.x,
                    forall|b: BlockCoord| in_block_box(min, max, b) ==> #[trigger] world@.can_sample(b),
                    forall|b: BlockCoord|
                        in_block_box(min, max, b) && (b.z < z || (b.z == z && b.y < y) || (b.z == z && b.y == y && b.x < x))
                            ==> #[trigger] world@.block_id_at(b) == AIR,
                decreases max.x + 1 - x,
            {
                let b = BlockCoord::new(x as i32, y as i32, z as i32);
                assert(in_block_box(min, max, b));
                if world.sample_block(b).is_solid() {
                    return true;
                }
                x = x + 1;
            }
            y = y + 1;
        }
        z = z + 1;
    }
    false
}

} // verus!
