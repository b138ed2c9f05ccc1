use glam::IVec3;
use vstd::prelude::*;

verus! {

/// glam's integer 3-vector.
#[verifier::external_type_specification]
#[verifier::external_body]
pub struct ExIVec3(glam::IVec3);

/// The vector that `glam::IVec3::new` builds from `x`, `y` and `z`.
pub uninterp spec fn glam_ivec3(x: i32, y: i32, z: i32) -> IVec3;

/// Calls `glam::IVec3::new`; claims only that the vector is determined by its components.
#[verifier::external_body]
fn ivec3_new(x: i32, y: i32, z: i32) -> (v: IVec3)
    ensures
        v == glam_ivec3(x, y, z),
{
    IVec3::new(x, y, z)
}

/// Width of a chunk column along x, in blocks.
pub const CHUNK_SIZE_X: i32 = 32;

/// Width of a chunk column along z, in blocks.
pub const CHUNK_SIZE_Z: i32 = 32;

/// Height of a chunk column, in blocks.
pub const CHUNK_HEIGHT: i32 = 256;

/// Width of a region along x and z, in chunks.
pub const REGION_SIZE: i32 = 8;

/// The position of one block in the world.
#[derive(Debug, Clone, Copy, PartialEq, Eq, Hash, Structural)]
pub struct BlockCoord {
    pub x: i32,
    pub y: i32,
    pub z: i32,
}

/// The position of one chunk column, in chunk units.
#[derive(Debug, Clone, Copy, PartialEq, Eq, Hash, Structural)]
pub struct ChunkCoord {
    pub x: i32,
    pub z: i32,
}

/// The position of one region of chunks, in region units.
#[derive(Debug, Clone, Copy, PartialEq, Eq, Hash, Structural)]
pub struct RegionCoord {
    pub x: i32,
    pub z: i32,
}

/// The square of the planar distance between two chunk positions.
pub open spec fn chunk_distance_sq(a: ChunkCoord, b: ChunkCoord) -> int {
    (a.x - b.x) * (a.x - b.x) + (a.z - b.z) * (a.z - b.z)
}

/// Whether `chunk_distance_sq(a, b)` can be computed in `i32` without overflow.
pub open spec fn distance_fits_i32(a: ChunkCoord, b: ChunkCoord) -> bool {
    &&& i32::MIN <= a.x - b.x <= i32::MAX
    &&& i32::MIN <= a.z - b.z <= i32::MAX
    &&& (a.x - b.x) * (a.x - b.x) <= i32::MAX
    &&& (a.z - b.z) * (a.z - b.z) <= i32::MAX
    &&& chunk_distance_sq(a, b) <= i32::MAX
}

impl BlockCoord {
    /// The block at `(x, y, z)`.
    pub fn new(x: i32, y: i32, z: i32) -> (c: Self)
        ensures
            c == (BlockCoord { x, y, z }),
    {
        Self { x, y, z }
    }

    /// The block position as a glam vector.
    pub fn as_ivec3(self) -> (v: IVec3)
        ensures
            v == glam_ivec3(self.x, self.y, self.z),
    {
        ivec3_new(self.x, self.y, self.z)
    }

    /// The key under which a block is stored in hash maps.
    pub open spec fn key(self) -> (i32, i32, i32) {
        (self.x, self.y, self.z)
    }
}

impl ChunkCoord {
    /// The chunk at `(x, z)`.
    pub fn new(x: i32, z: i32) -> (c: Self)
        ensures
            c == (ChunkCoord { x, z }),
    {
        Self { x, z }
    }

    /// The key under which a chunk is stored in hash maps.
    pub open spec fn key(self) -> (i32, i32) {
        (self.x, self.z)
    }

    /// The chunk position stored under `key`.
    pub open spec fn from_key(key: (i32, i32)) -> ChunkCoord {
        ChunkCoord { x: key.0, z: key.1 }
    }

    /// The chunk column that holds `block` (floor division of x and z by the chunk width).
    pub fn from_block(block: BlockCoord) -> (c: Self)
        ensures
            c.x == block.x as int / CHUNK_SIZE_X as int,
            c.z == block.z as int / CHUNK_SIZE_Z as int,
    {
        let x = match block.x.checked_div_euclid(CHUNK_SIZE_X) {
            Some(q) => q,
            None => 0,
        };
        let z = match block.z.checked_div_euclid(CHUNK_SIZE_Z) {
            Some(q) => q,
            None => 0,
        };
        Self { x, z }
    }

    /// The region that holds this chunk (floor division by the region width).
    pub fn to_region(self) -> (r: RegionCoord)
        ensures
            r.x == self.x as int / REGION_SIZE as int,
            r.z == self.z as int / REGION_SIZE as int,
    {
        let x = match self.x.checked_div_euclid(REGION_SIZE) {
            Some(q) => q,
            None => 0,
        };
        let z = match self.z.checked_div_euclid(REGION_SIZE) {
            Some(q) => q,
            None => 0,
        };
        RegionCoord { x, z }
    }

    /// The block at the low x/z corner of this chunk, at height 0.
    pub fn world_origin(self) -> (b: BlockCoord)
        requires
            i32::MIN <= self.x * CHUNK_SIZE_X <= i32::MAX,
            i32::MIN <= self.z * CHUNK_SIZE_Z <= i32::MAX,
        ensures
            b.x == self.x * CHUNK_SIZE_X,
            b.y == 0,
            b.z == self.z * CHUNK_SIZE_Z,
    {
        BlockCoord::new(self.x * CHUNK_SIZE_X, 0, self.z * CHUNK_SIZE_Z)
    }

    /// The square of the planar distance to `other`.
    pub fn distance_squared(self, other: Self) -> (d: i32)
        requires
            distance_fits_i32(self, other),
        ensures
            d == chunk_distance_sq(self, other),
    {
        let dx = self.x - other.x;
        let dz = self.z - other.z;
        assert(0 <= dx * dx) by (nonlinear_arith);
        assert(0 <= dz * dz) by (nonlinear_arith);
        dx * dx + dz * dz
    }
}

impl RegionCoord {
    /// The region at `(x, z)`.
    pub fn new(x: i32, z: i32) -> (r: Self)
        ensures
            r == (RegionCoord { x, z }),
    {
        Self { x, z }
    }
}

/// Every block lies in the chunk column that `ChunkCoord::from_block` assigns to it, and
/// that column's origin is within `i32` range.
pub proof fn block_lies_in_its_chunk(b: BlockCoord)
    ensures
        (b.x as int / CHUNK_SIZE_X as int) * CHUNK_SIZE_X <= b.x < (b.x as int / CHUNK_SIZE_X as int) * CHUNK_SIZE_X + CHUNK_SIZE_X,
        (b.z as int / CHUNK_SIZE_Z as int) * CHUNK_SIZE_Z <= b.z < (b.z as int / CHUNK_SIZE_Z as int) * CHUNK_SIZE_Z + CHUNK_SIZE_Z,
        i32::MIN <= (b.x as int / CHUNK_SIZE_X as int) * CHUNK_SIZE_X <= i32::MAX,
        i32::MIN <= (b.z as int / CHUNK_SIZE_Z as int) * CHUNK_SIZE_Z <= i32::MAX,
{
    let x = b.x as int;
    let z = b.z as int;
    assert(x == (x / 32) * 32 + x % 32 && 0 <= x % 32 < 32) by (nonlinear_arith);
    assert(z == (z / 32) * 32 + z % 32 && 0 <= z % 32 < 32) by (nonlinear_arith);
}

/// Every chunk lies in the region that `ChunkCoord::to_region` assigns to it.
pub proof fn chunk_lies_in_its_region(c: ChunkCoord)
    ensures
        (c.x as int / REGION_SIZE as int) * REGION_SIZE <= c.x < (c.x as int / REGION_SIZE as int) * REGION_SIZE + REGION_SIZE,
        (c.z as int / REGION_SIZE as int) * REGION_SIZE <= c.z < (c.z as int / REGION_SIZE as int) * REGION_SIZE + REGION_SIZE,
{
    let x = c.x as int;
    let z = c.z as int;
    assert(x == (x / 8) * 8 + x % 8 && 0 <= x % 8 < 8) by (nonlinear_arith);
    assert(z == (z / 8) * 8 + z % 8 && 0 <= z % 8 < 8) by (nonlinear_arith);
}

/// The squared chunk distance is symmetric, never negative, and zero exactly between a
/// chunk and itself.
pub proof fn chunk_distance_is_a_metric_square(a: ChunkCoord, b: ChunkCoord)
    ensures
        chunk_distance_sq(a, b) == chunk_distance_sq(b, a),
        chunk_distance_sq(a, b) >= 0,
        chunk_distance_sq(a, b) == 0 <==> a == b,
{
    let dx = a.x - b.x;
    let dz = a.z - b.z;
    assert(dx * dx == (b.x - a.x) * (b.x - a.x)) by (nonlinear_arith)
        requires
            dx == a.x - b.x,
    ;
    assert(dz * dz == (b.z - a.z) * (b.z - a.z)) by (nonlinear_arith)
        requires
            dz == a.z - b.z,
    ;
    assert(dx * dx >= 0 && dz * dz >= 0) by (nonlinear_arith);
    assert(dx * dx == 0 ==> dx == 0) by (nonlinear_arith);
    assert(dz * dz == 0 ==> dz == 0) by (nonlinear_arith);
    assert(dx == 0 ==> dx * dx == 0) by (nonlinear_arith);
    assert(dz == 0 ==> dz * dz == 0) by (nonlinear_arith);
    if chunk_distance_sq(a, b) == 0 {
        assert(dx * dx == 0 && dz * dz == 0);
        assert(a.x == b.x && a.z == b.z);
    }
}

} // verus!
