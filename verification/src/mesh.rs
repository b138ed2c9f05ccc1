use crate::budget::FrameBudget;
use crate::coords::{BlockCoord, ChunkCoord, CHUNK_HEIGHT, CHUNK_SIZE_X, CHUNK_SIZE_Z};
use crate::voxel::{BlockId, AIR};
use crate::world::{World, WorldView};
use vstd::prelude::*;

verus! {

/// The six faces of a block.
#[derive(Debug, Clone, Copy, PartialEq, Eq, Structural)]
pub enum Face {
    Left,
    Right,
    Bottom,
    Top,
    Back,
    Front,
}

/// One visible block face: the block's position, its type and which face it is.
#[derive(Debug, Clone, Copy, PartialEq, Eq)]
pub struct FaceVertex {
    pub position: [i32; 3],
    pub block_id: BlockId,
    pub face: Face,
}

/// The visible faces of one chunk column.
#[derive(Debug, Clone)]
pub struct ChunkMesh {
    pub chunk: ChunkCoord,
    pub vertices: Vec<FaceVertex>,
    pub visible_faces: u32,
}

/// The face record for face `face` of the block at `b` of type `id`.
pub open spec fn face_at(b: BlockCoord, id: BlockId, face: Face) -> FaceVertex {
    FaceVertex { position: [b.x, b.y, b.z], block_id: id, face }
}

/// Face `face` of block `b` (of type `id`) is visible when the neighbouring block `n`
/// across it is air.
pub open spec fn face_if_exposed(w: WorldView, b: BlockCoord, n: BlockCoord, id: BlockId, face: Face) -> Seq<FaceVertex> {
    if w.block_id_at(n) == AIR {
        seq![face_at(b, id, face)]
    } else {
        Seq::empty()
    }
}

/// The block at offset `(dx, dy, dz)` from `b`.
pub open spec fn block_offset(b: BlockCoord, dx: int, dy: int, dz: int) -> BlockCoord {
    BlockCoord { x: (b.x + dx) as i32, y: (b.y + dy) as i32, z: (b.z + dz) as i32 }
}

/// The visible faces of the block at `b`, in the order left, right, bottom, top, back,
/// front; none for air.
pub open spec fn block_faces(w: WorldView, b: BlockCoord) -> Seq<FaceVertex> {
    let id = w.block_id_at(b);
    if id == AIR {
        Seq::empty()
    } else {
        face_if_exposed(w, b, block_offset(b, -1, 0, 0), id, Face::Left) + face_if_exposed(
            w,
            b,
            block_offset(b, 1, 0, 0),
            id,
            Face::Right,
        ) + face_if_exposed(w, b, block_offset(b, 0, -1, 0), id, Face::Bottom) + face_if_exposed(
            w,
            b,
            block_offset(b, 0, 1, 0),
            id,
            Face::Top,
        ) + face_if_exposed(w, b, block_offset(b, 0, 0, -1), id, Face::Back) + face_if_exposed(
            w,
            b,
            block_offset(b, 0, 0, 1),
            id,
            Face::Front,
        )
    }
}

/// The block of column `c` at height `y` and offsets `x`, `z` from its origin.
pub open spec fn column_block(c: ChunkCoord, x: int, y: int, z: int) -> BlockCoord {
    BlockCoord { x: (c.x * CHUNK_SIZE_X + x) as i32, y: y as i32, z: (c.z * CHUNK_SIZE_Z + z) as i32 }
}

/// Visible faces of the first `n` blocks, in order of x, of row `z` at height `y` of column `c`.
pub open spec fn row_faces(w: WorldView, c: ChunkCoord, y: int, z: int, n: int) -> Seq<FaceVertex>
    decreases n,
{
    if n <= 0 {
        Seq::empty()
    } else {
        row_faces(w, c, y, z, n - 1) + block_faces(w, column_block(c, n - 1, y, z))
    }
}

/// Visible faces of the first `n` rows, in order of z, of the layer at height `y` of column `c`.
pub open spec fn layer_faces(w: WorldView, c: ChunkCoord, y: int, n: int) -> Seq<FaceVertex>
    decreases n,
{
    if n <= 0 {
        Seq::empty()
    } else {
        layer_faces(w, c, y, n - 1) + row_faces(w, c, y, n - 1, CHUNK_SIZE_X as int)
    }
}

/// Visible faces of the lowest `n` layers of column `c`, bottom to top.
pub open spec fn column_faces(w: WorldView, c: ChunkCoord, n: int) -> Seq<FaceVertex>
    decreases n,
{
    if n <= 0 {
        Seq::empty()
    } else {
        column_faces(w, c, n - 1) + layer_faces(w, c, n - 1, CHUNK_SIZE_Z as int)
    }
}

/// The visible faces of column `c`, scanning layers bottom to top, rows by z and blocks by x.
pub open spec fn chunk_faces(w: WorldView, c: ChunkCoord) -> Seq<FaceVertex> {
    column_faces(w, c, CHUNK_HEIGHT as int)
}

/// Column `c` and its one-block border lie within `i32` range.
pub open spec fn column_fits_i32(c: ChunkCoord) -> bool {
    &&& i32::MIN <= c.x * CHUNK_SIZE_X - 1
    &&& c.x * CHUNK_SIZE_X + CHUNK_SIZE_X <= i32::MAX
    &&& i32::MIN <= c.z * CHUNK_SIZE_Z - 1
    &&& c.z * CHUNK_SIZE_Z + CHUNK_SIZE_Z <= i32::MAX
}

/// Block `b` lies in column `c` or in its one-block border, between heights -1 and
/// `CHUNK_HEIGHT`.
pub open spec fn near_column(c: ChunkCoord, b: BlockCoord) -> bool {
    &&& c.x * CHUNK_SIZE_X - 1 <= b.x <= c.x * CHUNK_SIZE_X + CHUNK_SIZE_X
    &&& -1 <= b.y <= CHUNK_HEIGHT
    &&& c.z * CHUNK_SIZE_Z - 1 <= b.z <= c.z * CHUNK_SIZE_Z + CHUNK_SIZE_Z
}

/// Every block that meshing column `c` samples can be sampled.
pub open spec fn column_samplable(w: WorldView, c: ChunkCoord) -> bool {
    forall|b: BlockCoord| near_column(c, b) ==> #[trigger] w.can_sample(b)
}

/// Appends face `face` of the block at `coord` (of type `block_id`) to `vertices` if the
/// neighbouring block `neighbor` is air.
pub fn push_face_if_visible(
    world: &World,
    vertices: &mut Vec<FaceVertex>,
    coord: BlockCoord,
    neighbor: BlockCoord,
    block_id: BlockId,
    face: Face,
)
    requires
        world@.can_sample(neighbor),
    ensures
        final(vertices)@ == old(vertices)@ + face_if_exposed(world@, coord, neighbor, block_id, face),
{
    if world.sample_block(neighbor).id != AIR {
        assert(old(vertices)@ + Seq::<FaceVertex>::empty() =~= old(vertices)@);
        return;
    }
    vertices.push(FaceVertex { position: [coord.x, coord.y, coord.z], block_id, face });
}

/// Appends the visible faces of the block at `b` to `vertices`.
#[verifier::spinoff_prover]
fn push_block_faces(world: &World, vertices: &mut Vec<FaceVertex>, b: BlockCoord)
    requires
        i32::MIN < b.x < i32::MAX,
        i32::MIN < b.y < i32::MAX,
        i32::MIN < b.z < i32::MAX,
        world@.can_sample(b),
        world@.can_sample(block_offset(b, -1, 0, 0)),
        world@.can_sample(block_offset(b, 1, 0, 0)),
        world@.can_sample(block_offset(b, 0, -1, 0)),
        world@.can_sample(block_offset(b, 0, 1, 0)),
        world@.can_sample(block_offset(b, 0, 0, -1)),
        world@.can_sample(block_offset(b, 0, 0, 1)),
    ensures
        final(vertices)@ == old(vertices)@ + block_faces(world@, b),
{
    let block_id = world.sample_block(b).id;
    if block_id == AIR {
        assert(old(vertices)@ + Seq::<FaceVertex>::empty() =~= old(vertices)@);
        return;
    }
    let ghost w = world@;
    let ghost before = vertices@;
    let left = BlockCoord::new(b.x - 1, b.y, b.z);
    let right = BlockCoord::new(b.x + 1, b.y, b.z);
    let bottom = BlockCoord::new(b.x, b.y - 1, b.z);
    let top = BlockCoord::new(b.x, b.y + 1, b.z);
    let back = BlockCoord::new(b.x, b.y, b.z - 1);
    let front = BlockCoord::new(b.x, b.y, b.z + 1);
    let ghost f1 = face_if_exposed(w, b, block_offset(b, -1, 0, 0), block_id, Face::Left);
    let ghost f2 = face_if_exposed(w, b, block_offset(b, 1, 0, 0), block_id, Face::Right);
    let ghost f3 = face_if_exposed(w, b, block_offset(b, 0, -1, 0), block_id, Face::Bottom);
    let ghost f4 = face_if_exposed(w, b, block_offset(b, 0, 1, 0), block_id, Face::Top);
    let ghost f5 = face_if_exposed(w, b, block_offset(b, 0, 0, -1), block_id, Face::Back);
    let ghost f6 = face_if_exposed(w, b, block_offset(b, 0, 0, 1), block_id, Face::Front);
    assert(left == block_offset(b, -1, 0, 0));
    push_face_if_visible(world, vertices, b, left, block_id, Face::Left);
    assert(vertices@ == before + f1);
    assert(right == block_offset(b, 1, 0, 0));
    push_face_if_visible(world, vertices, b, right, block_id, Face::Right);
    assert(vertices@ == before + f1 + f2);
    assert(bottom == block_offset(b, 0, -1, 0));
    push_face_if_visible(world, vertices, b, bottom, block_id, Face::Bottom);
    assert(vertices@ == before + f1 + f2 + f3);
    assert(top == block_offset(b, 0, 1, 0));
    push_face_if_visible(world, vertices, b, top, block_id, Face::Top);
    assert(vertices@ == before + f1 + f2 + f3 + f4);
    assert(back == block_offset(b, 0, 0, -1));
    push_face_if_visible(world, vertices, b, back, block_id, Face::Back);
    assert(vertices@ == before + f1 + f2 + f3 + f4 + f5);
    assert(front == block_offset(b, 0, 0, 1));
    push_face_if_visible(world, vertices, b, front, block_id, Face::Front);
    assert(vertices@ == before + f1 + f2 + f3 + f4 + f5 + f6);
    assert(block_faces(w, b) == f1 + f2 + f3 + f4 + f5 + f6);
    assert(vertices@ =~= before + block_faces(world@, b));
}

proof fn lemma_block_faces_len(w: WorldView, b: BlockCoord)
    ensures
        block_faces(w, b).len() <= 6,
{
}

proof fn lemma_row_faces_len(w: WorldView, c: ChunkCoord, y: int, z: int, n: int)
    requires
        0 <= n,
    ensures
        row_faces(w, c, y, z, n).len() <= 6 * n,
    decreases n,
{
    if n > 0 {
        lemma_row_faces_len(w, c, y, z, n - 1);
        lemma_block_faces_len(w, column_block(c, n - 1, y, z));
    }
}

proof fn lemma_layer_faces_len(w: WorldView, c: ChunkCoord, y: int, n: int)
    requires
        0 <= n,
    ensures
        layer_faces(w, c, y, n).len() <= 192 * n,
    decreases n,
{
    if n > 0 {
        lemma_layer_faces_len(w, c, y, n - 1);
        lemma_row_faces_len(w, c, y, n - 1, CHUNK_SIZE_X as int);
    }
}

proof fn lemma_column_faces_len(w: WorldView, c: ChunkCoord, n: int)
    requires
        0 <= n,
    ensures
        column_faces(w, c, n).len() <= 6144 * n,
    decreases n,
{
    if n > 0 {
        lemma_column_faces_len(w, c, n - 1);
        lemma_layer_faces_len(w, c, n - 1, CHUNK_SIZE_Z as int);
    }
}

impl ChunkMesh {
    /// The visible faces of column `coord`: for every non-air block, each face whose
    /// neighbouring block is air.
    pub fn build(world: &World, coord: ChunkCoord) -> (mesh: Self)
        requires
            column_fits_i32(coord),
            column_samplable(world@, coord),
        ensures
            mesh.chunk == coord,
            mesh.vertices@ == chunk_faces(world@, coord),
            mesh.visible_faces == mesh.vertices@.len(),
            mesh.vertices@.len() <= 6 * CHUNK_SIZE_X * CHUNK_SIZE_Z * CHUNK_HEIGHT,
            all_exposed(world@, coord, mesh.vertices@),
            forall|b: BlockCoord, face: Face|
                in_column(coord, b) && world@.block_id_at(b) != AIR && world@.block_id_at(across_face(b, face)) == AIR
                    ==> #[trigger] mesh.vertices@.contains(face_at(b, world@.block_id_at(b), face)),
    {
        let mut vertices: Vec<FaceVertex> = Vec::new();
        let origin = coord.world_origin();
        let mut y: i32 = 0;
        while y < CHUNK_HEIGHT
            invariant
                0 <= y <= CHUNK_HEIGHT,
                origin.x == coord.x * CHUNK_SIZE_X,
                origin.z == coord.z * CHUNK_SIZE_Z,
                column_fits_i32(coord),
                column_samplable(world@, coord),
                vertices@ == column_faces(world@, coord, y as int),
            decreases CHUNK_HEIGHT - y,
        {
            let mut z: i32 = 0;
            while z < CHUNK_SIZE_Z
                invariant
                    0 <= y < CHUNK_HEIGHT,
                    0 <= z <= CHUNK_SIZE_Z,
                    origin.x == coord.x * CHUNK_SIZE_X,
                    origin.z == coord.z * CHUNK_SIZE_Z,
                    column_fits_i32(coord),
                    column_samplable(world@, coord),
                    vertices@ == column_faces(world@, coord, y as int) + layer_faces(world@, coord, y as int, z as int),
                decreases CHUNK_SIZE_Z - z,
            {
                let mut x: i32 = 0;
                while x < CHUNK_SIZE_X
                    invariant
                        0 <= y < CHUNK_HEIGHT,
                        0 <= z < CHUNK_SIZE_Z,
                        0 <= x <= CHUNK_SIZE_X,
                        origin.x == coord.x * CHUNK_SIZE_X,
                        origin.z == coord.z * CHUNK_SIZE_Z,
                        column_fits_i32(coord),
                        column_samplable(world@, coord),
                        vertices@ == column_faces(world@, coord, y as int) + layer_faces(world@, coord, y as int, z as int)
                            + row_faces(world@, coord, y as int, z as int, x as int),
                    decreases CHUNK_SIZE_X - x,
                {
                    let wx = origin.x + x;
                    let wz = origin.z + z;
                    let block_coord = BlockCoord::new(wx, y, wz);
                    assert(block_coord == column_block(coord, x as int, y as int, z as int));
                    assert(near_column(coord, block_coord));
                    assert(near_column(coord, block_offset(block_coord, -1, 0, 0)));
                    assert(near_column(coord, block_offset(block_coord, 1, 0, 0)));
                    assert(near_column(coord, block_offset(block_coord, 0, -1, 0)));
                    assert(near_column(coord, block_offset(block_coord, 0, 1, 0)));
                    assert(near_column(coord, block_offset(block_coord, 0, 0, -1)));
                    assert(near_column(coord, block_offset(block_coord, 0, 0, 1)));
                    push_block_faces(world, &mut vertices, block_coord);
                    assert(row_faces(world@, coord, y as int, z as int, x + 1) == row_faces(
                        world@,
                        coord,
                        y as int,
                        z as int,
                        x as int,
                    ) + block_faces(world@, block_coord));
                    x = x + 1;
                }
                assert(layer_faces(world@, coord, y as int, z + 1) == layer_faces(world@, coord, y as int, z as int)
                    + row_faces(world@, coord, y as int, z as int, CHUNK_SIZE_X as int));
                z = z + 1;
            }
            assert(column_faces(world@, coord, y + 1) == column_faces(world@, coord, y as int) + layer_faces(
                world@,
                coord,
                y as int,
                CHUNK_SIZE_Z as int,
            ));
            y = y + 1;
        }
        proof {
            lemma_column_faces_len(world@, coord, CHUNK_HEIGHT as int);
            mesh_draws_exactly_the_exposed_faces(world@, coord);
        }
        let visible_faces = vertices.len() as u32;
        Self { chunk: coord, visible_faces, vertices }
    }
}

/// Block `b` lies in column `c`.
pub open spec fn in_column(c: ChunkCoord, b: BlockCoord) -> bool {
    &&& c.x * CHUNK_SIZE_X <= b.x < c.x * CHUNK_SIZE_X + CHUNK_SIZE_X
    &&& 0 <= b.y < CHUNK_HEIGHT
    &&& c.z * CHUNK_SIZE_Z <= b.z < c.z * CHUNK_SIZE_Z + CHUNK_SIZE_Z
}

/// The blocks of column `c` itself, without a border, lie within `i32` range.
pub open spec fn column_in_i32(c: ChunkCoord) -> bool {
    &&& i32::MIN <= c.x * CHUNK_SIZE_X
    &&& c.x * CHUNK_SIZE_X + CHUNK_SIZE_X - 1 <= i32::MAX
    &&& i32::MIN <= c.z * CHUNK_SIZE_Z
    &&& c.z * CHUNK_SIZE_Z + CHUNK_SIZE_Z - 1 <= i32::MAX
}

/// Every block of column `c` can be sampled.
pub open spec fn column_blocks_samplable(w: WorldView, c: ChunkCoord) -> bool {
    forall|b: BlockCoord| in_column(c, b) ==> #[trigger] w.can_sample(b)
}

/// The surface scan visits `a` before `b`: higher layers first, then rows by z, then blocks by x.
pub open spec fn scanned_before(a: BlockCoord, b: BlockCoord) -> bool {
    ||| a.y > b.y
    ||| a.y == b.y && a.z < b.z
    ||| a.y == b.y && a.z == b.z && a.x < b.x
}

/// The first non-air block of column `coord`, scanning from the top layer down, rows by z
/// and blocks by x; `None` when the whole column is air.
pub fn sample_chunk_surface(world: &World, coord: ChunkCoord) -> (r: Option<BlockCoord>)
    requires
        column_in_i32(coord),
        column_blocks_samplable(world@, coord),
    ensures
        match r {
            Some(b) => {
                &&& in_column(coord, b)
                &&& world@.block_id_at(b) != AIR
                &&& forall|a: BlockCoord| in_column(coord, a) && scanned_before(a, b) ==> #[trigger] world@.block_id_at(a) == AIR
            },
            None => forall|a: BlockCoord| in_column(coord, a) ==> #[trigger] world@.block_id_at(a) == AIR,
        },
{
    let origin = coord.world_origin();
    let mut y: i32 = CHUNK_HEIGHT;
    while y > 0
        invariant
            0 <= y <= CHUNK_HEIGHT,
            origin.x == coord.x * CHUNK_SIZE_X,
            origin.z == coord.z * CHUNK_SIZE_Z,
            column_in_i32(coord),
            column_blocks_samplable(world@, coord),
            forall|a: BlockCoord| in_column(coord, a) && a.y >= y ==> #[trigger] world@.block_id_at(a) == AIR,
        decreases y,
    {
        y = y - 1;
        let mut z: i32 = 0;
        while z < CHUNK_SIZE_Z
            invariant
                0 <= y < CHUNK_HEIGHT,
                0 <= z <= CHUNK_SIZE_Z,
                origin.x == coord.x * CHUNK_SIZE_X,
                origin.z == coord.z * CHUNK_SIZE_Z,
                column_in_i32(coord),
                column_blocks_samplable(world@, coord),
                forall|a: BlockCoord|
                    in_column(coord, a) && (a.y > y || (a.y == y && a.z < origin.z + z)) ==> #[trigger] world@.block_id_at(a) == AIR,
            decreases CHUNK_SIZE_Z - z,
        {
            let mut x: i32 = 0;
            while x < CHUNK_SIZE_X
                invariant
                    0 <= y < CHUNK_HEIGHT,
                    0 <= z < CHUNK_SIZE_Z,
                    0 <= x <= CHUNK_SIZE_X,
                    origin.x == coord.x * CHUNK_SIZE_X,
                    origin.z == coord.z * CHUNK_SIZE_Z,
                    column_in_i32(coord),
                    column_blocks_samplable(world@, coord),
                    forall|a: BlockCoord|
                        in_column(coord, a) && (a.y > y || (a.y == y && a.z < origin.z + z) || (a.y == y && a.z == origin.z + z
                            && a.x < origin.x + x)) ==> #[trigger] world@.block_id_at(a) == AIR,
                decreases CHUNK_SIZE_X - x,
            {
                let block_coord = BlockCoord::new(origin.x + x, y, origin.z + z);
                assert(in_column(coord, block_coord));
                if world.sample_block(block_coord).id != AIR {
                    return Some(block_coord);
                }
                x = x + 1;
            }
            z = z + 1;
        }
    }
    None
}

/// A loaded chunk as the renderer sees it when deciding what to mesh this frame.
#[derive(Debug, Clone, Copy, PartialEq, Eq, Structural)]
pub struct MeshCandidate {
    pub coord: ChunkCoord,
    /// The chunk is within the camera's view.
    pub in_view: bool,
    /// The chunk's state is `Meshing`.
    pub meshing: bool,
    /// A mesh of the chunk has been uploaded already.
    pub uploaded: bool,
}

/// A candidate is meshed when it is in view and either marked for meshing or not uploaded yet.
pub open spec fn needs_mesh(c: MeshCandidate) -> bool {
    c.in_view && (c.meshing || !c.uploaded)
}

/// The chunks of `cs` that need a mesh, in order.
pub open spec fn wanted_meshes(cs: Seq<MeshCandidate>) -> Seq<ChunkCoord>
    decreases cs.len(),
{
    if cs.len() == 0 {
        Seq::empty()
    } else {
        wanted_meshes(cs.drop_last()) + if needs_mesh(cs.last()) {
            seq![cs.last().coord]
        } else {
            Seq::empty()
        }
    }
}

proof fn lemma_wanted_meshes_prefix(cs: Seq<MeshCandidate>, i: int)
    requires
        0 <= i <= cs.len(),
    ensures
        wanted_meshes(cs.take(i)).len() <= wanted_meshes(cs).len(),
        wanted_meshes(cs.take(i)) == wanted_meshes(cs).take(wanted_meshes(cs.take(i)).len() as int),
    decreases cs.len() - i,
{
    if i < cs.len() {
        lemma_wanted_meshes_prefix(cs, i + 1);
        assert(cs.take(i + 1).drop_last() =~= cs.take(i));
        let a = wanted_meshes(cs.take(i));
        let b = wanted_meshes(cs.take(i + 1));
        assert(b.take(a.len() as int) =~= a);
        assert(wanted_meshes(cs).take(a.len() as int) =~= b.take(a.len() as int));
    } else {
        assert(cs.take(i) =~= cs);
    }
}

/// The chunks to mesh this frame: those of `candidates` (in order) that need a mesh,
/// up to `max_jobs` of them.
pub fn select_mesh_jobs(candidates: &Vec<MeshCandidate>, max_jobs: usize) -> (jobs: Vec<ChunkCoord>)
    ensures
        jobs@ == wanted_meshes(candidates@).take(
            if (max_jobs as int) < wanted_meshes(candidates@).len() {
                max_jobs as int
            } else {
                wanted_meshes(candidates@).len() as int
            },
        ),
        forall|j: int| #![trigger jobs@[j]] 0 <= j < jobs@.len() ==> stale_in_view(candidates@, jobs@[j]),
        jobs@.len() <= max_jobs,
        jobs@.len() < max_jobs ==> forall|i: int|
            0 <= i < candidates@.len() && (#[trigger] candidates@[i]).in_view && (candidates@[i].meshing
                || !candidates@[i].uploaded) ==> jobs@.contains(candidates@[i].coord),
{
    let mut budget = FrameBudget::new(max_jobs);
    let mut jobs: Vec<ChunkCoord> = Vec::new();
    let mut i: usize = 0;
    while i < candidates.len()
        invariant_except_break
            budget@ + jobs@.len() == max_jobs,
        invariant
            i <= candidates@.len(),
            jobs@.len() <= max_jobs,
            jobs@ == wanted_meshes(candidates@.take(i as int)),
        ensures
            jobs@.len() == max_jobs || i == candidates@.len(),
            jobs@ == wanted_meshes(candidates@.take(i as int)),
        decreases candidates@.len() - i,
    {
        let c = candidates[i];
        assert(candidates@.take(i + 1).drop_last() =~= candidates@.take(i as int));
        if !c.in_view {
            i = i + 1;
            continue;
        }
        if !c.meshing && c.uploaded {
            i = i + 1;
            continue;
        }
        if !budget.try_take(1) {
            break;
        }
        jobs.push(c.coord);
        i = i + 1;
    }
    proof {
        wanted_meshes_are_stale_chunks_in_view(candidates@);
        lemma_wanted_meshes_prefix(candidates@, i as int);
        if i == candidates@.len() {
            assert(candidates@.take(i as int) =~= candidates@);
        }
    }
    jobs
}

/// Some candidate for chunk `c` is in view and either marked for meshing or without an
/// uploaded mesh.
pub open spec fn stale_in_view(cs: Seq<MeshCandidate>, c: ChunkCoord) -> bool {
    exists|i: int| 0 <= i < cs.len() && (#[trigger] cs[i]).coord == c && cs[i].in_view && (cs[i].meshing || !cs[i].uploaded)
}

/// The chunks wanted for meshing are exactly the candidates in view that are marked for
/// meshing or have no uploaded mesh: each wanted chunk is such a candidate's chunk, and each
/// such candidate's chunk is wanted.
pub proof fn wanted_meshes_are_stale_chunks_in_view(cs: Seq<MeshCandidate>)
    ensures
        forall|j: int|
            #![trigger wanted_meshes(cs)[j]]
            0 <= j < wanted_meshes(cs).len() ==> stale_in_view(cs, wanted_meshes(cs)[j]),
        forall|i: int|
            0 <= i < cs.len() && (#[trigger] cs[i]).in_view && (cs[i].meshing || !cs[i].uploaded) ==> wanted_meshes(
                cs,
            ).contains(cs[i].coord),
    decreases cs.len(),
{
    if cs.len() == 0 {
        assert(wanted_meshes(cs) =~= Seq::<ChunkCoord>::empty());
    } else {
        let p = cs.drop_last();
        wanted_meshes_are_stale_chunks_in_view(p);
        let wp = wanted_meshes(p);
        let w = wanted_meshes(cs);
        let last = cs.last();
        assert(w == wp + if needs_mesh(last) { seq![last.coord] } else { Seq::empty() });
        assert forall|j: int| #![trigger wanted_meshes(cs)[j]] 0 <= j < wanted_meshes(cs).len() implies stale_in_view(
            cs,
            wanted_meshes(cs)[j],
        ) by {
            if j < wp.len() {
                assert(w[j] == wp[j]);
                assert(stale_in_view(p, wp[j]));
                let i = choose|i: int|
                    0 <= i < p.len() && (#[trigger] p[i]).coord == wp[j] && p[i].in_view && (p[i].meshing || !p[i].uploaded);
                assert(cs[i] == p[i]);
            } else {
                assert(needs_mesh(last));
                assert(w[j] == last.coord);
                assert(cs[cs.len() - 1] == last);
                assert(cs[cs.len() - 1].coord == w[j]);
            }
        }
        assert forall|i: int| 0 <= i < cs.len() && (#[trigger] cs[i]).in_view && (cs[i].meshing || !cs[i].uploaded) implies wanted_meshes(cs).contains(
            cs[i].coord,
        ) by {
            if i < cs.len() - 1 {
                assert(p[i] == cs[i]);
                assert(wp.contains(cs[i].coord));
                let j = choose|j: int| 0 <= j < wp.len() && wp[j] == cs[i].coord;
                assert(w[j] == wp[j]);
            } else {
                assert(w[w.len() - 1] == last.coord);
            }
        }
    }
}

/// The block one step out of `b` through its face `face`: `Left` is toward -x, `Right`
/// toward +x, `Bottom` toward -y, `Top` toward +y, `Back` toward -z and `Front` toward +z.
pub open spec fn across_face(b: BlockCoord, face: Face) -> BlockCoord {
    match face {
        Face::Left => BlockCoord { x: (b.x - 1) as i32, y: b.y, z: b.z },
        Face::Right => BlockCoord { x: (b.x + 1) as i32, y: b.y, z: b.z },
        Face::Bottom => BlockCoord { x: b.x, y: (b.y - 1) as i32, z: b.z },
        Face::Top => BlockCoord { x: b.x, y: (b.y + 1) as i32, z: b.z },
        Face::Back => BlockCoord { x: b.x, y: b.y, z: (b.z - 1) as i32 },
        Face::Front => BlockCoord { x: b.x, y: b.y, z: (b.z + 1) as i32 },
    }
}

/// `f` is an exposed face of a block of column `c`: it sits on a non-air block of the
/// column, carries that block's type, and the block across it is air.
pub open spec fn exposed_face_in_column(w: WorldView, c: ChunkCoord, f: FaceVertex) -> bool {
    exists|b: BlockCoord|
        #![trigger face_at(b, w.block_id_at(b), f.face)]
        in_column(c, b) && f == face_at(b, w.block_id_at(b), f.face) && w.block_id_at(b) != AIR && w.block_id_at(
            across_face(b, f.face),
        ) == AIR
}

/// Every face of `s` is an exposed face of a block of column `c`.
pub open spec fn all_exposed(w: WorldView, c: ChunkCoord, s: Seq<FaceVertex>) -> bool {
    forall|i: int| 0 <= i < s.len() ==> exposed_face_in_column(w, c, #[trigger] s[i])
}

proof fn lemma_all_exposed_concat(w: WorldView, c: ChunkCoord, a: Seq<FaceVertex>, t: Seq<FaceVertex>)
    requires
        all_exposed(w, c, a),
        all_exposed(w, c, t),
    ensures
        all_exposed(w, c, a + t),
{
    assert forall|i: int| 0 <= i < (a + t).len() implies exposed_face_in_column(w, c, #[trigger] (a + t)[i]) by {
        if i < a.len() {
            assert((a + t)[i] == a[i]);
        } else {
            assert((a + t)[i] == t[i - a.len()]);
        }
    }
}

proof fn lemma_contains_concat(a: Seq<FaceVertex>, t: Seq<FaceVertex>, f: FaceVertex)
    requires
        a.contains(f) || t.contains(f),
    ensures
        (a + t).contains(f),
{
    if a.contains(f) {
        let k = choose|k: int| 0 <= k < a.len() && a[k] == f;
        assert((a + t)[k] == f);
    } else {
        let k = choose|k: int| 0 <= k < t.len() && t[k] == f;
        assert((a + t)[a.len() + k] == f);
    }
}

/// The faces listed for a block of column `c` are exactly its exposed faces.
proof fn lemma_block_faces_exposed(w: WorldView, c: ChunkCoord, b: BlockCoord)
    requires
        column_fits_i32(c),
        in_column(c, b),
    ensures
        all_exposed(w, c, block_faces(w, b)),
        forall|face: Face|
            w.block_id_at(b) != AIR && w.block_id_at(across_face(b, face)) == AIR ==> #[trigger] block_faces(w, b).contains(
                face_at(b, w.block_id_at(b), face),
            ),
{
    let id = w.block_id_at(b);
    if id != AIR {
        let f1 = face_if_exposed(w, b, block_offset(b, -1, 0, 0), id, Face::Left);
        let f2 = face_if_exposed(w, b, block_offset(b, 1, 0, 0), id, Face::Right);
        let f3 = face_if_exposed(w, b, block_offset(b, 0, -1, 0), id, Face::Bottom);
        let f4 = face_if_exposed(w, b, block_offset(b, 0, 1, 0), id, Face::Top);
        let f5 = face_if_exposed(w, b, block_offset(b, 0, 0, -1), id, Face::Back);
        let f6 = face_if_exposed(w, b, block_offset(b, 0, 0, 1), id, Face::Front);
        let all = block_faces(w, b);
        assert(all == f1 + f2 + f3 + f4 + f5 + f6);
        assert(block_offset(b, -1, 0, 0) == across_face(b, Face::Left));
        assert(block_offset(b, 1, 0, 0) == across_face(b, Face::Right));
        assert(block_offset(b, 0, -1, 0) == across_face(b, Face::Bottom));
        assert(block_offset(b, 0, 1, 0) == across_face(b, Face::Top));
        assert(block_offset(b, 0, 0, -1) == across_face(b, Face::Back));
        assert(block_offset(b, 0, 0, 1) == across_face(b, Face::Front));
        assert forall|face: Face| #![trigger face_at(b, id, face)] true implies (w.block_id_at(across_face(b, face)) == AIR
            ==> exposed_face_in_column(w, c, face_at(b, id, face))) by {
            if w.block_id_at(across_face(b, face)) == AIR {
                let f = face_at(b, id, face);
                assert(f == face_at(b, w.block_id_at(b), f.face));
            }
        }
        let fs = seq![f1, f2, f3, f4, f5, f6];
        assert forall|k: int| 0 <= k < 6 implies all_exposed(w, c, #[trigger] fs[k]) by {
            let parts = fs[k];
            assert forall|i: int| 0 <= i < parts.len() implies exposed_face_in_column(w, c, #[trigger] parts[i]) by {
                if k == 0 { assert(parts[i] == face_at(b, id, Face::Left)); }
                else if k == 1 { assert(parts[i] == face_at(b, id, Face::Right)); }
                else if k == 2 { assert(parts[i] == face_at(b, id, Face::Bottom)); }
                else if k == 3 { assert(parts[i] == face_at(b, id, Face::Top)); }
                else if k == 4 { assert(parts[i] == face_at(b, id, Face::Back)); }
                else { assert(parts[i] == face_at(b, id, Face::Front)); }
            }
        }
        assert(all_exposed(w, c, fs[0]));
        assert(all_exposed(w, c, fs[1]));
        assert(all_exposed(w, c, fs[2]));
        assert(all_exposed(w, c, fs[3]));
        assert(all_exposed(w, c, fs[4]));
        assert(all_exposed(w, c, fs[5]));
        lemma_all_exposed_concat(w, c, f1, f2);
        lemma_all_exposed_concat(w, c, f1 + f2, f3);
        lemma_all_exposed_concat(w, c, f1 + f2 + f3, f4);
        lemma_all_exposed_concat(w, c, f1 + f2 + f3 + f4, f5);
        lemma_all_exposed_concat(w, c, f1 + f2 + f3 + f4 + f5, f6);
        assert forall|face: Face|
            w.block_id_at(b) != AIR && w.block_id_at(across_face(b, face)) == AIR implies #[trigger] block_faces(w, b).contains(
                face_at(b, w.block_id_at(b), face),
            ) by {
            let f = face_at(b, id, face);
            match face {
                Face::Left => {
                    assert(f1[0] == f);
                    lemma_contains_concat(f1, f2, f);
                    lemma_contains_concat(f1 + f2, f3, f);
                    lemma_contains_concat(f1 + f2 + f3, f4, f);
                    lemma_contains_concat(f1 + f2 + f3 + f4, f5, f);
                    lemma_contains_concat(f1 + f2 + f3 + f4 + f5, f6, f);
                },
                Face::Right => {
                    assert(f2[0] == f);
                    lemma_contains_concat(f1, f2, f);
                    lemma_contains_concat(f1 + f2, f3, f);
                    lemma_contains_concat(f1 + f2 + f3, f4, f);
                    lemma_contains_concat(f1 + f2 + f3 + f4, f5, f);
                    lemma_contains_concat(f1 + f2 + f3 + f4 + f5, f6, f);
                },
                Face::Bottom => {
                    assert(f3[0] == f);
                    lemma_contains_concat(f1 + f2, f3, f);
                    lemma_contains_concat(f1 + f2 + f3, f4, f);
                    lemma_contains_concat(f1 + f2 + f3 + f4, f5, f);
                    lemma_contains_concat(f1 + f2 + f3 + f4 + f5, f6, f);
                },
                Face::Top => {
                    assert(f4[0] == f);
                    lemma_contains_concat(f1 + f2 + f3, f4, f);
                    lemma_contains_concat(f1 + f2 + f3 + f4, f5, f);
                    lemma_contains_concat(f1 + f2 + f3 + f4 + f5, f6, f);
                },
                Face::Back => {
                    assert(f5[0] == f);
                    lemma_contains_concat(f1 + f2 + f3 + f4, f5, f);
                    lemma_contains_concat(f1 + f2 + f3 + f4 + f5, f6, f);
                },
                Face::Front => {
                    assert(f6[0] == f);
                    lemma_contains_concat(f1 + f2 + f3 + f4 + f5, f6, f);
                },
            }
        }
    } else {
        assert(block_faces(w, b) =~= Seq::<FaceVertex>::empty());
    }
}

proof fn lemma_row_exposed(w: WorldView, c: ChunkCoord, y: int, z: int, n: int)
    requires
        column_fits_i32(c),
        0 <= y < CHUNK_HEIGHT,
        0 <= z < CHUNK_SIZE_Z,
        0 <= n <= CHUNK_SIZE_X,
    ensures
        all_exposed(w, c, row_faces(w, c, y, z, n)),
        forall|x: int, f: FaceVertex|
            0 <= x < n && #[trigger] block_faces(w, column_block(c, x, y, z)).contains(f) ==> row_faces(w, c, y, z, n).contains(f),
    decreases n,
{
    if n == 0 {
        assert(row_faces(w, c, y, z, n) =~= Seq::<FaceVertex>::empty());
    } else {
        lemma_row_exposed(w, c, y, z, n - 1);
        let b = column_block(c, n - 1, y, z);
        assert(in_column(c, b));
        lemma_block_faces_exposed(w, c, b);
        lemma_all_exposed_concat(w, c, row_faces(w, c, y, z, n - 1), block_faces(w, b));
        assert forall|x: int, f: FaceVertex|
            0 <= x < n && #[trigger] block_faces(w, column_block(c, x, y, z)).contains(f) implies row_faces(w, c, y, z, n).contains(f) by {
            lemma_contains_concat(row_faces(w, c, y, z, n - 1), block_faces(w, b), f);
        }
    }
}

proof fn lemma_layer_exposed(w: WorldView, c: ChunkCoord, y: int, n: int)
    requires
        column_fits_i32(c),
        0 <= y < CHUNK_HEIGHT,
        0 <= n <= CHUNK_SIZE_Z,
    ensures
        all_exposed(w, c, layer_faces(w, c, y, n)),
        forall|z: int, f: FaceVertex|
            0 <= z < n && #[trigger] row_faces(w, c, y, z, CHUNK_SIZE_X as int).contains(f) ==> layer_faces(w, c, y, n).contains(f),
    decreases n,
{
    if n == 0 {
        assert(layer_faces(w, c, y, n) =~= Seq::<FaceVertex>::empty());
    } else {
        lemma_layer_exposed(w, c, y, n - 1);
        lemma_row_exposed(w, c, y, n - 1, CHUNK_SIZE_X as int);
        let r = row_faces(w, c, y, n - 1, CHUNK_SIZE_X as int);
        lemma_all_exposed_concat(w, c, layer_faces(w, c, y, n - 1), r);
        assert forall|z: int, f: FaceVertex|
            0 <= z < n && #[trigger] row_faces(w, c, y, z, CHUNK_SIZE_X as int).contains(f) implies layer_faces(w, c, y, n).contains(f) by {
            lemma_contains_concat(layer_faces(w, c, y, n - 1), r, f);
        }
    }
}

proof fn lemma_column_exposed(w: WorldView, c: ChunkCoord, n: int)
    requires
        column_fits_i32(c),
        0 <= n <= CHUNK_HEIGHT,
    ensures
        all_exposed(w, c, column_faces(w, c, n)),
        forall|y: int, f: FaceVertex|
            0 <= y < n && #[trigger] layer_faces(w, c, y, CHUNK_SIZE_Z as int).contains(f) ==> column_faces(w, c, n).contains(f),
    decreases n,
{
    if n == 0 {
        assert(column_faces(w, c, n) =~= Seq::<FaceVertex>::empty());
    } else {
        lemma_column_exposed(w, c, n - 1);
        lemma_layer_exposed(w, c, n - 1, CHUNK_SIZE_Z as int);
        let l = layer_faces(w, c, n - 1, CHUNK_SIZE_Z as int);
        lemma_all_exposed_concat(w, c, column_faces(w, c, n - 1), l);
        assert forall|y: int, f: FaceVertex|
            0 <= y < n && #[trigger] layer_faces(w, c, y, CHUNK_SIZE_Z as int).contains(f) implies column_faces(w, c, n).contains(f) by {
            lemma_contains_concat(column_faces(w, c, n - 1), l, f);
        }
    }
}

/// A chunk column's mesh draws exactly the exposed faces of its blocks: every face it lists
/// sits on a non-air block of the column, carries that block's type, and has air on its
/// outer side (one step toward -x for `Left`, +x for `Right`, -y for `Bottom`, +y for
/// `Top`, -z for `Back`, +z for `Front`); and every such face of every block of the column
/// is listed.
pub proof fn mesh_draws_exactly_the_exposed_faces(w: WorldView, c: ChunkCoord)
    requires
        column_fits_i32(c),
    ensures
        all_exposed(w, c, chunk_faces(w, c)),
        forall|b: BlockCoord, face: Face|
            in_column(c, b) && w.block_id_at(b) != AIR && w.block_id_at(across_face(b, face)) == AIR
                ==> #[trigger] chunk_faces(w, c).contains(face_at(b, w.block_id_at(b), face)),
{
    lemma_column_exposed(w, c, CHUNK_HEIGHT as int);
    assert forall|b: BlockCoord, face: Face|
        in_column(c, b) && w.block_id_at(b) != AIR && w.block_id_at(across_face(b, face)) == AIR
            implies #[trigger] chunk_faces(w, c).contains(face_at(b, w.block_id_at(b), face)) by {
        let x = b.x - c.x * CHUNK_SIZE_X;
        let z = b.z - c.z * CHUNK_SIZE_Z;
        let y = b.y as int;
        let f = face_at(b, w.block_id_at(b), face);
        assert(column_block(c, x, y, z) == b);
        lemma_block_faces_exposed(w, c, b);
        assert(block_faces(w, column_block(c, x, y, z)).contains(f));
        lemma_row_exposed(w, c, y, z, CHUNK_SIZE_X as int);
        assert(row_faces(w, c, y, z, CHUNK_SIZE_X as int).contains(f));
        lemma_layer_exposed(w, c, y, CHUNK_SIZE_Z as int);
        assert(layer_faces(w, c, y, CHUNK_SIZE_Z as int).contains(f));
    }
}

} // verus!
