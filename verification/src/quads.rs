use crate::mesh::{ChunkMesh, Face, FaceVertex};
use crate::voxel::BlockId;
use vstd::prelude::*;

verus! {

/// One corner of the quad that draws a visible face: the block's position, the corner's
/// unit offset from it on each axis (0 or 1), and the face's block type and side.
#[derive(Debug, Clone, Copy, PartialEq, Eq)]
pub struct QuadCorner {
    pub block: [i32; 3],
    pub offset: [u8; 3],
    pub block_id: BlockId,
    pub face: Face,
}

/// The corners and triangle indices that draw the faces of a mesh: four corners per face
/// and two triangles, six indices, per face.
#[derive(Debug, Clone)]
pub struct QuadGeometry {
    pub corners: Vec<QuadCorner>,
    pub indices: Vec<u32>,
}

/// Unit offset of corner `k` (0 to 3) of face `face`, going round the face so that its
/// two triangles face outwards.
pub open spec fn corner_offset(face: Face, k: int) -> [u8; 3] {
    match face {
        Face::Left => if k == 0 { [0u8, 0u8, 0u8] } else if k == 1 { [0u8, 0u8, 1u8] } else if k == 2 { [0u8, 1u8, 1u8] } else { [0u8, 1u8, 0u8] },
        Face::Right => if k == 0 { [1u8, 0u8, 1u8] } else if k == 1 { [1u8, 0u8, 0u8] } else if k == 2 { [1u8, 1u8, 0u8] } else { [1u8, 1u8, 1u8] },
        Face::Bottom => if k == 0 { [0u8, 0u8, 1u8] } else if k == 1 { [0u8, 0u8, 0u8] } else if k == 2 { [1u8, 0u8, 0u8] } else { [1u8, 0u8, 1u8] },
        Face::Top => if k == 0 { [0u8, 1u8, 0u8] } else if k == 1 { [0u8, 1u8, 1u8] } else if k == 2 { [1u8, 1u8, 1u8] } else { [1u8, 1u8, 0u8] },
        Face::Back => if k == 0 { [1u8, 0u8, 0u8] } else if k == 1 { [0u8, 0u8, 0u8] } else if k == 2 { [0u8, 1u8, 0u8] } else { [1u8, 1u8, 0u8] },
        Face::Front => if k == 0 { [0u8, 0u8, 1u8] } else if k == 1 { [1u8, 0u8, 1u8] } else if k == 2 { [1u8, 1u8, 1u8] } else { [0u8, 1u8, 1u8] },
    }
}

/// Corner `k` of the quad of face `f`.
pub open spec fn quad_corner(f: FaceVertex, k: int) -> QuadCorner {
    QuadCorner { block: f.position, offset: corner_offset(f.face, k), block_id: f.block_id, face: f.face }
}

/// Position of index `j` (0 to 5) within a quad: triangles (0, 1, 2) and (0, 2, 3).
pub open spec fn quad_index_offset(j: int) -> int {
    if j == 0 || j == 3 {
        0
    } else if j == 1 {
        1
    } else if j == 2 || j == 4 {
        2
    } else {
        3
    }
}

/// Most faces whose quads `u32` indices can address.
pub open spec fn max_quad_faces() -> int {
    0x4000_0000
}

/// The four corners of the quad of `f`, in drawing order.
fn push_quad_corners(corners: &mut Vec<QuadCorner>, f: FaceVertex)
    ensures
        final(corners)@ == old(corners)@ + seq![quad_corner(f, 0), quad_corner(f, 1), quad_corner(f, 2), quad_corner(f, 3)],
{
    let offsets: [[u8; 3]; 4] = match f.face {
        Face::Left => [[0, 0, 0], [0, 0, 1], [0, 1, 1], [0, 1, 0]],
        Face::Right => [[1, 0, 1], [1, 0, 0], [1, 1, 0], [1, 1, 1]],
        Face::Bottom => [[0, 0, 1], [0, 0, 0], [1, 0, 0], [1, 0, 1]],
        Face::Top => [[0, 1, 0], [0, 1, 1], [1, 1, 1], [1, 1, 0]],
        Face::Back => [[1, 0, 0], [0, 0, 0], [0, 1, 0], [1, 1, 0]],
        Face::Front => [[0, 0, 1], [1, 0, 1], [1, 1, 1], [0, 1, 1]],
    };
    let ghost start = corners@;
    corners.push(QuadCorner { block: f.position, offset: offsets[0], block_id: f.block_id, face: f.face });
    corners.push(QuadCorner { block: f.position, offset: offsets[1], block_id: f.block_id, face: f.face });
    corners.push(QuadCorner { block: f.position, offset: offsets[2], block_id: f.block_id, face: f.face });
    corners.push(QuadCorner { block: f.position, offset: offsets[3], block_id: f.block_id, face: f.face });
    assert(corners@ =~= start + seq![quad_corner(f, 0), quad_corner(f, 1), quad_corner(f, 2), quad_corner(f, 3)]);
}

impl ChunkMesh {
    /// The quads that draw this mesh, or `None` when it has no visible face: corner
    /// `4 * i + k` is corner `k` of face `i`, and indices `6 * i` to `6 * i + 5` draw the two
    /// triangles of face `i`.
    pub fn quad_geometry(&self) -> (g: Option<QuadGeometry>)
        requires
            self.vertices@.len() <= max_quad_faces(),
        ensures
            g is None <==> self.vertices@.len() == 0,
            g matches Some(q) ==> {
                &&& q.corners@.len() == 4 * self.vertices@.len()
                &&& q.indices@.len() == 6 * self.vertices@.len()
                &&& forall|i: int, k: int|
                    0 <= i < self.vertices@.len() && 0 <= k < 4 ==> #[trigger] q.corners@[4 * i + k] == quad_corner(
                        self.vertices@[i],
                        k,
                    )
                &&& forall|i: int, j: int|
                    0 <= i < self.vertices@.len() && 0 <= j < 6 ==> #[trigger] q.indices@[6 * i + j] == 4 * i
                        + quad_index_offset(j)
            },
    {
        if self.vertices.len() == 0 {
            return None;
        }
        let n = self.vertices.len();
        let mut corners: Vec<QuadCorner> = Vec::new();
        let mut indices: Vec<u32> = Vec::new();
        let mut i: usize = 0;
        while i < n
            invariant
                n == self.vertices@.len(),
                n <= max_quad_faces(),
                i <= n,
                corners@.len() == 4 * i,
                indices@.len() == 6 * i,
                forall|a: int, k: int|
                    0 <= a < i && 0 <= k < 4 ==> #[trigger] corners@[4 * a + k] == quad_corner(self.vertices@[a], k),
                forall|a: int, j: int|
                    0 <= a < i && 0 <= j < 6 ==> #[trigger] indices@[6 * a + j] == 4 * a + quad_index_offset(j),
            decreases n - i,
        {
            let ghost before_corners = corners@;
            let ghost before_indices = indices@;
            push_quad_corners(&mut corners, self.vertices[i]);
            let base: u32 = (4 * i) as u32;
            indices.push(base);
            indices.push(base + 1);
            indices.push(base + 2);
            indices.push(base);
            indices.push(base + 2);
            indices.push(base + 3);
            proof {
                assert forall|a: int, k: int| 0 <= a < i + 1 && 0 <= k < 4 implies #[trigger] corners@[4 * a + k]
                    == quad_corner(self.vertices@[a], k) by {
                    if a < i {
                        assert(corners@[4 * a + k] == before_corners[4 * a + k]);
                    }
                }
                assert forall|a: int, j: int| 0 <= a < i + 1 && 0 <= j < 6 implies #[trigger] indices@[6 * a + j]
                    == 4 * a + quad_index_offset(j) by {
                    if a < i {
                        assert(indices@[6 * a + j] == before_indices[6 * a + j]);
                    }
                }
            }
            i = i + 1;
        }
        Some(QuadGeometry { corners, indices })
    }
}

} // verus!
