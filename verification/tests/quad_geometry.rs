use voxel_engine::coords::ChunkCoord;
use voxel_engine::mesh::{ChunkMesh, Face, FaceVertex};

fn mesh_of(faces: Vec<FaceVertex>) -> ChunkMesh {
    let visible_faces = faces.len() as u32;
    ChunkMesh { chunk: ChunkCoord::new(0, 0), vertices: faces, visible_faces }
}

#[test]
fn empty_mesh_has_no_quads() {
    assert!(mesh_of(Vec::new()).quad_geometry().is_none());
}

#[test]
fn top_face_quad_lies_one_block_up() {
    let face = FaceVertex { position: [1, 2, 3], block_id: 1, face: Face::Top };
    let geometry = mesh_of(vec![face]).quad_geometry().expect("one face gives one quad");
    let offsets: Vec<[u8; 3]> = geometry.corners.iter().map(|c| c.offset).collect();
    assert_eq!(offsets, vec![[0, 1, 0], [0, 1, 1], [1, 1, 1], [1, 1, 0]]);
    assert!(geometry.corners.iter().all(|c| c.block == [1, 2, 3] && c.block_id == 1 && c.face == Face::Top));
    assert_eq!(geometry.indices, vec![0, 1, 2, 0, 2, 3]);
}

#[test]
fn each_face_gets_its_own_four_corners() {
    let faces = vec![
        FaceVertex { position: [0, 0, 0], block_id: 3, face: Face::Left },
        FaceVertex { position: [-5, 7, 9], block_id: 2, face: Face::Front },
    ];
    let geometry = mesh_of(faces).quad_geometry().expect("faces give quads");
    assert_eq!(geometry.corners.len(), 8);
    assert_eq!(geometry.indices, vec![0, 1, 2, 0, 2, 3, 4, 5, 6, 4, 6, 7]);
    assert_eq!(geometry.corners[0].offset, [0, 0, 0]);
    assert_eq!(geometry.corners[2].offset, [0, 1, 1]);
    assert_eq!(geometry.corners[4].block, [-5, 7, 9]);
    assert_eq!(geometry.corners[4].offset, [0, 0, 1]);
    assert_eq!(geometry.corners[5].offset, [1, 0, 1]);
    assert_eq!(geometry.corners[7].offset, [0, 1, 1]);
    assert_eq!(geometry.corners[7].face, Face::Front);
}

#[test]
fn every_face_side_has_its_corner_order() {
    let sides = [
        (Face::Left, [[0, 0, 0], [0, 0, 1], [0, 1, 1], [0, 1, 0]]),
        (Face::Right, [[1, 0, 1], [1, 0, 0], [1, 1, 0], [1, 1, 1]]),
        (Face::Bottom, [[0, 0, 1], [0, 0, 0], [1, 0, 0], [1, 0, 1]]),
        (Face::Top, [[0, 1, 0], [0, 1, 1], [1, 1, 1], [1, 1, 0]]),
        (Face::Back, [[1, 0, 0], [0, 0, 0], [0, 1, 0], [1, 1, 0]]),
        (Face::Front, [[0, 0, 1], [1, 0, 1], [1, 1, 1], [0, 1, 1]]),
    ];
    for (face, expected) in sides {
        let geometry = mesh_of(vec![FaceVertex { position: [4, 4, 4], block_id: 3, face }])
            .quad_geometry()
            .expect("one face gives one quad");
        let offsets: Vec<[u8; 3]> = geometry.corners.iter().map(|c| c.offset).collect();
        assert_eq!(offsets, expected.to_vec());
    }
}
