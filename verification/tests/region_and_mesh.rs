use voxel_engine::chunk::Chunk;
use voxel_engine::config::{StreamingConfig, WorldConfig};
use voxel_engine::coords::{BlockCoord, ChunkCoord};
use voxel_engine::mesh::{sample_chunk_surface, select_mesh_jobs, ChunkMesh, Face, MeshCandidate};
use voxel_engine::physics::intersects_solid;
use voxel_engine::region::{RegionChunkData, RegionError, RegionStore, ALWAYS_LOADABLE_PAYLOAD_BYTES, MAX_CHUNK_FILE_BYTES};
use voxel_engine::voxel::{AIR, STONE};
use voxel_engine::world::World;

#[test]
fn chunk_paths_group_chunks_by_region() {
    let store = RegionStore::new("saves/default".to_string());
    assert_eq!(store.root(), "saves/default");
    assert_eq!(store.chunk_path(ChunkCoord::new(3, -9)), "saves/default/r.0.-2/c.3.-9.bin");
    assert_eq!(store.region_dir(ChunkCoord::new(17, 0)), "saves/default/r.2.0");
    let with_slash = RegionStore::new("root/".to_string());
    assert_eq!(with_slash.chunk_path(ChunkCoord::new(-2147483648, 2147483647)), "root/r.-268435456.268435455/c.-2147483648.2147483647.bin");
    let empty = RegionStore::new(String::new());
    assert_eq!(empty.chunk_path(ChunkCoord::new(0, 0)), "r.0.0/c.0.0.bin");
}

#[test]
fn saved_chunk_loads_back() {
    let store = RegionStore::new("saves/default".to_string());
    let chunk = Chunk::new(ChunkCoord::new(1, 2));
    let data = RegionChunkData::for_chunk(&chunk);
    assert_eq!(data.coord, chunk.coord);
    let payload: Vec<u8> = (0..200u32).map(|i| (i % 7) as u8).collect();
    let file = store.save_chunk(&chunk, &payload);
    assert_eq!(file.path, "saves/default/r.0.0/c.1.2.bin");
    assert_eq!(file.dir, "saves/default/r.0.0");
    assert_ne!(file.bytes, payload);
    assert_eq!(store.load_chunk(Some(file.bytes)), Ok(Some(payload)));
}

#[test]
fn missing_or_corrupt_chunk_files() {
    let store = RegionStore::new("s".to_string());
    assert_eq!(store.load_chunk(None), Ok(None));
    assert_eq!(store.load_chunk(Some(vec![1, 2])), Err(RegionError::InvalidData));
}

fn flat_world() -> World {
    World::new(WorldConfig::default(), StreamingConfig::default(), 1, "saves/mesh".to_string())
}

#[test]
fn flat_terrain_meshes_only_the_top_faces() {
    let world = flat_world();
    let mesh = ChunkMesh::build(&world, ChunkCoord::new(0, 0));
    assert_eq!(mesh.chunk, ChunkCoord::new(0, 0));
    // Every column shows its grass top; the bottom layer shows its underside to the air below.
    assert_eq!(mesh.visible_faces as usize, mesh.vertices.len());
    assert_eq!(mesh.vertices.len(), 2 * 32 * 32);
    assert!(mesh.vertices.iter().filter(|f| f.face == Face::Top).all(|f| f.position[1] == 64));
    assert!(mesh.vertices.iter().filter(|f| f.face == Face::Bottom).all(|f| f.position[1] == 0));
}

#[test]
fn placed_block_adds_its_faces() {
    let mut world = flat_world();
    world.set_block(BlockCoord::new(4, 65, 4), STONE);
    let mesh = ChunkMesh::build(&world, ChunkCoord::new(0, 0));
    // The stone adds five faces and hides the grass top under it.
    assert_eq!(mesh.vertices.len(), 2 * 32 * 32 + 4);
}

#[test]
fn surface_is_the_highest_block() {
    let mut world = flat_world();
    assert_eq!(sample_chunk_surface(&world, ChunkCoord::new(1, 0)), Some(BlockCoord::new(32, 64, 0)));
    world.set_block(BlockCoord::new(40, 100, 3), STONE);
    assert_eq!(sample_chunk_surface(&world, ChunkCoord::new(1, 0)), Some(BlockCoord::new(40, 100, 3)));
}

#[test]
fn solid_cells_are_detected_in_a_box() {
    let mut world = flat_world();
    assert!(intersects_solid(&world, BlockCoord::new(0, 64, 0), BlockCoord::new(1, 66, 1)));
    assert!(!intersects_solid(&world, BlockCoord::new(0, 65, 0), BlockCoord::new(1, 66, 1)));
    world.set_block(BlockCoord::new(1, 66, 1), STONE);
    assert!(intersects_solid(&world, BlockCoord::new(0, 65, 0), BlockCoord::new(1, 66, 1)));
    world.set_block(BlockCoord::new(1, 66, 1), AIR);
    assert!(!intersects_solid(&world, BlockCoord::new(0, 65, 0), BlockCoord::new(1, 66, 1)));
    assert!(!intersects_solid(&world, BlockCoord::new(2, 70, 0), BlockCoord::new(1, 60, 1)));
}

#[test]
fn mesh_jobs_follow_view_and_budget() {
    let c = |x: i32, in_view: bool, meshing: bool, uploaded: bool| MeshCandidate {
        coord: ChunkCoord::new(x, 0),
        in_view,
        meshing,
        uploaded,
    };
    let candidates = vec![
        c(0, false, true, false),
        c(1, true, false, true),
        c(2, true, true, true),
        c(3, true, false, false),
        c(4, true, true, false),
    ];
    assert_eq!(select_mesh_jobs(&candidates, 2), vec![ChunkCoord::new(2, 0), ChunkCoord::new(3, 0)]);
    assert_eq!(select_mesh_jobs(&candidates, 10).len(), 3);
    assert!(select_mesh_jobs(&candidates, 0).is_empty());
}

#[test]
fn distinct_chunks_get_distinct_files() {
    let store = RegionStore::new("saves".to_string());
    let a = store.chunk_path(ChunkCoord::new(1, 23));
    let b = store.chunk_path(ChunkCoord::new(12, 3));
    let c = store.chunk_path(ChunkCoord::new(-1, 23));
    assert_eq!(a, "saves/r.0.2/c.1.23.bin");
    assert_eq!(b, "saves/r.1.0/c.12.3.bin");
    assert_ne!(a, b);
    assert_ne!(a, c);
}

#[test]
fn chunks_of_one_region_share_its_directory() {
    let store = RegionStore::new("saves".to_string());
    assert_eq!(store.region_dir(ChunkCoord::new(0, 0)), store.region_dir(ChunkCoord::new(7, 7)));
    assert_ne!(store.region_dir(ChunkCoord::new(0, 0)), store.region_dir(ChunkCoord::new(-1, 0)));
    assert_ne!(store.region_dir(ChunkCoord::new(0, 7)), store.region_dir(ChunkCoord::new(0, 8)));
    assert_eq!(store.region_dir(ChunkCoord::new(-8, -1)), "saves/r.-1.-1");
}

#[test]
fn overlong_chunk_files_are_refused() {
    let store = RegionStore::new("s".to_string());
    let too_long = vec![0xFFu8; MAX_CHUNK_FILE_BYTES + 1];
    assert_eq!(store.load_chunk(Some(too_long)), Err(RegionError::InvalidData));
    let mut fits = (1u32).to_le_bytes().to_vec();
    fits.extend_from_slice(&[0x10, 0x41]);
    assert_eq!(store.load_chunk(Some(fits)), Ok(Some(vec![0x41])));
}

#[test]
fn large_payload_reads_back() {
    let store = RegionStore::new("s".to_string());
    let chunk = Chunk::new(ChunkCoord::new(-3, 4));
    let payload: Vec<u8> = (0..100_000u32).map(|i| (i * 7 % 251) as u8).collect();
    let file = store.save_chunk(&chunk, &payload);
    assert_eq!(&file.bytes[..4], &(100_000u32).to_le_bytes());
    assert_eq!(store.load_chunk(Some(file.bytes)), Ok(Some(payload)));
}

#[test]
fn surface_of_the_last_column_in_range() {
    let world = flat_world();
    let edge = ChunkCoord::new(67_108_863, -67_108_864);
    assert_eq!(sample_chunk_surface(&world, edge), Some(BlockCoord::new(2_147_483_616, 64, -2_147_483_648)));
}

#[test]
fn declared_size_only_bounds_the_buffer() {
    let store = RegionStore::new("s".to_string());
    let mut big_claim = (20_000_000u32).to_le_bytes().to_vec();
    big_claim.extend_from_slice(&[0x10, 0x41]);
    assert_eq!(store.load_chunk(Some(big_claim)), Ok(Some(vec![0x41])));
}

#[test]
fn payload_at_the_always_loadable_limit_reads_back() {
    let store = RegionStore::new("s".to_string());
    let chunk = Chunk::new(ChunkCoord::new(0, 0));
    let payload: Vec<u8> = (0..ALWAYS_LOADABLE_PAYLOAD_BYTES as u32).map(|i| (i.wrapping_mul(2654435761) >> 24) as u8).collect();
    let file = store.save_chunk(&chunk, &payload);
    assert!(file.bytes.len() <= MAX_CHUNK_FILE_BYTES);
    assert_eq!(store.load_chunk(Some(file.bytes)), Ok(Some(payload)));
}
