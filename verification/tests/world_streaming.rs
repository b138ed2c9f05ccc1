use voxel_engine::config::{StreamingConfig, WorldConfig};
use voxel_engine::coords::{BlockCoord, ChunkCoord};
use voxel_engine::generator::TerrainGenerator;
use voxel_engine::manager::ChunkManager;
use voxel_engine::state::ChunkState;
use voxel_engine::voxel::{AIR, DIRT, GRASS, STONE};
use voxel_engine::world::World;

fn new_world(streaming: StreamingConfig) -> World {
    World::new(WorldConfig::default(), streaming, 1, "saves/test".to_string())
}

#[test]
fn terrain_is_layered_around_sea_level() {
    let generator = TerrainGenerator::new(9, 64);
    assert_eq!(generator.block_at(BlockCoord::new(0, 64, 0)), GRASS);
    assert_eq!(generator.block_at(BlockCoord::new(0, 63, 0)), DIRT);
    assert_eq!(generator.block_at(BlockCoord::new(0, 61, 0)), DIRT);
    assert_eq!(generator.block_at(BlockCoord::new(0, 60, 0)), STONE);
    assert_eq!(generator.block_at(BlockCoord::new(0, 65, 0)), AIR);
    let chunk = generator.generate_chunk(ChunkCoord::new(2, 3));
    assert_eq!(chunk.coord, ChunkCoord::new(2, 3));
    assert!(!chunk.dirty);
}

#[test]
fn sample_block_is_air_outside_vertical_range() {
    let world = new_world(StreamingConfig::default());
    assert_eq!(world.sample_block(BlockCoord::new(0, -1, 0)).id, AIR);
    assert_eq!(world.sample_block(BlockCoord::new(0, 256, 0)).id, AIR);
    assert_eq!(world.sample_block(BlockCoord::new(0, 10, 0)).id, STONE);
}

#[test]
fn set_block_then_sample_reads_it_back() {
    let mut world = new_world(StreamingConfig::default());
    let coord = BlockCoord::new(5, 70, -3);
    world.set_block(coord, STONE);
    assert_eq!(world.sample_block(coord).id, STONE);
    assert_eq!(world.sample_block(BlockCoord::new(5, 71, -3)).id, AIR);
    assert_eq!(world.manager.state(ChunkCoord::new(0, -1)), Some(ChunkState::Meshing));
    assert_eq!(world.manager.pop_pending_mesh(), Some(ChunkCoord::new(0, -1)));
}

#[test]
fn set_block_out_of_range_or_unchanged_does_nothing() {
    let mut world = new_world(StreamingConfig::default());
    world.set_block(BlockCoord::new(0, 300, 0), STONE);
    world.set_block(BlockCoord::new(0, 64, 0), GRASS);
    assert!(world.modified_blocks.is_empty());
    assert_eq!(world.manager.pop_pending_mesh(), None);
}

#[test]
fn set_block_on_border_remeshes_loaded_neighbour() {
    let mut world = new_world(StreamingConfig::default());
    world.manager.request(ChunkCoord::new(-1, 0));
    world.pump_generation();
    while world.manager.pop_pending_mesh().is_some() {}
    world.set_block(BlockCoord::new(0, 80, 5), DIRT);
    assert_eq!(world.manager.pop_pending_mesh(), Some(ChunkCoord::new(0, 0)));
    assert_eq!(world.manager.pop_pending_mesh(), Some(ChunkCoord::new(-1, 0)));
    assert_eq!(world.manager.pop_pending_mesh(), None);
}

#[test]
fn pump_generation_respects_the_frame_limit() {
    let mut streaming = StreamingConfig::default();
    streaming.max_generation_jobs_per_frame = 2;
    let mut world = new_world(streaming);
    for x in 0..5 {
        world.manager.request(ChunkCoord::new(x, 0));
    }
    let counters = world.pump_generation();
    assert_eq!(counters.meshing, 2);
    assert_eq!(counters.requested, 3);
    assert!(world.loaded_chunk(ChunkCoord::new(0, 0)).is_some());
    assert!(world.loaded_chunk(ChunkCoord::new(1, 0)).is_some());
    assert!(world.loaded_chunk(ChunkCoord::new(2, 0)).is_none());
    assert_eq!(world.loaded_chunks_iter().len(), 2);
}

#[test]
fn request_visible_chunks_tracks_the_nearest() {
    let mut streaming = StreamingConfig::default();
    streaming.load_radius = 2;
    streaming.max_active_chunks = 5;
    let mut world = new_world(streaming);
    world.request_visible_chunks(ChunkCoord::new(3, 3));
    let counters = world.manager.counters();
    assert_eq!(counters.requested, 5);
    assert_eq!(world.manager.pop_requested(), Some(ChunkCoord::new(3, 3)));
    assert_eq!(world.manager.pop_requested(), Some(ChunkCoord::new(2, 3)));
}

#[test]
fn evict_far_chunks_keeps_the_nearest_within_the_limit() {
    let mut streaming = StreamingConfig::default();
    streaming.keep_radius = 2;
    streaming.max_active_chunks = 2;
    streaming.max_generation_jobs_per_frame = 10;
    let mut world = new_world(streaming);
    for c in [ChunkCoord::new(0, 0), ChunkCoord::new(1, 0), ChunkCoord::new(0, 1), ChunkCoord::new(5, 5)] {
        world.manager.request(c);
    }
    world.pump_generation();
    world.evict_far_chunks(ChunkCoord::new(0, 0));
    assert!(world.loaded_chunk(ChunkCoord::new(0, 0)).is_some());
    // (0, 1) and (1, 0) are equally near; the smaller x ranks first.
    assert!(world.loaded_chunk(ChunkCoord::new(0, 1)).is_some());
    assert!(world.loaded_chunk(ChunkCoord::new(1, 0)).is_none());
    assert!(world.loaded_chunk(ChunkCoord::new(5, 5)).is_none());
    assert!(world.manager.has_state(ChunkCoord::new(5, 5), ChunkState::Evicting));
    assert!(world.manager.has_state(ChunkCoord::new(1, 0), ChunkState::Evicting));
    assert!(world.manager.has_state(ChunkCoord::new(0, 0), ChunkState::Meshing));
}

#[test]
fn loaded_chunk_mut_changes_the_stored_chunk() {
    let mut world = new_world(StreamingConfig::default());
    world.manager.request(ChunkCoord::new(0, 0));
    world.pump_generation();
    world.loaded_chunk_mut(ChunkCoord::new(0, 0)).expect("chunk should be generated").dirty = true;
    assert!(world.loaded_chunk(ChunkCoord::new(0, 0)).unwrap().dirty);
    assert!(world.loaded_chunk_mut(ChunkCoord::new(9, 9)).is_none());
    world.mark_chunk_resident(ChunkCoord::new(0, 0));
    assert_eq!(world.manager.state(ChunkCoord::new(0, 0)), Some(ChunkState::Resident));
    assert_eq!(world.save_dirty_chunks().unwrap(), 0);
}

#[test]
fn request_is_ignored_for_tracked_chunks() {
    let mut manager = ChunkManager::new();
    let c = ChunkCoord::new(1, 1);
    manager.request(c);
    manager.mark_resident(c);
    manager.request(c);
    assert_eq!(manager.state(c), Some(ChunkState::Resident));
    assert_eq!(manager.pop_requested(), Some(c));
    assert_eq!(manager.pop_requested(), None);
}

#[test]
fn counters_count_each_tracked_chunk_once() {
    let mut manager = ChunkManager::new();
    manager.request(ChunkCoord::new(0, 0));
    manager.request(ChunkCoord::new(1, 0));
    manager.mark_generating(ChunkCoord::new(1, 0));
    manager.mark_meshing(ChunkCoord::new(2, 0));
    manager.mark_resident(ChunkCoord::new(3, 0));
    manager.mark_evicting(ChunkCoord::new(4, 0));
    let c = manager.counters();
    assert_eq!((c.requested, c.generating, c.meshing, c.resident, c.evicting), (1, 1, 1, 1, 1));
    assert!(manager.has_state(ChunkCoord::new(2, 0), ChunkState::Meshing));
    assert!(!manager.has_state(ChunkCoord::new(2, 0), ChunkState::Resident));
    assert_eq!(manager.state(ChunkCoord::new(9, 9)), None);
}

#[test]
fn requesting_the_view_twice_queues_each_chunk_once() {
    let mut streaming = StreamingConfig::default();
    streaming.load_radius = 1;
    let mut world = new_world(streaming);
    world.request_visible_chunks(ChunkCoord::new(0, 0));
    world.request_visible_chunks(ChunkCoord::new(0, 0));
    world.request_visible_chunks(ChunkCoord::new(1, 0));
    let mut queued = Vec::new();
    while let Some(c) = world.manager.pop_requested() {
        assert!(!queued.contains(&c));
        queued.push(c);
    }
    // The disc of radius 1 around (0, 0) holds 5 chunks; the one around (1, 0) adds (2, 0), (1, 1) and (1, -1).
    assert_eq!(queued.len(), 8);
    assert_eq!(queued[0], ChunkCoord::new(0, 0));
    assert_eq!(world.manager.counters().requested, 8);
}

#[test]
fn streaming_leaves_edited_blocks_alone() {
    let mut streaming = StreamingConfig::default();
    streaming.keep_radius = 0;
    streaming.max_generation_jobs_per_frame = 10;
    let mut world = new_world(streaming);
    let edited = BlockCoord::new(40, 70, 0);
    world.manager.request(ChunkCoord::new(1, 0));
    world.manager.request(ChunkCoord::new(0, 0));
    world.pump_generation();
    world.set_block(edited, DIRT);
    world.evict_far_chunks(ChunkCoord::new(0, 0));
    assert!(world.loaded_chunk(ChunkCoord::new(1, 0)).is_none());
    assert_eq!(world.sample_block(edited).id, DIRT);
    world.request_visible_chunks(ChunkCoord::new(1, 0));
    world.pump_generation();
    assert_eq!(world.sample_block(edited).id, DIRT);
}

#[test]
fn eviction_keeps_every_chunk_nearer_than_a_kept_one() {
    let mut streaming = StreamingConfig::default();
    streaming.keep_radius = 10;
    streaming.max_active_chunks = 3;
    streaming.max_generation_jobs_per_frame = 10;
    let mut world = new_world(streaming);
    for c in [ChunkCoord::new(3, 0), ChunkCoord::new(0, 2), ChunkCoord::new(-1, 0), ChunkCoord::new(0, -4), ChunkCoord::new(1, 1)] {
        world.manager.request(c);
    }
    world.pump_generation();
    world.evict_far_chunks(ChunkCoord::new(0, 0));
    let kept: Vec<ChunkCoord> = world.loaded_chunks_iter().into_iter().map(|(c, _)| c).collect();
    assert_eq!(kept.len(), 3);
    for c in [ChunkCoord::new(-1, 0), ChunkCoord::new(1, 1), ChunkCoord::new(0, 2)] {
        assert!(kept.contains(&c));
    }
}

#[test]
fn evicting_twice_unloads_nothing_more() {
    let mut streaming = StreamingConfig::default();
    streaming.keep_radius = 3;
    streaming.max_active_chunks = 4;
    streaming.max_generation_jobs_per_frame = 20;
    let mut world = new_world(streaming);
    for x in -3..=3 {
        world.manager.request(ChunkCoord::new(x, 1));
    }
    world.pump_generation();
    world.evict_far_chunks(ChunkCoord::new(0, 0));
    let mut first: Vec<(i32, i32)> = world.loaded_chunks_iter().into_iter().map(|(c, _)| (c.x, c.z)).collect();
    world.evict_far_chunks(ChunkCoord::new(0, 0));
    let mut second: Vec<(i32, i32)> = world.loaded_chunks_iter().into_iter().map(|(c, _)| (c.x, c.z)).collect();
    first.sort();
    second.sort();
    assert_eq!(first, vec![(-2, 1), (-1, 1), (0, 1), (1, 1)]);
    assert_eq!(first, second);
}
