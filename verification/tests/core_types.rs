use voxel_engine::budget::FrameBudget;
use voxel_engine::config::{StreamingConfig, WorldConfig};
use voxel_engine::coords::{BlockCoord, ChunkCoord, RegionCoord};
use voxel_engine::item::{Item, ItemKind};
use voxel_engine::metrics::WorldCounters;
use voxel_engine::voxel::{Voxel, AIR, STONE};

#[test]
fn budget_takes_until_exhausted() {
    let mut budget = FrameBudget::new(3);
    assert_eq!(budget.remaining(), 3);
    assert!(budget.try_take(2));
    assert_eq!(budget.remaining(), 1);
    assert!(!budget.try_take(2));
    assert_eq!(budget.remaining(), 1);
    assert!(budget.try_take(1));
    assert!(!budget.try_take(1));
    budget.refill(5);
    assert_eq!(budget.remaining(), 5);
}

#[test]
fn chunk_of_negative_block_rounds_down() {
    assert_eq!(ChunkCoord::from_block(BlockCoord::new(-1, 5, -33)), ChunkCoord::new(-1, -2));
    assert_eq!(ChunkCoord::from_block(BlockCoord::new(31, 0, 32)), ChunkCoord::new(0, 1));
}

#[test]
fn region_of_chunk_rounds_down() {
    assert_eq!(ChunkCoord::new(-1, 8).to_region(), RegionCoord::new(-1, 1));
    assert_eq!(ChunkCoord::new(7, -8).to_region(), RegionCoord::new(0, -1));
}

#[test]
fn world_origin_scales_by_chunk_width() {
    assert_eq!(ChunkCoord::new(-2, 3).world_origin(), BlockCoord::new(-64, 0, 96));
}

#[test]
fn distance_squared_is_planar_and_symmetric() {
    let a = ChunkCoord::new(1, 2);
    let b = ChunkCoord::new(4, -2);
    assert_eq!(a.distance_squared(b), 25);
    assert_eq!(b.distance_squared(a), 25);
    assert_eq!(a.distance_squared(a), 0);
}

#[test]
fn block_as_ivec3_keeps_components() {
    let v = BlockCoord::new(1, -2, 3).as_ivec3();
    assert_eq!((v.x, v.y, v.z), (1, -2, 3));
}

#[test]
fn item_damage_per_kind() {
    assert_eq!(ItemKind::Sword.damage(), 4);
    assert_eq!(ItemKind::Pickaxe.damage(), 3);
    assert_eq!(ItemKind::Axe.damage(), 5);
    assert_eq!(ItemKind::Hoe.damage(), 1);
    assert_eq!(ItemKind::Shovel.damage(), 2);
}

#[test]
fn mining_speed_doubles_on_grass_and_dirt() {
    assert_eq!(ItemKind::Pickaxe.mining_speed(1), 20);
    assert_eq!(ItemKind::Pickaxe.mining_speed(2), 20);
    assert_eq!(ItemKind::Pickaxe.mining_speed(3), 10);
    assert_eq!(ItemKind::Shovel.mining_speed(0), 6);
    assert_eq!(ItemKind::Sword.mining_speed(255), 1);
}

#[test]
fn items_start_at_full_durability() {
    let item = Item::new(ItemKind::Axe);
    assert_eq!(item.durability, 100);
    assert_eq!(Item::with_durability(ItemKind::Hoe, 7).durability, 7);
}

#[test]
fn defaults_match_engine_settings() {
    let world = WorldConfig::default();
    assert_eq!((world.vertical_height, world.sea_level, world.region_size), (256, 64, 8));
    let streaming = StreamingConfig::default();
    assert_eq!(streaming.load_radius, 5);
    assert_eq!(streaming.keep_radius, 7);
    assert_eq!(streaming.max_active_chunks, 128);
    assert_eq!(streaming.max_generation_jobs_per_frame, 4);
    assert_eq!(streaming.max_mesh_jobs_per_frame, 4);
    let counters = WorldCounters::default();
    assert_eq!(counters.requested + counters.generating + counters.meshing + counters.resident + counters.evicting, 0);
}

#[test]
fn only_air_is_not_solid() {
    assert!(!Voxel::new(AIR).is_solid());
    assert!(Voxel::new(STONE).is_solid());
}

#[test]
fn takes_never_exceed_the_budget_limit() {
    let mut budget = FrameBudget::new(10);
    let mut granted = 0;
    let mut last = budget.remaining();
    for amount in [3usize, 8, 4, 0, 5, 3, 1] {
        if budget.try_take(amount) {
            granted += amount;
        }
        assert!(budget.remaining() <= last);
        last = budget.remaining();
        assert_eq!(granted + budget.remaining(), 10);
    }
    assert_eq!(granted, 10);
    assert_eq!(budget.remaining(), 0);
}
