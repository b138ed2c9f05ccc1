use voxel_engine::coords::ChunkCoord;
use voxel_engine::visibility::nearest_visible_coords;

#[test]
fn visible_chunk_requests_are_capped() {
    let coords = nearest_visible_coords(ChunkCoord::new(0, 0), 3, 16);
    assert_eq!(coords.len(), 16);
    assert_eq!(coords[0], ChunkCoord::new(0, 0));
}

#[test]
fn visible_coords_are_sorted_by_distance_then_x_then_z() {
    let coords = nearest_visible_coords(ChunkCoord::new(10, -4), 1, 100);
    let expected = vec![
        ChunkCoord::new(10, -4),
        ChunkCoord::new(9, -4),
        ChunkCoord::new(10, -5),
        ChunkCoord::new(10, -3),
        ChunkCoord::new(11, -4),
    ];
    assert_eq!(coords, expected);
}

#[test]
fn visible_coords_cover_the_whole_disc_when_uncapped() {
    let coords = nearest_visible_coords(ChunkCoord::new(0, 0), 3, 1000);
    // Offsets with dx^2 + dz^2 <= 9 inside the 7x7 square: 29 of them.
    assert_eq!(coords.len(), 29);
    for c in &coords {
        assert!(c.x * c.x + c.z * c.z <= 9);
    }
}

#[test]
fn negative_radius_sees_nothing() {
    assert!(nearest_visible_coords(ChunkCoord::new(0, 0), -2, 10).is_empty());
}

#[test]
fn zero_cap_sees_nothing() {
    assert!(nearest_visible_coords(ChunkCoord::new(0, 0), 4, 0).is_empty());
}

#[test]
fn the_center_is_listed_first() {
    for (center, radius, cap) in [(ChunkCoord::new(-7, 12), 0, 1), (ChunkCoord::new(5, 5), 4, 3), (ChunkCoord::new(0, -2), 2, 100)] {
        let coords = nearest_visible_coords(center, radius, cap);
        assert_eq!(coords[0], center);
    }
}
