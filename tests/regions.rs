use world_streaming::mesher::{
    build_region_geometry, ground_collider, terrain_indices, terrain_vertices, SlabCollider, GRID_SIDE,
};
use world_streaming::region::{RegionKey, WorldPoint};
use world_streaming::seeding::{
    patrol_bucket_hash, seed_for, settlement_bucket_hash, should_spawn_patrol, should_spawn_settlement,
    ContentKind,
};

#[test]
fn origin_of_region_zero_is_world_origin() {
    let key = RegionKey::new(0, 0);
    assert_eq!(key.world_position(), WorldPoint { x: 0, y: 0, z: 0 });
    assert_eq!(RegionKey::from_world_pos(WorldPoint { x: 0, y: 0, z: 0 }), key);
}

#[test]
fn world_origin_scales_by_edge() {
    assert_eq!(RegionKey::new(3, -2).world_position(), WorldPoint { x: 3000, y: 0, z: -2000 });
    assert_eq!(
        RegionKey::new(i32::MIN, i32::MAX).world_position(),
        WorldPoint { x: i32::MIN as i64 * 1000, y: 0, z: i32::MAX as i64 * 1000 }
    );
}

#[test]
fn world_position_maps_by_floor() {
    assert_eq!(RegionKey::from_world_units(999, 0), RegionKey::new(0, 0));
    assert_eq!(RegionKey::from_world_units(1000, 1999), RegionKey::new(1, 1));
    assert_eq!(RegionKey::from_world_units(-1, -1000), RegionKey::new(-1, -1));
    assert_eq!(RegionKey::from_world_units(-1001, 2500), RegionKey::new(-2, 2));
}

#[test]
fn world_position_far_out_saturates() {
    assert_eq!(RegionKey::from_world_units(i64::MAX, i64::MIN), RegionKey::new(i32::MAX, i32::MIN));
}

#[test]
fn lattice_distance_is_squared() {
    let a = RegionKey::new(1, 2);
    assert_eq!(a.distance_sq(&RegionKey::new(4, -2)), 25);
    assert_eq!(RegionKey::new(i32::MIN, i32::MIN).distance_sq(&RegionKey::new(i32::MAX, i32::MAX)), 2 * (u32::MAX as u128) * (u32::MAX as u128));
}

#[test]
fn content_seeds_follow_the_mixing_formula() {
    let key = RegionKey::new(1, 2);
    assert_eq!(seed_for(key, ContentKind::Vegetation), 103314787);
    assert_eq!(seed_for(key, ContentKind::Rocks), 166373413);
    assert_eq!(seed_for(key, ContentKind::SkyObstacles), 16466405);
    assert_eq!(seed_for(RegionKey::new(-3, 4), ContentKind::Vegetation), 18446744073547423893);
    assert_ne!(seed_for(key, ContentKind::Vegetation), seed_for(key, ContentKind::Rocks));
}

#[test]
fn settlement_decision_below_threshold() {
    assert_eq!(settlement_bucket_hash(RegionKey::new(0, 0)) % 100, 0);
    assert!(should_spawn_settlement(RegionKey::new(0, 0)));
    assert_eq!(settlement_bucket_hash(RegionKey::new(-38, 8)) % 100, 14);
    assert!(should_spawn_settlement(RegionKey::new(-38, 8)));
    assert_eq!(settlement_bucket_hash(RegionKey::new(1, 0)) % 100, 93);
    assert!(!should_spawn_settlement(RegionKey::new(1, 0)));
}

#[test]
fn settlement_boundary_bucket_is_excluded_every_time() {
    let key = RegionKey::new(-4, 1);
    assert_eq!(settlement_bucket_hash(key) % 100, 15);
    for _ in 0..5 {
        assert!(!should_spawn_settlement(key));
    }
}

#[test]
fn patrol_decision_boundary() {
    assert_eq!(patrol_bucket_hash(RegionKey::new(-2, -4)) % 100, 14);
    assert!(should_spawn_patrol(RegionKey::new(-2, -4)));
    let key = RegionKey::new(-40, -37);
    assert_eq!(patrol_bucket_hash(key) % 100, 15);
    assert!(!should_spawn_patrol(key));
    assert!(should_spawn_patrol(RegionKey::new(0, 0)));
    assert!(!should_spawn_patrol(RegionKey::new(1, 0)));
}

#[test]
fn decisions_repeat_for_the_same_key() {
    for x in -6..6 {
        for z in -6..6 {
            let key = RegionKey::new(x, z);
            assert_eq!(should_spawn_settlement(key), should_spawn_settlement(RegionKey::new(x, z)));
            assert_eq!(should_spawn_patrol(key), should_spawn_patrol(RegionKey::new(x, z)));
        }
    }
}

#[test]
fn terrain_grid_shape() {
    let key = RegionKey::new(2, -1);
    let verts = terrain_vertices(key);
    assert_eq!(verts.len(), (GRID_SIDE * GRID_SIDE) as usize);
    let first = verts[0];
    assert_eq!((first.row, first.col, first.local_x, first.local_z), (0, 0, -500, -500));
    assert_eq!((first.world_x, first.world_z), (1500, -1500));
    let last = verts[440];
    assert_eq!((last.row, last.col, last.local_x, last.local_z), (20, 20, 500, 500));
    assert_eq!((last.world_x, last.world_z), (2500, -500));
    assert_eq!(verts[22].local_x, -450);
    assert_eq!(verts[22].local_z, -450);
}

#[test]
fn terrain_indices_wind_two_triangles_per_quad() {
    let idx = terrain_indices();
    assert_eq!(idx.len(), 2400);
    assert_eq!(&idx[0..6], &[0, 21, 1, 1, 21, 22]);
    // quad at row 1, column 2
    let q = 6 * (1 * 20 + 2);
    assert_eq!(&idx[q..q + 6], &[23, 44, 24, 24, 44, 45]);
    assert!(idx.iter().all(|&i| i < 441));
}

#[test]
fn neighbouring_grids_share_edge_samples() {
    let west = terrain_vertices(RegionKey::new(0, 0));
    let east = terrain_vertices(RegionKey::new(1, 0));
    let north = terrain_vertices(RegionKey::new(0, 1));
    for row in 0..21usize {
        let a = west[row * 21 + 20];
        let b = east[row * 21];
        assert_eq!((a.world_x, a.world_z), (b.world_x, b.world_z));
    }
    for col in 0..21usize {
        let a = west[20 * 21 + col];
        let b = north[col];
        assert_eq!((a.world_x, a.world_z), (b.world_x, b.world_z));
    }
}

#[test]
fn ground_collider_is_a_thin_slab() {
    assert_eq!(ground_collider(), Some(SlabCollider { half_extent: 500, half_thickness_milli: 500 }));
    let g = build_region_geometry(RegionKey::new(5, 5));
    assert_eq!(g.collider, ground_collider());
    assert_eq!(g.vertices.len(), 441);
    assert_eq!(g.indices.len(), 2400);
}
