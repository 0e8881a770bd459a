use rand::rngs::StdRng;
use rand::{Rng, SeedableRng};
use world_streaming::blueprint::region_blueprint;
use world_streaming::lod::{lod_update, lod_visibility, Visibility};
use world_streaming::populate::{
    obstacle_placements, patrol_placements, populate, rock_placements, settlement_placements,
    vegetation_placements, Anchor, ColliderSpec, Footprint, ObjectKind, PlacedObject,
};
use world_streaming::models::model_path_of;
use world_streaming::region::{RegionKey, WorldPoint};
use world_streaming::seeding::{seed_for, should_spawn_settlement, ContentKind};

fn words(seed: u64, n: usize) -> Vec<u64> {
    let mut rng = StdRng::seed_from_u64(seed);
    let mut w = vec![0u64; n];
    rng.fill(&mut w[..]);
    w
}

fn local(o: &PlacedObject) -> (i64, i64) {
    match o.footprint {
        Footprint::Local { x, z } => (x, z),
        Footprint::Ring { .. } => panic!("expected a local footprint"),
    }
}

#[test]
fn content_is_identical_on_every_call() {
    for (x, z) in [(0, 0), (1, 2), (-3, 4), (-4, 1), (7, -9)] {
        let key = RegionKey::new(x, z);
        assert_eq!(populate(key), populate(key));
        assert_eq!(region_blueprint(key).content, populate(key));
    }
}

#[test]
fn vegetation_follows_its_seeded_stream() {
    let key = RegionKey::new(1, 2);
    assert!(!should_spawn_settlement(key));
    let w = words(seed_for(key, ContentKind::Vegetation), 51);
    let trees = vegetation_placements(key);
    let count = 5 + (w[0] % 6) as usize;
    assert_eq!(trees.len(), count);
    for (i, t) in trees.iter().enumerate() {
        let b = 1 + 5 * i;
        assert_eq!(t.kind, ObjectKind::Vegetation);
        assert_eq!(local(t), ((w[b] % 1000) as i64 - 500, (w[b + 1] % 1000) as i64 - 500));
        assert_eq!(t.variant as u64, w[b + 2] % 5);
        assert_eq!(t.scale_milli as u64, 3000 + w[b + 3] % 3000);
        assert_eq!(t.yaw_mdeg as u64, w[b + 4] % 360_000);
        assert_eq!(t.anchor, Anchor::Ground { lift_milli: 5000 });
    }
}

#[test]
fn vegetation_and_rock_counts_in_range() {
    for x in -5..5 {
        for z in -5..5 {
            let key = RegionKey::new(x, z);
            let trees = vegetation_placements(key);
            let rocks = rock_placements(key);
            assert!(trees.len() <= 10);
            assert!(rocks.len() <= 4);
            if !should_spawn_settlement(key) {
                assert!(trees.len() >= 5);
                assert!(rocks.len() >= 2);
            }
        }
    }
}

#[test]
fn rocks_follow_their_own_stream() {
    let key = RegionKey::new(-3, 4);
    let w = words(seed_for(key, ContentKind::Rocks), 17);
    let rocks = rock_placements(key);
    assert_eq!(rocks.len(), 2 + (w[0] % 3) as usize);
    for (i, r) in rocks.iter().enumerate() {
        let b = 1 + 4 * i;
        assert_eq!(local(r), ((w[b] % 1000) as i64 - 500, (w[b + 1] % 1000) as i64 - 500));
        let scale = 800 + w[b + 2] % 700;
        assert_eq!(r.scale_milli as u64, scale);
        assert_eq!(r.anchor, Anchor::Ground { lift_milli: 5000 + (scale * 15 / 2) as i64 });
    }
}

#[test]
fn settlement_clears_its_centre() {
    let key = RegionKey::new(0, 0);
    assert!(should_spawn_settlement(key));
    let w = words(seed_for(key, ContentKind::Vegetation), 51);
    let count = 5 + (w[0] % 6) as usize;
    let mut expected = Vec::new();
    for i in 0..count {
        let b = 1 + 5 * i;
        let (x, z) = ((w[b] % 1000) as i64 - 500, (w[b + 1] % 1000) as i64 - 500);
        if x * x + z * z >= 400 * 400 {
            expected.push((x, z));
        }
    }
    let trees = vegetation_placements(key);
    let got: Vec<(i64, i64)> = trees.iter().map(local).collect();
    assert_eq!(got, expected);
    for r in rock_placements(key).iter() {
        let (x, z) = local(r);
        assert!(x * x + z * z >= 160_000);
    }
}

#[test]
fn sky_obstacles_fill_their_band() {
    let key = RegionKey::new(2, 3);
    let w = words(seed_for(key, ContentKind::SkyObstacles), 360);
    let obs = obstacle_placements(key);
    assert_eq!(obs.len(), 40);
    for (i, o) in obs.iter().enumerate() {
        let b = 9 * i;
        assert_eq!(o.kind, ObjectKind::SkyObstacle);
        assert_eq!(o.anchor, Anchor::Altitude { y: 200 + (w[b + 1] % 3800) as i64 });
        match o.anchor {
            Anchor::Altitude { y } => assert!((200..4000).contains(&y)),
            _ => panic!("sky obstacles hang at an altitude"),
        }
        let large = w[b + 6] % 1000 >= 900;
        if large {
            assert!((12_000..25_000).contains(&o.scale_milli));
        } else {
            assert!((2000..8000).contains(&o.scale_milli));
        }
        assert!(o.variant < 3);
    }
}

#[test]
fn settlement_ring_faces_the_centre() {
    let with = settlement_placements(RegionKey::new(0, 0));
    assert_eq!(with.len(), 17);
    for i in 0..8usize {
        let bearing = 45_000 * i as u32;
        let yaw = (bearing + 180_000) % 360_000;
        let wall = with[2 * i];
        let roof = with[2 * i + 1];
        assert_eq!(wall.kind, ObjectKind::Wall);
        assert_eq!(wall.footprint, Footprint::Ring { radius: 150, bearing_mdeg: bearing });
        assert_eq!(wall.yaw_mdeg, yaw);
        assert_eq!(wall.scale_milli, 6000);
        assert_eq!(wall.anchor, Anchor::Ground { lift_milli: -500 });
        assert_eq!(
            wall.collider,
            Some(ColliderSpec::Cuboid { half_x_milli: 3000, half_y_milli: 5000, half_z_milli: 3000 })
        );
        assert_eq!(roof.kind, ObjectKind::Roof);
        assert_eq!(roof.footprint, wall.footprint);
        assert_eq!(roof.yaw_mdeg, yaw);
        assert_eq!(roof.scale_milli, 6000);
        assert_eq!(roof.anchor, Anchor::Ground { lift_milli: 32_000 });
        assert_eq!(roof.collider, None);
    }
    assert_eq!(with[16].kind, ObjectKind::CentralStructure);
    assert_eq!(with[16].footprint, Footprint::Local { x: 0, z: 0 });
    assert_eq!(with[16].scale_milli, 20_000);
    assert_eq!(
        with[16].collider,
        Some(ColliderSpec::Cuboid { half_x_milli: 10_000, half_y_milli: 20_000, half_z_milli: 10_000 })
    );
    assert!(settlement_placements(RegionKey::new(-4, 1)).is_empty());
}

#[test]
fn settlement_is_identical_across_reloads() {
    let key = RegionKey::new(0, 0);
    let first = settlement_placements(key);
    let _ = populate(RegionKey::new(1, 0));
    let _ = populate(RegionKey::new(-3, 4));
    assert_eq!(settlement_placements(key), first);
}

#[test]
fn colliders_by_kind() {
    let key = RegionKey::new(0, 0);
    for o in populate(key).iter() {
        match o.kind {
            ObjectKind::Vegetation | ObjectKind::Roof | ObjectKind::PatrolSpawn => assert_eq!(o.collider, None),
            ObjectKind::Rock => assert_eq!(
                o.collider,
                Some(ColliderSpec::Cuboid { half_x_milli: 10_000, half_y_milli: 7500, half_z_milli: 10_000 })
            ),
            ObjectKind::SkyObstacle => assert_eq!(o.collider, Some(ColliderSpec::Sphere { radius_milli: 800 })),
            ObjectKind::Wall | ObjectKind::CentralStructure => assert!(o.collider.is_some()),
        }
    }
}

#[test]
fn model_paths_by_kind_and_variant() {
    assert_eq!(model_path_of(ObjectKind::Vegetation, 0), Some("fantasy_town/tree.glb#Mesh0/Primitive0"));
    assert_eq!(
        model_path_of(ObjectKind::Vegetation, 4),
        Some("fantasy_town/tree-high-round.glb#Mesh0/Primitive0")
    );
    assert_eq!(model_path_of(ObjectKind::Vegetation, 5), None);
    assert_eq!(model_path_of(ObjectKind::SkyObstacle, 2), Some("models/obstacles/meteor_half.glb#Scene0"));
    assert_eq!(model_path_of(ObjectKind::SkyObstacle, 3), None);
    assert_eq!(model_path_of(ObjectKind::Rock, 0), None);
    assert_eq!(model_path_of(ObjectKind::Wall, 0), Some("fantasy_town/wall.glb#Mesh0/Primitive0"));
    assert_eq!(model_path_of(ObjectKind::CentralStructure, 0), Some("fantasy_town/wall.glb#Mesh0/Primitive0"));
    assert_eq!(model_path_of(ObjectKind::Roof, 0), Some("fantasy_town/roof-gable.glb#Scene0"));
    assert_eq!(model_path_of(ObjectKind::PatrolSpawn, 0), Some("models/drone.glb#Scene0"));
    for o in populate(RegionKey::new(0, 0)).iter() {
        assert_eq!(model_path_of(o.kind, o.variant).is_none(), o.kind == ObjectKind::Rock);
    }
}

#[test]
fn patrol_spawns_above_the_centre() {
    let p = patrol_placements(RegionKey::new(0, 0));
    assert_eq!(p.len(), 1);
    assert_eq!(p[0].kind, ObjectKind::PatrolSpawn);
    assert_eq!(p[0].anchor, Anchor::Ground { lift_milli: 500_000 });
    assert!(patrol_placements(RegionKey::new(-40, -37)).is_empty());
}

#[test]
fn full_content_concatenates_the_categories() {
    let key = RegionKey::new(0, 0);
    let mut expected = vegetation_placements(key);
    expected.extend(rock_placements(key));
    expected.extend(obstacle_placements(key));
    expected.extend(settlement_placements(key));
    expected.extend(patrol_placements(key));
    assert_eq!(populate(key), expected);
}

#[test]
fn blueprint_places_the_region_at_its_origin() {
    let bp = region_blueprint(RegionKey::new(-2, 7));
    assert_eq!(bp.origin, WorldPoint { x: -2000, y: 0, z: 7000 });
    assert_eq!(bp.geometry.vertices.len(), 441);
}

#[test]
fn detail_gate_at_the_hide_distance() {
    let player = WorldPoint { x: 0, y: 0, z: 0 };
    assert_eq!(lod_visibility(&player, &WorldPoint { x: 20_000, y: 0, z: 0 }), Visibility::Visible);
    assert_eq!(lod_visibility(&player, &WorldPoint { x: 20_001, y: 0, z: 0 }), Visibility::Hidden);
    assert_eq!(lod_visibility(&player, &WorldPoint { x: 12_000, y: 12_000, z: 12_000 }), Visibility::Hidden);
    assert_eq!(lod_visibility(&player, &WorldPoint { x: 12_000, y: 0, z: 16_000 }), Visibility::Visible);
    assert_eq!(lod_visibility(&player, &WorldPoint { x: i64::MIN, y: 0, z: 0 }), Visibility::Hidden);
}

#[test]
fn detail_gate_skips_unchanged_writes() {
    let player = WorldPoint { x: 100, y: 50, z: -100 };
    let near = WorldPoint { x: 200, y: 0, z: 0 };
    let far = WorldPoint { x: 100, y: 50, z: 30_000 };
    assert_eq!(lod_update(Visibility::Visible, &player, &near), None);
    assert_eq!(lod_update(Visibility::Hidden, &player, &near), Some(Visibility::Visible));
    assert_eq!(lod_update(Visibility::Visible, &player, &far), Some(Visibility::Hidden));
    assert_eq!(lod_update(Visibility::Hidden, &player, &far), None);
}
