use std::collections::HashSet;
use world_streaming::manager::{RegionManager, TickPlan};
use world_streaming::region::{RegionKey, WorldPoint};

fn commit_all(m: &mut RegionManager, plan: &TickPlan, next_handle: &mut u64) {
    for k in plan.load.iter() {
        assert!(m.commit(*k, *next_handle));
        *next_handle += 1;
    }
}

fn disc(p: RegionKey, r2: i64) -> HashSet<RegionKey> {
    let mut s = HashSet::new();
    for dx in -12i64..=12 {
        for dz in -12i64..=12 {
            if dx * dx + dz * dz <= r2 {
                s.insert(RegionKey::new((p.x as i64 + dx) as i32, (p.z as i64 + dz) as i32));
            }
        }
    }
    s
}

#[test]
fn player_at_origin_loads_the_discrete_circle() {
    let mut m = RegionManager::new();
    let player = RegionKey::from_world_pos(WorldPoint { x: 0, y: 0, z: 0 });
    let plan = m.tick(player).expect("first tick evaluates");
    assert!(plan.unload.is_empty());
    let planned: HashSet<RegionKey> = plan.load.iter().copied().collect();
    assert_eq!(planned.len(), plan.load.len());
    assert_eq!(planned, disc(player, 64));
    assert_eq!(planned.len(), 197);
    assert!(!planned.contains(&RegionKey::new(8, 1)));
    assert!(planned.contains(&RegionKey::new(8, 0)));
    let mut h = 1;
    commit_all(&mut m, &plan, &mut h);
    assert_eq!(m.loaded_count(), 197);
    assert!(m.pending().is_empty());
}

#[test]
fn staying_in_a_region_does_not_re_evaluate() {
    let mut m = RegionManager::new();
    let p = RegionKey::new(0, 0);
    let plan = m.tick(p).unwrap();
    let mut h = 1;
    commit_all(&mut m, &plan, &mut h);
    assert!(m.tick(p).is_none());
    assert_eq!(m.loaded_count(), 197);
}

#[test]
fn oscillating_between_neighbours_does_not_thrash() {
    let mut m = RegionManager::new();
    let a = RegionKey::new(0, 0);
    let b = RegionKey::new(1, 0);
    let mut h = 1;
    let plan = m.tick(a).unwrap();
    commit_all(&mut m, &plan, &mut h);
    let plan = m.tick(b).unwrap();
    assert!(plan.unload.is_empty());
    commit_all(&mut m, &plan, &mut h);
    let settled = m.loaded_count();
    for i in 0..10 {
        let p = if i % 2 == 0 { a } else { b };
        let plan = m.tick(p).unwrap();
        assert!(plan.unload.is_empty());
        assert!(plan.load.is_empty());
        assert_eq!(m.loaded_count(), settled);
    }
}

#[test]
fn diagonal_oscillation_does_not_thrash() {
    let mut m = RegionManager::new();
    let a = RegionKey::new(5, 5);
    let b = RegionKey::new(6, 6);
    let mut h = 1;
    for p in [a, b] {
        let plan = m.tick(p).unwrap();
        commit_all(&mut m, &plan, &mut h);
    }
    for p in [a, b, a, b] {
        let plan = m.tick(p).unwrap();
        assert!(plan.unload.is_empty() && plan.load.is_empty());
    }
}

#[test]
fn far_move_unloads_beyond_the_unload_radius() {
    let mut m = RegionManager::new();
    let mut h = 1;
    let plan = m.tick(RegionKey::new(0, 0)).unwrap();
    commit_all(&mut m, &plan, &mut h);
    let to = RegionKey::new(10, 0);
    let plan = m.tick(to).unwrap();
    for rec in plan.unload.iter() {
        assert!(rec.key.distance_sq(&to) > 144);
        assert!(!m.is_loaded(&rec.key));
    }
    assert!(!plan.unload.is_empty());
    for k in disc(to, 144).iter() {
        let d = k.distance_sq(&RegionKey::new(0, 0));
        if d <= 64 {
            assert!(m.is_loaded(k));
        }
    }
    commit_all(&mut m, &plan, &mut h);
    for k in disc(to, 64).iter() {
        assert!(m.is_loaded(k));
    }
}

#[test]
fn working_set_stays_within_the_unload_disc() {
    let mut m = RegionManager::new();
    let mut h = 1;
    let path = [(0, 0), (3, 0), (6, 1), (9, 3), (9, 7), (4, 9), (0, 12), (-5, 8)];
    for (x, z) in path {
        let p = RegionKey::new(x, z);
        if let Some(plan) = m.tick(p) {
            commit_all(&mut m, &plan, &mut h);
        }
        assert!(m.loaded_count() <= 441);
        let allowed = disc(p, 144);
        let mut seen = HashSet::new();
        for k in disc(p, 400).iter() {
            if m.is_loaded(k) {
                assert!(allowed.contains(k));
                seen.insert(*k);
            }
        }
        assert_eq!(seen.len(), m.loaded_count());
    }
}

#[test]
fn no_region_is_recorded_twice() {
    let mut m = RegionManager::new();
    let plan = m.tick(RegionKey::new(0, 0)).unwrap();
    let k = plan.load[0];
    assert!(m.commit(k, 7));
    assert!(!m.commit(k, 8));
    assert_eq!(m.handle_of(&k), Some(7));
    assert!(!m.commit(RegionKey::new(100, 100), 9));
    assert_eq!(m.handle_of(&RegionKey::new(100, 100)), None);
    assert_eq!(m.loaded_count(), 1);
}

#[test]
fn handles_come_back_for_unloading() {
    let mut m = RegionManager::new();
    let plan = m.tick(RegionKey::new(0, 0)).unwrap();
    for (i, k) in plan.load.iter().enumerate() {
        m.commit(*k, 1000 + i as u64);
    }
    let far = RegionKey::new(0, 30);
    let plan2 = m.tick(far).unwrap();
    assert_eq!(plan2.unload.len(), 197);
    for rec in plan2.unload.iter() {
        let i = plan.load.iter().position(|k| *k == rec.key).unwrap();
        assert_eq!(rec.handle, 1000 + i as u64);
    }
    assert_eq!(m.loaded_count(), 0);
    assert_eq!(m.last_player(), far);
}

#[test]
fn edge_of_the_lattice_loads_only_existing_keys() {
    let mut m = RegionManager::new();
    let p = RegionKey::new(i32::MAX, i32::MIN);
    let plan = m.tick(p).unwrap();
    let expected: usize = {
        let mut n = 0;
        for dx in -8i64..=0 {
            for dz in 0i64..=8 {
                if dx * dx + dz * dz <= 64 {
                    n += 1;
                }
            }
        }
        n
    };
    assert_eq!(plan.load.len(), expected);
}

#[test]
fn alternating_run_loads_each_region_once() {
    let mut m = RegionManager::new();
    let mut h = 1;
    let plan = m.tick(RegionKey::new(0, 0)).unwrap();
    commit_all(&mut m, &plan, &mut h);
    let a = RegionKey::new(6, 2);
    let b = RegionKey::new(6, 3);
    let mut loaded_ever: HashSet<RegionKey> = HashSet::new();
    let mut unloaded_ever: HashSet<RegionKey> = HashSet::new();
    for i in 0..12 {
        let p = if i % 2 == 0 { a } else { b };
        let plan = m.tick(p).unwrap();
        if i >= 2 {
            assert!(plan.unload.is_empty() && plan.load.is_empty());
        }
        for rec in plan.unload.iter() {
            unloaded_ever.insert(rec.key);
        }
        for k in plan.load.iter() {
            assert!(loaded_ever.insert(*k));
            assert!(!unloaded_ever.contains(k));
        }
        commit_all(&mut m, &plan, &mut h);
    }
}
