//! Content placement: what stands in a region, derived from its key alone.
//!
//! Each category draws from its own seeded stream. Every candidate owns a
//! fixed run of words in that stream, so a candidate that is skipped (inside a
//! settlement's clearing) leaves the draws of all other candidates unchanged.

use vstd::prelude::*;
use crate::region::RegionKey;
use crate::seeding::{ContentKind, content_seed, seed_for, settlement_present, patrol_present,
    should_spawn_settlement, should_spawn_patrol};
use crate::random::{seeded_stream, seeded_words};

verus! {

pub const VEGETATION_MIN: u64 = 5;
pub const VEGETATION_MAX: u64 = 10;
pub const VEGETATION_MODELS: u64 = 5;
pub const ROCKS_MIN: u64 = 2;
pub const ROCKS_MAX: u64 = 4;
pub const SKY_OBSTACLES: u64 = 40;
pub const OBSTACLE_MODELS: u64 = 3;
pub const SETTLEMENT_BUILDINGS: u32 = 8;
pub const BUILDING_RING_RADIUS: i64 = 150;
pub const BUILDING_SCALE_MILLI: u32 = 6000;
pub const ROOF_LIFT_MILLI: i64 = 32_000;
/// Bearing between neighbouring buildings of the ring: a full turn over their number.
pub const BUILDING_BEARING_STEP_MDEG: u64 = 45_000;
pub const CLEARING_RADIUS: i64 = 400;
pub const PATROL_LIFT_MILLI: i64 = 500_000;
pub const GROUND_CLEARANCE_MILLI: i64 = 5000;
pub const FOUNDATION_SINK_MILLI: i64 = -500;
pub const FULL_TURN_MDEG: u64 = 360_000;

/// Words each vegetation candidate draws: x, z, model, scale, yaw.
pub const VEGETATION_STRIDE: u64 = 5;
/// Words each rock candidate draws: x, z, scale, yaw.
pub const ROCK_STRIDE: u64 = 4;
/// Words each sky obstacle draws: x, altitude, z, pitch, yaw, roll, size class, scale, model.
pub const OBSTACLE_STRIDE: u64 = 9;

#[derive(Clone, Copy, Debug, PartialEq, Eq, Structural)]
pub enum ObjectKind {
    Vegetation,
    Rock,
    SkyObstacle,
    Wall,
    Roof,
    CentralStructure,
    PatrolSpawn,
}

/// Where an object stands on the region's plane, relative to its origin.
#[derive(Clone, Copy, Debug, PartialEq, Eq, Structural)]
pub enum Footprint {
    /// At local coordinates, in world units.
    Local { x: i64, z: i64 },
    /// On a circle round the origin, at a bearing in thousandths of a degree.
    Ring { radius: i64, bearing_mdeg: u32 },
}

/// How an object's height is found.
#[derive(Clone, Copy, Debug, PartialEq, Eq, Structural)]
pub enum Anchor {
    /// The ground elevation under the footprint, plus a lift in thousandths of a unit.
    Ground { lift_milli: i64 },
    /// A fixed height above the region's base, in world units.
    Altitude { y: i64 },
}

/// A static collider attached to an object, in thousandths of a world unit
/// (before the object's scale is applied).
#[derive(Clone, Copy, Debug, PartialEq, Eq, Structural)]
pub enum ColliderSpec {
    Cuboid { half_x_milli: u32, half_y_milli: u32, half_z_milli: u32 },
    Sphere { radius_milli: u32 },
}

/// One object to place: angles in thousandths of a degree, scale in thousandths.
#[derive(Clone, Copy, Debug, PartialEq, Eq, Structural)]
pub struct PlacedObject {
    pub kind: ObjectKind,
    pub footprint: Footprint,
    pub anchor: Anchor,
    pub pitch_mdeg: u32,
    pub yaw_mdeg: u32,
    pub roll_mdeg: u32,
    pub scale_milli: u32,
    pub variant: u32,
    pub collider: Option<ColliderSpec>,
}

/// A local coordinate in `[-500, 500)` drawn from one word.
pub open spec fn local_offset(w: u64) -> i64 {
    ((w % 1000) as int - 500) as i64
}

pub open spec fn angle(w: u64) -> u32 {
    (w % FULL_TURN_MDEG) as u32
}

pub open spec fn vegetation_count(w: Seq<u64>) -> int {
    VEGETATION_MIN + (w[0] as int) % ((VEGETATION_MAX - VEGETATION_MIN + 1) as int)
}

pub open spec fn vegetation_candidate(w: Seq<u64>, i: int) -> PlacedObject {
    let b = 1 + VEGETATION_STRIDE * i;
    PlacedObject {
        kind: ObjectKind::Vegetation,
        footprint: Footprint::Local { x: local_offset(w[b]), z: local_offset(w[b + 1]) },
        anchor: Anchor::Ground { lift_milli: GROUND_CLEARANCE_MILLI },
        pitch_mdeg: 0,
        yaw_mdeg: angle(w[b + 4]),
        roll_mdeg: 0,
        scale_milli: (3000 + w[b + 3] % 3000) as u32,
        variant: (w[b + 2] % VEGETATION_MODELS) as u32,
        collider: None,
    }
}

pub open spec fn rock_count(w: Seq<u64>) -> int {
    ROCKS_MIN + (w[0] as int) % ((ROCKS_MAX - ROCKS_MIN + 1) as int)
}

pub open spec fn rock_scale(w: u64) -> u32 {
    (800 + w % 700) as u32
}

pub open spec fn rock_candidate(w: Seq<u64>, i: int) -> PlacedObject {
    let b = 1 + ROCK_STRIDE * i;
    PlacedObject {
        kind: ObjectKind::Rock,
        footprint: Footprint::Local { x: local_offset(w[b]), z: local_offset(w[b + 1]) },
        // Lifted by half the rock's height (7.5 units at scale 1) so it rests on the ground.
        anchor: Anchor::Ground { lift_milli: (GROUND_CLEARANCE_MILLI + rock_scale(w[b + 2]) * 15 / 2) as i64 },
        pitch_mdeg: 0,
        yaw_mdeg: angle(w[b + 3]),
        roll_mdeg: 0,
        scale_milli: rock_scale(w[b + 2]),
        variant: 0,
        collider: Some(ColliderSpec::Cuboid { half_x_milli: 10_000, half_y_milli: 7500, half_z_milli: 10_000 }),
    }
}

/// Large obstacles are the draws at or above 900 out of 1000: one in ten.
pub open spec fn obstacle_scale(class_word: u64, scale_word: u64) -> u32 {
    if class_word % 1000 >= 900 {
        (12_000 + scale_word % 13_000) as u32
    } else {
        (2000 + scale_word % 6000) as u32
    }
}

pub open spec fn obstacle(w: Seq<u64>, i: int) -> PlacedObject {
    let b = OBSTACLE_STRIDE * i;
    PlacedObject {
        kind: ObjectKind::SkyObstacle,
        footprint: Footprint::Local { x: local_offset(w[b]), z: local_offset(w[b + 2]) },
        anchor: Anchor::Altitude { y: (200 + w[b + 1] % 3800) as i64 },
        pitch_mdeg: angle(w[b + 3]),
        yaw_mdeg: angle(w[b + 4]),
        roll_mdeg: angle(w[b + 5]),
        scale_milli: obstacle_scale(w[b + 6], w[b + 7]),
        variant: (w[b + 8] % OBSTACLE_MODELS) as u32,
        collider: Some(ColliderSpec::Sphere { radius_milli: 800 }),
    }
}

/// Whether `o` stands clear of the settlement clearing of region `key`
/// (strictly inside the clearing radius of the centre is not clear).
pub open spec fn clear_of_settlement(key: RegionKey, o: PlacedObject) -> bool {
    match o.footprint {
        Footprint::Local { x, z } => !(settlement_present(key) && x * x + z * z < CLEARING_RADIUS
            * CLEARING_RADIUS),
        Footprint::Ring { .. } => true,
    }
}

pub open spec fn clear_in(key: RegionKey) -> spec_fn(PlacedObject) -> bool {
    |o: PlacedObject| clear_of_settlement(key, o)
}

pub open spec fn vegetation_words(key: RegionKey) -> Seq<u64> {
    seeded_stream(
        content_seed(key, ContentKind::Vegetation),
        (1 + VEGETATION_STRIDE * VEGETATION_MAX) as nat,
    )
}

pub open spec fn rock_words(key: RegionKey) -> Seq<u64> {
    seeded_stream(content_seed(key, ContentKind::Rocks), (1 + ROCK_STRIDE * ROCKS_MAX) as nat)
}

pub open spec fn obstacle_words(key: RegionKey) -> Seq<u64> {
    seeded_stream(content_seed(key, ContentKind::SkyObstacles), (OBSTACLE_STRIDE * SKY_OBSTACLES) as nat)
}

/// Every vegetation candidate of region `key`, before the clearing is applied.
pub open spec fn vegetation_candidates(key: RegionKey) -> Seq<PlacedObject> {
    let w = vegetation_words(key);
    Seq::new(vegetation_count(w) as nat, |i: int| vegetation_candidate(w, i))
}

/// Every rock candidate of region `key`, before the clearing is applied.
pub open spec fn rock_candidates(key: RegionKey) -> Seq<PlacedObject> {
    let w = rock_words(key);
    Seq::new(rock_count(w) as nat, |i: int| rock_candidate(w, i))
}

pub open spec fn vegetation_spec(key: RegionKey) -> Seq<PlacedObject> {
    vegetation_candidates(key).filter(clear_in(key))
}

pub open spec fn rocks_spec(key: RegionKey) -> Seq<PlacedObject> {
    rock_candidates(key).filter(clear_in(key))
}

pub open spec fn obstacles_spec(key: RegionKey) -> Seq<PlacedObject> {
    let w = obstacle_words(key);
    Seq::new(SKY_OBSTACLES as nat, |i: int| obstacle(w, i))
}

pub open spec fn ring_bearing(i: int) -> int {
    i * BUILDING_BEARING_STEP_MDEG
}

/// Buildings of the ring face the centre.
pub open spec fn ring_yaw(i: int) -> u32 {
    ((ring_bearing(i) + FULL_TURN_MDEG / 2) % (FULL_TURN_MDEG as int)) as u32
}

/// The wall of ring building `i`, sunk slightly into the ground.
pub open spec fn wall(i: int) -> PlacedObject {
    PlacedObject {
        kind: ObjectKind::Wall,
        footprint: Footprint::Ring { radius: BUILDING_RING_RADIUS, bearing_mdeg: ring_bearing(i) as u32 },
        anchor: Anchor::Ground { lift_milli: FOUNDATION_SINK_MILLI },
        pitch_mdeg: 0,
        yaw_mdeg: ring_yaw(i),
        roll_mdeg: 0,
        scale_milli: BUILDING_SCALE_MILLI,
        variant: 0,
        collider: Some(ColliderSpec::Cuboid { half_x_milli: 3000, half_y_milli: 5000, half_z_milli: 3000 }),
    }
}

/// The roof of ring building `i`, above its wall.
pub open spec fn roof(i: int) -> PlacedObject {
    PlacedObject {
        kind: ObjectKind::Roof,
        footprint: Footprint::Ring { radius: BUILDING_RING_RADIUS, bearing_mdeg: ring_bearing(i) as u32 },
        anchor: Anchor::Ground { lift_milli: ROOF_LIFT_MILLI },
        pitch_mdeg: 0,
        yaw_mdeg: ring_yaw(i),
        roll_mdeg: 0,
        scale_milli: BUILDING_SCALE_MILLI,
        variant: 0,
        collider: None,
    }
}

/// Piece `j` of the ring: wall then roof of each building in turn.
pub open spec fn ring_piece(j: int) -> PlacedObject {
    if j % 2 == 0 {
        wall(j / 2)
    } else {
        roof(j / 2)
    }
}

pub open spec fn central_structure() -> PlacedObject {
    PlacedObject {
        kind: ObjectKind::CentralStructure,
        footprint: Footprint::Local { x: 0, z: 0 },
        anchor: Anchor::Ground { lift_milli: FOUNDATION_SINK_MILLI },
        pitch_mdeg: 0,
        yaw_mdeg: 0,
        roll_mdeg: 0,
        scale_milli: 20_000,
        variant: 0,
        collider: Some(ColliderSpec::Cuboid { half_x_milli: 10_000, half_y_milli: 20_000, half_z_milli: 10_000 }),
    }
}

pub open spec fn patrol_spawn() -> PlacedObject {
    PlacedObject {
        kind: ObjectKind::PatrolSpawn,
        footprint: Footprint::Local { x: 0, z: 0 },
        anchor: Anchor::Ground { lift_milli: PATROL_LIFT_MILLI },
        pitch_mdeg: 0,
        yaw_mdeg: 0,
        roll_mdeg: 0,
        scale_milli: 1000,
        variant: 0,
        collider: None,
    }
}

pub open spec fn settlement_spec(key: RegionKey) -> Seq<PlacedObject> {
    if settlement_present(key) {
        Seq::new(2 * SETTLEMENT_BUILDINGS as nat, |j: int| ring_piece(j)).push(central_structure())
    } else {
        Seq::empty()
    }
}

pub open spec fn patrol_spec(key: RegionKey) -> Seq<PlacedObject> {
    if patrol_present(key) {
        seq![patrol_spawn()]
    } else {
        Seq::empty()
    }
}

/// Everything placed in region `key`, category by category.
pub open spec fn content_spec(key: RegionKey) -> Seq<PlacedObject> {
    vegetation_spec(key) + rocks_spec(key) + obstacles_spec(key) + settlement_spec(key) + patrol_spec(
        key,
    )
}

fn local_offset_of(w: u64) -> (r: i64)
    ensures
        r == local_offset(w),
        -500 <= r < 500,
{
    (w % 1000) as i64 - 500
}

fn angle_of(w: u64) -> (r: u32)
    ensures
        r == angle(w),
{
    (w % FULL_TURN_MDEG) as u32
}

fn vegetation_at(w: &Vec<u64>, i: u64) -> (r: PlacedObject)
    requires
        i < VEGETATION_MAX,
        w@.len() == 1 + VEGETATION_STRIDE * VEGETATION_MAX,
    ensures
        r == vegetation_candidate(w@, i as int),
{
    let b = (1 + VEGETATION_STRIDE * i) as usize;
    PlacedObject {
        kind: ObjectKind::Vegetation,
        footprint: Footprint::Local { x: local_offset_of(w[b]), z: local_offset_of(w[b + 1]) },
        anchor: Anchor::Ground { lift_milli: GROUND_CLEARANCE_MILLI },
        pitch_mdeg: 0,
        yaw_mdeg: angle_of(w[b + 4]),
        roll_mdeg: 0,
        scale_milli: (3000 + w[b + 3] % 3000) as u32,
        variant: (w[b + 2] % VEGETATION_MODELS) as u32,
        collider: None,
    }
}

fn rock_at(w: &Vec<u64>, i: u64) -> (r: PlacedObject)
    requires
        i < ROCKS_MAX,
        w@.len() == 1 + ROCK_STRIDE * ROCKS_MAX,
    ensures
        r == rock_candidate(w@, i as int),
{
    let b = (1 + ROCK_STRIDE * i) as usize;
    let scale: u32 = (800 + w[b + 2] % 700) as u32;
    let lift: u64 = (scale as u64) * 15 / 2;
    PlacedObject {
        kind: ObjectKind::Rock,
        footprint: Footprint::Local { x: local_offset_of(w[b]), z: local_offset_of(w[b + 1]) },
        anchor: Anchor::Ground { lift_milli: GROUND_CLEARANCE_MILLI + lift as i64 },
        pitch_mdeg: 0,
        yaw_mdeg: angle_of(w[b + 3]),
        roll_mdeg: 0,
        scale_milli: scale,
        variant: 0,
        collider: Some(ColliderSpec::Cuboid { half_x_milli: 10_000, half_y_milli: 7500, half_z_milli: 10_000 }),
    }
}

fn obstacle_at(w: &Vec<u64>, i: u64) -> (r: PlacedObject)
    requires
        i < SKY_OBSTACLES,
        w@.len() == OBSTACLE_STRIDE * SKY_OBSTACLES,
    ensures
        r == obstacle(w@, i as int),
{
    let b = (OBSTACLE_STRIDE * i) as usize;
    let scale: u32 = if w[b + 6] % 1000 >= 900 {
        (12_000 + w[b + 7] % 13_000) as u32
    } else {
        (2000 + w[b + 7] % 6000) as u32
    };
    PlacedObject {
        kind: ObjectKind::SkyObstacle,
        footprint: Footprint::Local { x: local_offset_of(w[b]), z: local_offset_of(w[b + 2]) },
        anchor: Anchor::Altitude { y: (200 + w[b + 1] % 3800) as i64 },
        pitch_mdeg: angle_of(w[b + 3]),
        yaw_mdeg: angle_of(w[b + 4]),
        roll_mdeg: angle_of(w[b + 5]),
        scale_milli: scale,
        variant: (w[b + 8] % OBSTACLE_MODELS) as u32,
        collider: Some(ColliderSpec::Sphere { radius_milli: 800 }),
    }
}

/// Whether `o` stands clear of the clearing; `settlement` says whether the
/// region holds a settlement.
fn is_clear(Ghost(key): Ghost<RegionKey>, settlement: bool, o: &PlacedObject) -> (r: bool)
    requires
        settlement == settlement_present(key),
    ensures
        r == clear_of_settlement(key, *o),
{
    match o.footprint {
        Footprint::Local { x, z } => {
            if !settlement {
                return true;
            }
            let ax: u128 = if x < 0 { (0 - x as i128) as u128 } else { x as u128 };
            let az: u128 = if z < 0 { (0 - z as i128) as u128 } else { z as u128 };
            assert(ax * ax <= 0x4000_0000_0000_0000_0000_0000_0000_0000 && az * az
                <= 0x4000_0000_0000_0000_0000_0000_0000_0000) by (nonlinear_arith)
                requires
                    ax <= 0x8000_0000_0000_0000,
                    az <= 0x8000_0000_0000_0000,
            ;
            assert(ax * ax == x * x && az * az == z * z) by (nonlinear_arith)
                requires
                    ax == x || ax == -x,
                    az == z || az == -z,
            ;
            !(ax * ax + az * az < (CLEARING_RADIUS * CLEARING_RADIUS) as u128)
        },
        Footprint::Ring { .. } => true,
    }
}

/// Trees and other vegetation of region `key`: a count in `[5, 10]`, each
/// candidate at its own position, model, scale and heading; candidates inside
/// a settlement's clearing are left out.
pub fn vegetation_placements(key: RegionKey) -> (r: Vec<PlacedObject>)
    ensures
        r@ == vegetation_spec(key),
{
    let seed = seed_for(key, ContentKind::Vegetation);
    let w = seeded_words(seed, (1 + VEGETATION_STRIDE * VEGETATION_MAX) as usize);
    assert(w@ =~= vegetation_words(key));
    let settlement = should_spawn_settlement(key);
    let count: u64 = VEGETATION_MIN + w[0] % (VEGETATION_MAX - VEGETATION_MIN + 1);
    let ghost cands = Seq::new(count as nat, |j: int| vegetation_candidate(w@, j));
    let mut out: Vec<PlacedObject> = Vec::new();
    let mut i: u64 = 0;
    while i < count
        invariant
            i <= count <= VEGETATION_MAX,
            w@ == vegetation_words(key),
            settlement == settlement_present(key),
            cands == Seq::new(count as nat, |j: int| vegetation_candidate(w@, j)),
            out@ == cands.take(i as int).filter(clear_in(key)),
        decreases count - i,
    {
        let o = vegetation_at(&w, i);
        assert(cands.take(i + 1) =~= cands.take(i as int).push(o));
        proof {
            cands.take(i as int).lemma_filter_push(o, clear_in(key));
        }
        if is_clear(Ghost(key), settlement, &o) {
            out.push(o);
        }
        i += 1;
    }
    assert(cands.take(count as int) =~= cands);
    out
}

/// Rocks of region `key`: a count in `[2, 4]` drawn from a stream of their
/// own; candidates inside a settlement's clearing are left out.
pub fn rock_placements(key: RegionKey) -> (r: Vec<PlacedObject>)
    ensures
        r@ == rocks_spec(key),
{
    let seed = seed_for(key, ContentKind::Rocks);
    let w = seeded_words(seed, (1 + ROCK_STRIDE * ROCKS_MAX) as usize);
    assert(w@ =~= rock_words(key));
    let settlement = should_spawn_settlement(key);
    let count: u64 = ROCKS_MIN + w[0] % (ROCKS_MAX - ROCKS_MIN + 1);
    let ghost cands = Seq::new(count as nat, |j: int| rock_candidate(w@, j));
    let mut out: Vec<PlacedObject> = Vec::new();
    let mut i: u64 = 0;
    while i < count
        invariant
            i <= count <= ROCKS_MAX,
            w@ == rock_words(key),
            settlement == settlement_present(key),
            cands == Seq::new(count as nat, |j: int| rock_candidate(w@, j)),
            out@ == cands.take(i as int).filter(clear_in(key)),
        decreases count - i,
    {
        let o = rock_at(&w, i);
        assert(cands.take(i + 1) =~= cands.take(i as int).push(o));
        proof {
            cands.take(i as int).lemma_filter_push(o, clear_in(key));
        }
        if is_clear(Ghost(key), settlement, &o) {
            out.push(o);
        }
        i += 1;
    }
    assert(cands.take(count as int) =~= cands);
    out
}

/// Sky obstacles of region `key`: a fixed number, each at its own position,
/// altitude in `[200, 4000)`, orientation, size class and model.
pub fn obstacle_placements(key: RegionKey) -> (r: Vec<PlacedObject>)
    ensures
        r@ == obstacles_spec(key),
{
    let seed = seed_for(key, ContentKind::SkyObstacles);
    let w = seeded_words(seed, (OBSTACLE_STRIDE * SKY_OBSTACLES) as usize);
    assert(w@ =~= obstacle_words(key));
    let mut out: Vec<PlacedObject> = Vec::new();
    let mut i: u64 = 0;
    while i < SKY_OBSTACLES
        invariant
            i <= SKY_OBSTACLES,
            w@ == obstacle_words(key),
            out@ =~= Seq::new(i as nat, |j: int| obstacle(w@, j)),
        decreases SKY_OBSTACLES - i,
    {
        let o = obstacle_at(&w, i);
        out.push(o);
        i += 1;
    }
    out
}

fn wall_and_roof_at(i: u32) -> (r: (PlacedObject, PlacedObject))
    requires
        i < SETTLEMENT_BUILDINGS,
    ensures
        r.0 == wall(i as int),
        r.1 == roof(i as int),
{
    let bearing: u64 = i as u64 * BUILDING_BEARING_STEP_MDEG;
    let yaw: u32 = ((bearing + FULL_TURN_MDEG / 2) % FULL_TURN_MDEG) as u32;
    let footprint = Footprint::Ring { radius: BUILDING_RING_RADIUS, bearing_mdeg: bearing as u32 };
    let w = PlacedObject {
        kind: ObjectKind::Wall,
        footprint,
        anchor: Anchor::Ground { lift_milli: FOUNDATION_SINK_MILLI },
        pitch_mdeg: 0,
        yaw_mdeg: yaw,
        roll_mdeg: 0,
        scale_milli: BUILDING_SCALE_MILLI,
        variant: 0,
        collider: Some(ColliderSpec::Cuboid { half_x_milli: 3000, half_y_milli: 5000, half_z_milli: 3000 }),
    };
    let r = PlacedObject {
        kind: ObjectKind::Roof,
        footprint,
        anchor: Anchor::Ground { lift_milli: ROOF_LIFT_MILLI },
        pitch_mdeg: 0,
        yaw_mdeg: yaw,
        roll_mdeg: 0,
        scale_milli: BUILDING_SCALE_MILLI,
        variant: 0,
        collider: None,
    };
    (w, r)
}

/// The settlement of region `key`, if it has one: a ring of buildings facing
/// the centre, each a wall and then its roof, then the central structure.
pub fn settlement_placements(key: RegionKey) -> (r: Vec<PlacedObject>)
    ensures
        r@ == settlement_spec(key),
{
    let mut out: Vec<PlacedObject> = Vec::new();
    if !should_spawn_settlement(key) {
        return out;
    }
    let mut i: u32 = 0;
    while i < SETTLEMENT_BUILDINGS
        invariant
            i <= SETTLEMENT_BUILDINGS,
            out@ =~= Seq::new(2 * i as nat, |j: int| ring_piece(j)),
        decreases SETTLEMENT_BUILDINGS - i,
    {
        let (w, r) = wall_and_roof_at(i);
        proof {
            vstd::arithmetic::div_mod::lemma_fundamental_div_mod_converse(2 * i, 2, i as int, 0);
            vstd::arithmetic::div_mod::lemma_fundamental_div_mod_converse(2 * i + 1, 2, i as int, 1);
        }
        out.push(w);
        out.push(r);
        i += 1;
    }
    out.push(PlacedObject {
        kind: ObjectKind::CentralStructure,
        footprint: Footprint::Local { x: 0, z: 0 },
        anchor: Anchor::Ground { lift_milli: FOUNDATION_SINK_MILLI },
        pitch_mdeg: 0,
        yaw_mdeg: 0,
        roll_mdeg: 0,
        scale_milli: 20_000,
        variant: 0,
        collider: Some(ColliderSpec::Cuboid { half_x_milli: 10_000, half_y_milli: 20_000, half_z_milli: 10_000 }),
    });
    out
}

/// The patrol spawn of region `key`, if it seeds one: above the centre.
pub fn patrol_placements(key: RegionKey) -> (r: Vec<PlacedObject>)
    ensures
        r@ == patrol_spec(key),
{
    let mut out: Vec<PlacedObject> = Vec::new();
    if should_spawn_patrol(key) {
        out.push(PlacedObject {
            kind: ObjectKind::PatrolSpawn,
            footprint: Footprint::Local { x: 0, z: 0 },
            anchor: Anchor::Ground { lift_milli: PATROL_LIFT_MILLI },
            pitch_mdeg: 0,
            yaw_mdeg: 0,
            roll_mdeg: 0,
            scale_milli: 1000,
            variant: 0,
            collider: None,
        });
        assert(out@ =~= seq![patrol_spawn()]);
    }
    out
}

/// Everything placed in region `key`: vegetation, rocks, sky obstacles, the
/// settlement and the patrol spawn, in that order. It depends on the key alone.
pub fn populate(key: RegionKey) -> (r: Vec<PlacedObject>)
    ensures
        r@ == content_spec(key),
{
    let mut all = vegetation_placements(key);
    let mut rocks = rock_placements(key);
    let mut obstacles = obstacle_placements(key);
    let mut settlement = settlement_placements(key);
    let mut patrol = patrol_placements(key);
    all.append(&mut rocks);
    all.append(&mut obstacles);
    all.append(&mut settlement);
    all.append(&mut patrol);
    all
}

/// Placement depends on the region key alone: two placement lists produced
/// for one key, whatever was loaded or unloaded between them, are identical.
pub proof fn lemma_content_deterministic(
    key: RegionKey,
    first: Seq<PlacedObject>,
    second: Seq<PlacedObject>,
)
    requires
        first == content_spec(key),
        second == content_spec(key),
    ensures
        first == second,
{
}

proof fn lemma_filter_keeps_all(s: Seq<PlacedObject>, pred: spec_fn(PlacedObject) -> bool)
    requires
        forall|i: int| 0 <= i < s.len() ==> pred(#[trigger] s[i]),
    ensures
        s.filter(pred) == s,
    decreases s.len(),
{
    reveal(Seq::filter);
    if s.len() > 0 {
        lemma_filter_keeps_all(s.drop_last(), pred);
        assert(s.drop_last().push(s.last()) =~= s);
    }
}

/// The clearing only removes candidates; it never moves the others. Without a
/// settlement every candidate stands; with one, the objects that stand are
/// candidates, in their order, each drawn exactly as without the clearing.
pub proof fn lemma_clearing_only_removes(key: RegionKey)
    ensures
        !settlement_present(key) ==> vegetation_spec(key) == vegetation_candidates(key),
        !settlement_present(key) ==> rocks_spec(key) == rock_candidates(key),
        forall|o: PlacedObject| #[trigger] vegetation_spec(key).contains(o) ==> vegetation_candidates(key).contains(o),
        forall|o: PlacedObject| #[trigger] rocks_spec(key).contains(o) ==> rock_candidates(key).contains(o),
{
    if !settlement_present(key) {
        lemma_filter_keeps_all(vegetation_candidates(key), clear_in(key));
        lemma_filter_keeps_all(rock_candidates(key), clear_in(key));
    }
    assert forall|o: PlacedObject| #[trigger] vegetation_spec(key).contains(o) implies vegetation_candidates(key).contains(o) by {
        vegetation_candidates(key).lemma_filter_contains_rev(clear_in(key), o);
    }
    assert forall|o: PlacedObject| #[trigger] rocks_spec(key).contains(o) implies rock_candidates(key).contains(o) by {
        rock_candidates(key).lemma_filter_contains_rev(clear_in(key), o);
    }
}

} // verus!
