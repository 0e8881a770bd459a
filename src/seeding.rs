//! Deterministic seeds and spawn decisions derived from a region key alone.

use vstd::prelude::*;
use crate::region::RegionKey;

verus! {

pub const MIX_A: i64 = 73856093;
pub const MIX_B: i64 = 19349663;
pub const MIX_C: i64 = 1234567;
pub const MIX_D: i64 = 7654321;

/// Out of every 100 hash buckets, the number that hold a settlement; a region
/// has one when its bucket is strictly below this value.
pub const SETTLEMENT_THRESHOLD: u32 = 15;

/// Out of every 100 hash buckets, the number that seed a patrol; a region
/// seeds one when its bucket is strictly below this value.
pub const PATROL_THRESHOLD: u32 = 15;

/// Content categories, each with a random stream of its own.
#[derive(Clone, Copy, Debug, PartialEq, Eq, Structural)]
pub enum ContentKind {
    Vegetation,
    Rocks,
    SkyObstacles,
}

/// The pair of odd multipliers that mixes a key into the seed of `kind`.
pub open spec fn multipliers(kind: ContentKind) -> (i64, i64) {
    match kind {
        ContentKind::Vegetation => (MIX_A, MIX_B),
        ContentKind::Rocks => (MIX_B, MIX_A),
        ContentKind::SkyObstacles => (MIX_C, MIX_D),
    }
}

/// `(x * m1) xor (z * m2)` over 64-bit signed values, read as unsigned.
pub open spec fn content_seed(key: RegionKey, kind: ContentKind) -> u64 {
    let (mx, mz) = multipliers(kind);
    (((key.x * mx) as i64) ^ ((key.z * mz) as i64)) as u64
}

/// The settlement hash: `(x * A) xor (z * B)` with 32-bit wrapping products.
pub open spec fn settlement_hash(key: RegionKey) -> u32 {
    (key.x.wrapping_mul(MIX_A as i32) ^ key.z.wrapping_mul(MIX_B as i32)) as u32
}

/// The patrol hash: `(x * C) xor (z * D)` with 32-bit wrapping products.
pub open spec fn patrol_hash(key: RegionKey) -> u32 {
    (key.x.wrapping_mul(MIX_C as i32) ^ key.z.wrapping_mul(MIX_D as i32)) as u32
}

pub open spec fn settlement_present(key: RegionKey) -> bool {
    settlement_hash(key) % 100 < SETTLEMENT_THRESHOLD
}

pub open spec fn patrol_present(key: RegionKey) -> bool {
    patrol_hash(key) % 100 < PATROL_THRESHOLD
}

/// The seed of the random stream of `kind` in region `key`.
pub fn seed_for(key: RegionKey, kind: ContentKind) -> (r: u64)
    ensures
        r == content_seed(key, kind),
{
    let (mx, mz): (i64, i64) = match kind {
        ContentKind::Vegetation => (MIX_A, MIX_B),
        ContentKind::Rocks => (MIX_B, MIX_A),
        ContentKind::SkyObstacles => (MIX_C, MIX_D),
    };
    let x = key.x as i64;
    let z = key.z as i64;
    assert(-0x1000_0000_0000_0000 < x * mx < 0x1000_0000_0000_0000) by (nonlinear_arith)
        requires
            i32::MIN <= x <= i32::MAX,
            0 < mx < 0x1000_0000,
    ;
    assert(-0x1000_0000_0000_0000 < z * mz < 0x1000_0000_0000_0000) by (nonlinear_arith)
        requires
            i32::MIN <= z <= i32::MAX,
            0 < mz < 0x1000_0000,
    ;
    ((x * mx) ^ (z * mz)) as u64
}

/// The settlement hash of `key`.
pub fn settlement_bucket_hash(key: RegionKey) -> (r: u32)
    ensures
        r == settlement_hash(key),
{
    (key.x.wrapping_mul(MIX_A as i32) ^ key.z.wrapping_mul(MIX_B as i32)) as u32
}

/// The patrol hash of `key`.
pub fn patrol_bucket_hash(key: RegionKey) -> (r: u32)
    ensures
        r == patrol_hash(key),
{
    (key.x.wrapping_mul(MIX_C as i32) ^ key.z.wrapping_mul(MIX_D as i32)) as u32
}

/// Whether region `key` holds a settlement: its hash modulo 100 is strictly
/// below `SETTLEMENT_THRESHOLD`, so a bucket equal to the threshold holds none.
pub fn should_spawn_settlement(key: RegionKey) -> (r: bool)
    ensures
        r == settlement_present(key),
{
    settlement_bucket_hash(key) % 100 < SETTLEMENT_THRESHOLD
}

/// Whether region `key` seeds a patrol: its hash modulo 100 is strictly below
/// `PATROL_THRESHOLD`.
pub fn should_spawn_patrol(key: RegionKey) -> (r: bool)
    ensures
        r == patrol_present(key),
{
    patrol_bucket_hash(key) % 100 < PATROL_THRESHOLD
}

} // verus!
