//! Region keys: the integer lattice that partitions the world plane.

use vstd::prelude::*;

verus! {

/// Edge length of one square region, in world units.
pub const REGION_EDGE: i64 = 1000;

/// A point of the world, in whole world units (`y` is up).
#[derive(Clone, Copy, Debug, PartialEq, Eq, Structural)]
pub struct WorldPoint {
    pub x: i64,
    pub y: i64,
    pub z: i64,
}

/// Lattice coordinates of one region.
#[derive(Clone, Copy, Debug, PartialEq, Eq, Hash, Structural)]
pub struct RegionKey {
    pub x: i32,
    pub z: i32,
}

/// `v` held to the range of `i32`, as a float-to-integer cast saturates.
pub open spec fn saturate_i32(v: int) -> int {
    if v < i32::MIN {
        i32::MIN as int
    } else if v > i32::MAX {
        i32::MAX as int
    } else {
        v
    }
}

/// Index of the lattice cell holding world coordinate `w`: floor of `w / REGION_EDGE`.
pub open spec fn cell_of(w: int) -> int {
    saturate_i32(w / (REGION_EDGE as int))
}

/// Squared lattice distance between two keys.
pub open spec fn dist_sq(a: RegionKey, b: RegionKey) -> int {
    (a.x - b.x) * (a.x - b.x) + (a.z - b.z) * (a.z - b.z)
}

fn cell_index(w: i64) -> (r: i32)
    ensures
        r == cell_of(w as int),
{
    match w.checked_div_euclid(REGION_EDGE) {
        Some(q) => {
            if q < i32::MIN as i64 {
                i32::MIN
            } else if q > i32::MAX as i64 {
                i32::MAX
            } else {
                q as i32
            }
        },
        None => 0,
    }
}

impl RegionKey {
    pub fn new(x: i32, z: i32) -> (r: RegionKey)
        ensures
            r.x == x,
            r.z == z,
    {
        RegionKey { x, z }
    }

    /// The region holding world position (`x`, `z`).
    pub fn from_world_units(x: i64, z: i64) -> (r: RegionKey)
        ensures
            r.x == cell_of(x as int),
            r.z == cell_of(z as int),
    {
        RegionKey { x: cell_index(x), z: cell_index(z) }
    }

    /// The region holding a world point; its height plays no part.
    pub fn from_world_pos(p: WorldPoint) -> (r: RegionKey)
        ensures
            r.x == cell_of(p.x as int),
            r.z == cell_of(p.z as int),
    {
        RegionKey::from_world_units(p.x, p.z)
    }

    /// The world point at the region's origin: `(x * EDGE, 0, z * EDGE)`.
    pub fn world_position(&self) -> (r: WorldPoint)
        ensures
            r.x == self.x * REGION_EDGE,
            r.y == 0,
            r.z == self.z * REGION_EDGE,
    {
        assert(-0x8000_0000_0000 <= self.x * REGION_EDGE <= 0x8000_0000_0000) by (nonlinear_arith)
            requires
                i32::MIN <= self.x <= i32::MAX,
        ;
        assert(-0x8000_0000_0000 <= self.z * REGION_EDGE <= 0x8000_0000_0000) by (nonlinear_arith)
            requires
                i32::MIN <= self.z <= i32::MAX,
        ;
        WorldPoint { x: self.x as i64 * REGION_EDGE, y: 0, z: self.z as i64 * REGION_EDGE }
    }

    /// Squared lattice distance to `other`.
    pub fn distance_sq(&self, other: &RegionKey) -> (r: u128)
        ensures
            r == dist_sq(*self, *other),
    {
        let dx: i64 = self.x as i64 - other.x as i64;
        let dz: i64 = self.z as i64 - other.z as i64;
        let ax: u128 = if dx < 0 { (-dx) as u128 } else { dx as u128 };
        let az: u128 = if dz < 0 { (-dz) as u128 } else { dz as u128 };
        assert(ax * ax < 0x1_0000_0000_0000_0000 && az * az < 0x1_0000_0000_0000_0000) by (nonlinear_arith)
            requires
                ax < 0x1_0000_0000,
                az < 0x1_0000_0000,
        ;
        assert(ax * ax == dx * dx && az * az == dz * dz) by (nonlinear_arith)
            requires
                ax == dx || ax == -dx,
                az == dz || az == -dz,
        ;
        ax * ax + az * az
    }
}

} // verus!
