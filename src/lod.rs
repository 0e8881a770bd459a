//! The detail gate: decorative objects far from the player are hidden.

use vstd::prelude::*;
use crate::region::WorldPoint;

verus! {

/// Objects farther than this from the player are hidden, in world units.
pub const HIDE_DISTANCE: i64 = 20_000;

#[derive(Clone, Copy, Debug, PartialEq, Eq, Structural)]
pub enum Visibility {
    Visible,
    Hidden,
}

pub open spec fn dist3_sq(a: WorldPoint, b: WorldPoint) -> int {
    (a.x - b.x) * (a.x - b.x) + (a.y - b.y) * (a.y - b.y) + (a.z - b.z) * (a.z - b.z)
}

/// Hidden exactly when the squared distance exceeds the squared hide distance.
pub open spec fn lod_target(player: WorldPoint, object: WorldPoint) -> Visibility {
    if dist3_sq(player, object) > HIDE_DISTANCE * HIDE_DISTANCE {
        Visibility::Hidden
    } else {
        Visibility::Visible
    }
}

/// `|a - b|` when it is at most the hide distance.
fn near_gap(a: i64, b: i64) -> (r: Option<i64>)
    ensures
        r matches Some(d) ==> 0 <= d <= HIDE_DISTANCE && d * d == (a - b) * (a - b),
        r is None ==> (a - b) * (a - b) > HIDE_DISTANCE * HIDE_DISTANCE,
{
    let d: i128 = a as i128 - b as i128;
    let m: i128 = if d < 0 { -d } else { d };
    if m > HIDE_DISTANCE as i128 {
        assert(m * m > 20_000 * 20_000) by (nonlinear_arith)
            requires
                m > 20_000,
        ;
        assert(m * m == d * d) by (nonlinear_arith)
            requires
                m == d || m == -d,
        ;
        None
    } else {
        assert(m * m == d * d) by (nonlinear_arith)
            requires
                m == d || m == -d,
        ;
        Some(m as i64)
    }
}

/// Whether `object` should show, seen from `player`.
pub fn lod_visibility(player: &WorldPoint, object: &WorldPoint) -> (r: Visibility)
    ensures
        r == lod_target(*player, *object),
{
    let gx = near_gap(player.x, object.x);
    let gy = near_gap(player.y, object.y);
    let gz = near_gap(player.z, object.z);
    match (gx, gy, gz) {
        (Some(dx), Some(dy), Some(dz)) => {
            assert(0 <= dx * dx <= 400_000_000 && 0 <= dy * dy <= 400_000_000 && 0 <= dz * dz
                <= 400_000_000) by (nonlinear_arith)
                requires
                    0 <= dx <= 20_000,
                    0 <= dy <= 20_000,
                    0 <= dz <= 20_000,
            ;
            if dx * dx + dy * dy + dz * dz > HIDE_DISTANCE * HIDE_DISTANCE {
                Visibility::Hidden
            } else {
                Visibility::Visible
            }
        },
        _ => {
            assert((player.x - object.x) * (player.x - object.x) >= 0 && (player.y - object.y) * (
            player.y - object.y) >= 0 && (player.z - object.z) * (player.z - object.z) >= 0)
                by (nonlinear_arith);
            Visibility::Hidden
        },
    }
}

/// The write the detail gate makes for an object now at `current`: none when
/// its visibility already matches, so that unchanged state is left alone.
pub fn lod_update(current: Visibility, player: &WorldPoint, object: &WorldPoint) -> (r: Option<
    Visibility,
>)
    ensures
        current == lod_target(*player, *object) ==> r is None,
        current != lod_target(*player, *object) ==> r == Some(lod_target(*player, *object)),
{
    let target = lod_visibility(player, object);
    if target == current {
        None
    } else {
        Some(target)
    }
}

} // verus!
