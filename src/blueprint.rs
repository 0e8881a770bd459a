//! Everything needed to materialise one region, computed before any of it is
//! handed to the scene, so that a region is either absent or complete.

use vstd::prelude::*;
use crate::region::{RegionKey, WorldPoint, REGION_EDGE};
use crate::mesher::{RegionGeometry, SlabCollider, GRID_SIDE, GRID_DIVISIONS, HALF_EDGE,
    SLAB_HALF_THICKNESS_MILLI, vertex_at, quad_indices, build_region_geometry};
use crate::populate::{PlacedObject, content_spec, populate};

verus! {

pub struct RegionBlueprint {
    pub key: RegionKey,
    pub origin: WorldPoint,
    pub geometry: RegionGeometry,
    pub content: Vec<PlacedObject>,
}

/// The terrain and content of region `key`, placed at its origin.
pub fn region_blueprint(key: RegionKey) -> (r: RegionBlueprint)
    ensures
        r.key == key,
        r.origin.x == key.x * REGION_EDGE,
        r.origin.y == 0,
        r.origin.z == key.z * REGION_EDGE,
        r.geometry.vertices@.len() == GRID_SIDE * GRID_SIDE,
        forall|i: int|
            0 <= i < r.geometry.vertices@.len() ==> #[trigger] r.geometry.vertices@[i] == vertex_at(key, i),
        r.geometry.indices@.len() == 6 * GRID_DIVISIONS * GRID_DIVISIONS,
        forall|row: int, col: int, j: int|
            0 <= row < GRID_DIVISIONS && 0 <= col < GRID_DIVISIONS && 0 <= j < 6
                ==> #[trigger] r.geometry.indices@[6 * (row * GRID_DIVISIONS + col) + j] == quad_indices(
                row,
                col,
            )[j],
        r.geometry.collider == Some(
            SlabCollider { half_extent: HALF_EDGE, half_thickness_milli: SLAB_HALF_THICKNESS_MILLI },
        ),
        r.content@ == content_spec(key),
{
    let origin = key.world_position();
    let geometry = build_region_geometry(key);
    let content = populate(key);
    RegionBlueprint { key, origin, geometry, content }
}

} // verus!
