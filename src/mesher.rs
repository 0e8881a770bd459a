//! The terrain grid of one region: sample points, triangle indices and the
//! coarse ground collider.

use vstd::prelude::*;
use crate::region::{RegionKey, REGION_EDGE};

verus! {

/// Subdivisions along each side of a region's grid.
pub const GRID_DIVISIONS: u32 = 20;

/// Vertices along each side of a region's grid.
pub const GRID_SIDE: u32 = 21;

/// Distance between neighbouring grid vertices, in world units.
pub const GRID_STEP: i64 = 50;

/// Texture repetitions across one region.
pub const UV_TILING: u32 = 10;

/// Half of a region's edge, in world units.
pub const HALF_EDGE: i64 = 500;

/// Half of the ground slab's thickness, in thousandths of a world unit.
pub const SLAB_HALF_THICKNESS_MILLI: i64 = 500;

/// One vertex of a region's grid. Local coordinates are relative to the
/// region's origin; the elevation is sampled at the world coordinates.
#[derive(Clone, Copy, Debug, PartialEq, Eq, Structural)]
pub struct GridVertex {
    pub row: u32,
    pub col: u32,
    pub local_x: i64,
    pub local_z: i64,
    pub world_x: i64,
    pub world_z: i64,
}

/// The flat box that stands in for the ground in the physics solver.
#[derive(Clone, Copy, Debug, PartialEq, Eq, Structural)]
pub struct SlabCollider {
    pub half_extent: i64,
    pub half_thickness_milli: i64,
}

/// A region's terrain: vertices in row-major order (rows along z), three
/// indices per triangle, and the ground collider if its extents are valid.
pub struct RegionGeometry {
    pub vertices: Vec<GridVertex>,
    pub indices: Vec<u32>,
    pub collider: Option<SlabCollider>,
}

pub open spec fn grid_vertex(key: RegionKey, row: int, col: int) -> GridVertex {
    let local_x = col * GRID_STEP - HALF_EDGE;
    let local_z = row * GRID_STEP - HALF_EDGE;
    GridVertex {
        row: row as u32,
        col: col as u32,
        local_x: local_x as i64,
        local_z: local_z as i64,
        world_x: (key.x * REGION_EDGE + local_x) as i64,
        world_z: (key.z * REGION_EDGE + local_z) as i64,
    }
}

/// The vertex stored at position `i` of the vertex list.
pub open spec fn vertex_at(key: RegionKey, i: int) -> GridVertex {
    grid_vertex(key, i / (GRID_SIDE as int), i % (GRID_SIDE as int))
}

/// The six indices of the quad whose lower corner is (`row`, `col`): two
/// triangles, `(i0, i2, i1)` and `(i1, i2, i3)`.
pub open spec fn quad_indices(row: int, col: int) -> Seq<u32> {
    let i0 = row * GRID_SIDE + col;
    seq![
        i0 as u32,
        (i0 + GRID_SIDE) as u32,
        (i0 + 1) as u32,
        (i0 + 1) as u32,
        (i0 + GRID_SIDE) as u32,
        (i0 + GRID_SIDE + 1) as u32,
    ]
}

/// The y component of `(b - a) x (c - a)`: positive when the triangle
/// `a, b, c` turns counter-clockwise seen from above.
pub open spec fn cross_up(a: GridVertex, b: GridVertex, c: GridVertex) -> int {
    (b.local_z - a.local_z) * (c.local_x - a.local_x) - (b.local_x - a.local_x) * (c.local_z - a.local_z)
}

/// The vertices of region `key`'s grid, row by row.
pub fn terrain_vertices(key: RegionKey) -> (r: Vec<GridVertex>)
    ensures
        r@.len() == GRID_SIDE * GRID_SIDE,
        forall|i: int| 0 <= i < r@.len() ==> #[trigger] r@[i] == vertex_at(key, i),
{
    let mut out: Vec<GridVertex> = Vec::new();
    let base_x: i64 = key.x as i64 * REGION_EDGE;
    let base_z: i64 = key.z as i64 * REGION_EDGE;
    let mut row: u32 = 0;
    while row <= GRID_DIVISIONS
        invariant
            row <= GRID_SIDE,
            base_x == key.x * REGION_EDGE,
            base_z == key.z * REGION_EDGE,
            out@.len() == row * GRID_SIDE,
            forall|i: int| 0 <= i < out@.len() ==> #[trigger] out@[i] == vertex_at(key, i),
        decreases GRID_SIDE - row,
    {
        let mut col: u32 = 0;
        while col <= GRID_DIVISIONS
            invariant
                row < GRID_SIDE,
                col <= GRID_SIDE,
                base_x == key.x * REGION_EDGE,
                base_z == key.z * REGION_EDGE,
                out@.len() == row * GRID_SIDE + col,
                forall|i: int| 0 <= i < out@.len() ==> #[trigger] out@[i] == vertex_at(key, i),
            decreases GRID_SIDE - col,
        {
            let local_x: i64 = col as i64 * GRID_STEP - HALF_EDGE;
            let local_z: i64 = row as i64 * GRID_STEP - HALF_EDGE;
            let v = GridVertex {
                row,
                col,
                local_x,
                local_z,
                world_x: base_x + local_x,
                world_z: base_z + local_z,
            };
            proof {
                let n = row * GRID_SIDE + col;
                vstd::arithmetic::div_mod::lemma_fundamental_div_mod_converse(
                    n as int,
                    GRID_SIDE as int,
                    row as int,
                    col as int,
                );
            }
            out.push(v);
            col += 1;
        }
        row += 1;
    }
    out
}

/// The index list of the grid: for quad `q` (row `q / 20`, column `q % 20`),
/// positions `6q .. 6q + 6` hold `quad_indices` of that quad.
pub fn terrain_indices() -> (r: Vec<u32>)
    ensures
        r@.len() == 6 * GRID_DIVISIONS * GRID_DIVISIONS,
        forall|row: int, col: int, j: int|
            0 <= row < GRID_DIVISIONS && 0 <= col < GRID_DIVISIONS && 0 <= j < 6 ==> #[trigger] r@[6
                * (row * GRID_DIVISIONS + col) + j] == quad_indices(row, col)[j],
        forall|i: int| 0 <= i < r@.len() ==> #[trigger] r@[i] < GRID_SIDE * GRID_SIDE,
{
    let mut out: Vec<u32> = Vec::new();
    let mut row: u32 = 0;
    while row < GRID_DIVISIONS
        invariant
            row <= GRID_DIVISIONS,
            out@.len() == 6 * (row * GRID_DIVISIONS),
            forall|r2: int, c2: int, j: int|
                0 <= r2 < row && 0 <= c2 < GRID_DIVISIONS && 0 <= j < 6 ==> #[trigger] out@[6 * (r2
                    * GRID_DIVISIONS + c2) + j] == quad_indices(r2, c2)[j],
            forall|i: int| 0 <= i < out@.len() ==> #[trigger] out@[i] < GRID_SIDE * GRID_SIDE,
        decreases GRID_DIVISIONS - row,
    {
        let mut col: u32 = 0;
        while col < GRID_DIVISIONS
            invariant
                row < GRID_DIVISIONS,
                col <= GRID_DIVISIONS,
                out@.len() == 6 * (row * GRID_DIVISIONS + col),
                forall|r2: int, c2: int, j: int|
                    0 <= r2 < GRID_DIVISIONS && 0 <= c2 < GRID_DIVISIONS && 0 <= j < 6 && (r2 < row
                        || (r2 == row && c2 < col)) ==> #[trigger] out@[6 * (r2 * GRID_DIVISIONS + c2)
                        + j] == quad_indices(r2, c2)[j],
                forall|i: int| 0 <= i < out@.len() ==> #[trigger] out@[i] < GRID_SIDE * GRID_SIDE,
            decreases GRID_DIVISIONS - col,
        {
            let i0: u32 = row * GRID_SIDE + col;
            let i1: u32 = i0 + 1;
            let i2: u32 = i0 + GRID_SIDE;
            let i3: u32 = i2 + 1;
            let ghost start = out@.len();
            out.push(i0);
            out.push(i2);
            out.push(i1);
            out.push(i1);
            out.push(i2);
            out.push(i3);
            proof {
                assert(start == 6 * (row * GRID_DIVISIONS + col));
                assert forall|r2: int, c2: int, j: int|
                    0 <= r2 < GRID_DIVISIONS && 0 <= c2 < GRID_DIVISIONS && 0 <= j < 6 && (r2 < row
                        || (r2 == row && c2 < col + 1)) implies #[trigger] out@[6 * (r2
                    * GRID_DIVISIONS + c2) + j] == quad_indices(r2, c2)[j] by {
                    if r2 == row && c2 == col {
                    } else {
                        assert(6 * (r2 * GRID_DIVISIONS + c2) + j < start) by (nonlinear_arith)
                            requires
                                r2 < row || (r2 == row && c2 < col),
                                0 <= c2 < 20,
                                0 <= j < 6,
                                start == 6 * (row * 20 + col),
                        ;
                    }
                }
            }
            col += 1;
        }
        row += 1;
    }
    out
}

/// The ground collider: half the region's edge across, a thin slab high.
/// Extents that are not positive give no collider.
pub fn ground_collider() -> (r: Option<SlabCollider>)
    ensures
        r == Some(SlabCollider { half_extent: HALF_EDGE, half_thickness_milli: SLAB_HALF_THICKNESS_MILLI }),
{
    let half_extent: i64 = REGION_EDGE / 2;
    let half_thickness_milli: i64 = SLAB_HALF_THICKNESS_MILLI;
    if half_extent > 0 && half_thickness_milli > 0 {
        Some(SlabCollider { half_extent, half_thickness_milli })
    } else {
        None
    }
}

/// The terrain of region `key`.
pub fn build_region_geometry(key: RegionKey) -> (r: RegionGeometry)
    ensures
        r.vertices@.len() == GRID_SIDE * GRID_SIDE,
        forall|i: int| 0 <= i < r.vertices@.len() ==> #[trigger] r.vertices@[i] == vertex_at(key, i),
        r.indices@.len() == 6 * GRID_DIVISIONS * GRID_DIVISIONS,
        forall|row: int, col: int, j: int|
            0 <= row < GRID_DIVISIONS && 0 <= col < GRID_DIVISIONS && 0 <= j < 6 ==> #[trigger] r.indices@[6
                * (row * GRID_DIVISIONS + col) + j] == quad_indices(row, col)[j],
        forall|i: int| 0 <= i < r.indices@.len() ==> #[trigger] r.indices@[i] < GRID_SIDE * GRID_SIDE,
        r.collider == Some(SlabCollider { half_extent: HALF_EDGE, half_thickness_milli: SLAB_HALF_THICKNESS_MILLI }),
{
    RegionGeometry { vertices: terrain_vertices(key), indices: terrain_indices(), collider: ground_collider() }
}

/// Both triangles of every quad turn counter-clockwise seen from above, so
/// their front faces point up.
pub proof fn lemma_triangles_face_up(key: RegionKey, row: int, col: int)
    requires
        0 <= row < GRID_DIVISIONS,
        0 <= col < GRID_DIVISIONS,
    ensures
        ({
            let q = quad_indices(row, col);
            &&& cross_up(vertex_at(key, q[0] as int), vertex_at(key, q[1] as int), vertex_at(key, q[2] as int)) > 0
            &&& cross_up(vertex_at(key, q[3] as int), vertex_at(key, q[4] as int), vertex_at(key, q[5] as int)) > 0
        }),
{
    let side = GRID_SIDE as int;
    let i0 = row * side + col;
    vstd::arithmetic::div_mod::lemma_fundamental_div_mod_converse(i0, side, row, col);
    vstd::arithmetic::div_mod::lemma_fundamental_div_mod_converse(i0 + 1, side, row, col + 1);
    vstd::arithmetic::div_mod::lemma_fundamental_div_mod_converse(i0 + side, side, row + 1, col);
    vstd::arithmetic::div_mod::lemma_fundamental_div_mod_converse(i0 + side + 1, side, row + 1, col + 1);
    let q = quad_indices(row, col);
    assert(q[0] as int == i0 && q[1] as int == i0 + side && q[2] as int == i0 + 1);
    assert(q[3] as int == i0 + 1 && q[4] as int == i0 + side && q[5] as int == i0 + side + 1);
    let v0 = vertex_at(key, i0);
    let v1 = vertex_at(key, i0 + 1);
    let v2 = vertex_at(key, i0 + side);
    let v3 = vertex_at(key, i0 + side + 1);
    assert(v0.local_x == col * 50 - 500 && v0.local_z == row * 50 - 500);
    assert(v1.local_x == col * 50 - 450 && v1.local_z == row * 50 - 500);
    assert(v2.local_x == col * 50 - 500 && v2.local_z == row * 50 - 450);
    assert(v3.local_x == col * 50 - 450 && v3.local_z == row * 50 - 450);
    let (c, r) = (col * 50, row * 50);
    assert(cross_up(v0, v2, v1) == 2500) by (nonlinear_arith)
        requires
            v0.local_x == c - 500 && v0.local_z == r - 500,
            v1.local_x == c - 450 && v1.local_z == r - 500,
            v2.local_x == c - 500 && v2.local_z == r - 450,
    ;
    assert(cross_up(v1, v2, v3) == 2500) by (nonlinear_arith)
        requires
            v1.local_x == c - 450 && v1.local_z == r - 500,
            v2.local_x == c - 500 && v2.local_z == r - 450,
            v3.local_x == c - 450 && v3.local_z == r - 450,
    ;
}

/// Two regions side by side along x sample the same world points along their
/// shared edge: the last column of the western grid is the first column of
/// the eastern one. Since the elevation depends on world coordinates alone,
/// the edge heights agree.
pub proof fn lemma_shared_edge_along_x(a: RegionKey, b: RegionKey, row: int)
    requires
        b.x == a.x + 1,
        b.z == a.z,
        0 <= row <= GRID_DIVISIONS,
    ensures
        grid_vertex(a, row, GRID_DIVISIONS as int).world_x == grid_vertex(b, row, 0).world_x,
        grid_vertex(a, row, GRID_DIVISIONS as int).world_z == grid_vertex(b, row, 0).world_z,
{
}

/// Two regions side by side along z sample the same world points along their
/// shared edge: the last row of the southern grid is the first row of the
/// northern one.
pub proof fn lemma_shared_edge_along_z(a: RegionKey, b: RegionKey, col: int)
    requires
        b.z == a.z + 1,
        b.x == a.x,
        0 <= col <= GRID_DIVISIONS,
    ensures
        grid_vertex(a, GRID_DIVISIONS as int, col).world_x == grid_vertex(b, 0, col).world_x,
        grid_vertex(a, GRID_DIVISIONS as int, col).world_z == grid_vertex(b, 0, col).world_z,
{
}

} // verus!
