//! Seam-aware chunk mesh construction.
//!
//! A chunk mesh is a regular vertex grid over the chunk's world footprint.
//! Vertex heights come from the chunk's own tile, except along the shared
//! edges: the rightmost column interpolates the right neighbor's first
//! column at exactly the rational row the neighbor's own leftmost column
//! uses, the topmost row does the same with the up neighbor's first row,
//! and the top-right corner reads the up-right neighbor's corner sample —
//! so two adjacent chunks built with both tiles present meet bit-exactly
//! at their shared vertices, whatever the grid and tile resolutions.
//! When a needed neighbor is absent the edge falls back to clamped in-tile
//! sampling, accepting a possible visible seam instead of failing.
//!
//! Per-vertex slope numerators are central height differences one grid step
//! away in each axis; the host divides by the world-space step and
//! normalizes, which is the only floating-point work left to it.
//!
//! A chunk whose own tile is unavailable still builds: it yields a flat
//! single-quad mesh covering the footprint, with an upward normal.

use vstd::prelude::*;

use crate::config::{
    spec_chunk_origin, ChunkKey, HeightFieldConfig, COORD_LIMIT, HEIGHT_ONE,
};
use crate::lod::{LodConfig, LodTier};
use crate::sample::{spec_bilinear_num, spec_height_from_raw, bilinear_num, height_from_raw};
use crate::tile::{Tile, TileView};

verus! {

/// One mesh vertex: fixed-point world position and the central height
/// differences used for the normal estimate.
#[derive(Clone, Copy, Debug, PartialEq, Eq, Structural)]
pub struct MeshVertex {
    /// World position, in `HEIGHT_ONE` fixed-point steps per world unit.
    pub x_fp: i64,
    pub y_fp: i64,
    pub z_fp: i64,
    /// Height difference between the clamped right and left grid neighbors.
    pub dhx_fp: i64,
    /// Height difference between the clamped up and down grid neighbors.
    pub dhz_fp: i64,
}

/// A triangle mesh for one chunk: a `grid_x` by `grid_z` vertex lattice in
/// row-major order, two triangles per cell, and the chunk's world bounds.
pub struct ChunkMesh {
    pub grid_x: u32,
    pub grid_z: u32,
    pub vertices: Vec<MeshVertex>,
    pub indices: Vec<u32>,
    /// World-space footprint, in world units.
    pub min_x: i64,
    pub min_z: i64,
    pub max_x: i64,
    pub max_z: i64,
}

/// The view of an optional borrowed tile.
pub open spec fn opt_view(t: Option<&Tile>) -> Option<TileView> {
    match t {
        Some(t) => Some(t@),
        None => None,
    }
}

/// The interpolated raw-sample numerator for grid vertex `(i, j)` of an
/// `nx` by `nz` grid, over the implicit denominator `(nx-1) * (nz-1)`,
/// following the seam rule described in the module documentation.
pub open spec fn spec_vertex_raw_num(
    cfg: HeightFieldConfig,
    own: TileView,
    right: Option<TileView>,
    up: Option<TileView>,
    up_right: Option<TileView>,
    nx: int,
    nz: int,
    i: int,
    j: int,
) -> int {
    let mx = own.res_x - 1;
    let mz = own.res_z - 1;
    let dx = nx - 1;
    let dz = nz - 1;
    if i == dx && j == dz && up_right is Some {
        (up_right->0.sample(0, 0) as int) * (dx * dz)
    } else if i == dx && j != dz && right is Some {
        spec_bilinear_num(right->0, 0, dx, j * mz, dz)
    } else if j == dz && i != dx && up is Some {
        spec_bilinear_num(up->0, i * mx, dx, 0, dz)
    } else {
        spec_bilinear_num(own, i * mx, dx, j * mz, dz)
    }
}

/// The fixed-point height of grid vertex `(i, j)`.
pub open spec fn spec_vertex_height(
    cfg: HeightFieldConfig,
    own: TileView,
    right: Option<TileView>,
    up: Option<TileView>,
    up_right: Option<TileView>,
    nx: int,
    nz: int,
    i: int,
    j: int,
) -> int {
    spec_height_from_raw(
        cfg,
        spec_vertex_raw_num(cfg, own, right, up, up_right, nx, nz, i, j),
        (nx - 1) * (nz - 1),
    )
}

/// The fixed-point X position of grid column `i`.
pub open spec fn spec_vertex_x(cfg: HeightFieldConfig, key: ChunkKey, nx: int, i: int) -> int {
    spec_chunk_origin(cfg, key).0 * HEIGHT_ONE + (i * cfg.chunk_x * HEIGHT_ONE) / (nx - 1)
}

/// The fixed-point Z position of grid row `j`.
pub open spec fn spec_vertex_z(cfg: HeightFieldConfig, key: ChunkKey, nz: int, j: int) -> int {
    spec_chunk_origin(cfg, key).1 * HEIGHT_ONE + (j * cfg.chunk_z * HEIGHT_ONE) / (nz - 1)
}

/// The expected mesh vertex `(i, j)`: position, seam-aware height, and
/// central height differences with clamped grid neighbors.
pub open spec fn spec_mesh_vertex(
    cfg: HeightFieldConfig,
    key: ChunkKey,
    own: TileView,
    right: Option<TileView>,
    up: Option<TileView>,
    up_right: Option<TileView>,
    nx: int,
    nz: int,
    i: int,
    j: int,
) -> MeshVertex {
    let il = if i - 1 >= 0 { i - 1 } else { 0 };
    let ir = if i + 1 <= nx - 1 { i + 1 } else { nx - 1 };
    let jd = if j - 1 >= 0 { j - 1 } else { 0 };
    let ju = if j + 1 <= nz - 1 { j + 1 } else { nz - 1 };
    MeshVertex {
        x_fp: spec_vertex_x(cfg, key, nx, i) as i64,
        y_fp: spec_vertex_height(cfg, own, right, up, up_right, nx, nz, i, j) as i64,
        z_fp: spec_vertex_z(cfg, key, nz, j) as i64,
        dhx_fp: (spec_vertex_height(cfg, own, right, up, up_right, nx, nz, ir, j)
            - spec_vertex_height(cfg, own, right, up, up_right, nx, nz, il, j)) as i64,
        dhz_fp: (spec_vertex_height(cfg, own, right, up, up_right, nx, nz, i, ju)
            - spec_vertex_height(cfg, own, right, up, up_right, nx, nz, i, jd)) as i64,
    }
}

/// The `k`-th corner (0..6) of grid cell `c`, for the fixed
/// two-triangles-per-cell pattern with fixed winding. Cells are numbered
/// row-major over the `(nx - 1)` by `(nz - 1)` cell lattice.
pub open spec fn spec_tri_index(nx: int, c: int, k: int) -> int {
    let ci = c % (nx - 1);
    let cj = c / (nx - 1);
    if k == 0 {
        cj * nx + ci
    } else if k == 1 {
        (cj + 1) * nx + ci
    } else if k == 2 {
        cj * nx + ci + 1
    } else if k == 3 {
        cj * nx + ci + 1
    } else if k == 4 {
        (cj + 1) * nx + ci
    } else {
        (cj + 1) * nx + ci + 1
    }
}

/// The triangle index list is the fixed two-triangles-per-cell pattern over
/// the vertex lattice.
pub open spec fn spec_grid_indices_ok(indices: Seq<u32>, nx: int, nz: int) -> bool {
    &&& indices.len() == 6 * ((nx - 1) * (nz - 1))
    &&& forall|p: int|
        0 <= p < indices.len() ==> #[trigger] indices[p] == spec_tri_index(nx, p / 6, p % 6)
}

/// Well-formed tiles for a build: every present tile matches the configured
/// resolution.
pub open spec fn spec_tiles_ok(cfg: HeightFieldConfig, t: Option<TileView>) -> bool {
    match t {
        Some(v) => v.wf() && v.res_x == cfg.tile_res_x && v.res_z == cfg.tile_res_z,
        None => true,
    }
}

/// Seam continuity. Take two horizontally adjacent chunks, built at the
/// same tier, with the shared tile present on both sides: the right
/// neighbor tile of the left build is the own tile of the right build.
/// Every non-corner vertex on the left chunk's rightmost column has the
/// same world position and the same height as the matching vertex on the
/// right chunk's leftmost column — for every grid and tile resolution,
/// whatever other neighbor tiles either build saw: both sides interpolate
/// the same column of the shared tile at the same rational row.
pub proof fn lemma_seam_continuity(
    cfg: HeightFieldConfig,
    left_key: ChunkKey,
    right_key: ChunkKey,
    own_left: TileView,
    shared: TileView,
    up_left: Option<TileView>,
    ur_left: Option<TileView>,
    right_of_right: Option<TileView>,
    up_of_right: Option<TileView>,
    ur_of_right: Option<TileView>,
    nx: int,
    nz: int,
    j: int,
)
    requires
        cfg.wf(),
        spec_tiles_ok(cfg, Some(own_left)),
        spec_tiles_ok(cfg, Some(shared)),
        right_key.cx == left_key.cx + 1,
        right_key.cz == left_key.cz,
        2 <= nx <= crate::config::RES_LIMIT,
        2 <= nz <= crate::config::RES_LIMIT,
        0 <= j < nz - 1,
    ensures
        spec_vertex_height(cfg, own_left, Some(shared), up_left, ur_left, nx, nz, nx - 1, j)
            == spec_vertex_height(
            cfg,
            shared,
            right_of_right,
            up_of_right,
            ur_of_right,
            nx,
            nz,
            0,
            j,
        ),
        spec_vertex_x(cfg, left_key, nx, nx - 1) == spec_vertex_x(cfg, right_key, nx, 0),
        spec_vertex_z(cfg, left_key, nz, j) == spec_vertex_z(cfg, right_key, nz, j),
{
    let mx = (cfg.tile_res_x - 1) as int;
    let mz = (cfg.tile_res_z - 1) as int;
    let dx = nx - 1;
    let dz = nz - 1;
    // Both sides interpolate the shared tile's first column at the same
    // rational row j * mz / dz: the left build through its seam rule, the
    // right build through its ordinary in-tile sampling at column 0.
    let left_raw = spec_vertex_raw_num(
        cfg,
        own_left,
        Some(shared),
        up_left,
        ur_left,
        nx,
        nz,
        nx - 1,
        j,
    );
    assert(left_raw == spec_bilinear_num(shared, 0, dx, j * mz, dz));
    let right_raw = spec_vertex_raw_num(
        cfg,
        shared,
        right_of_right,
        up_of_right,
        ur_of_right,
        nx,
        nz,
        0,
        j,
    );
    assert(0 * mx == 0) by (nonlinear_arith);
    assert(right_raw == spec_bilinear_num(shared, 0, dx, j * mz, dz));
    assert(left_raw == right_raw);
    // Positions: the left column nx-1 sits exactly one chunk width right of
    // the left chunk's origin, which is the right chunk's origin.
    assert((dx * (cfg.chunk_x as int)) * (HEIGHT_ONE as int) == dx * ((cfg.chunk_x as int)
        * (HEIGHT_ONE as int))) by (nonlinear_arith);
    vstd::arithmetic::div_mod::lemma_div_multiples_vanish(
        (cfg.chunk_x as int) * (HEIGHT_ONE as int),
        dx,
    );
    assert((dx * (cfg.chunk_x as int) * (HEIGHT_ONE as int)) / dx == (cfg.chunk_x as int)
        * (HEIGHT_ONE as int));
    assert((right_key.cx as int) * (cfg.chunk_x as int) == (left_key.cx as int)
        * (cfg.chunk_x as int) + cfg.chunk_x) by (nonlinear_arith)
        requires right_key.cx == left_key.cx + 1;
    assert((0 * (cfg.chunk_x as int)) * (HEIGHT_ONE as int) == 0) by (nonlinear_arith);
    vstd::arithmetic::div_mod::lemma_fundamental_div_mod_converse_div(0, dx, 0, 0);
    assert(spec_vertex_x(cfg, left_key, nx, nx - 1) == spec_vertex_x(cfg, right_key, nx, 0))
        by (nonlinear_arith)
        requires
            spec_vertex_x(cfg, left_key, nx, nx - 1) == (cfg.origin_x + (left_key.cx as int)
                * (cfg.chunk_x as int)) * (HEIGHT_ONE as int) + ((nx - 1) * (cfg.chunk_x as int)
                * (HEIGHT_ONE as int)) / (nx - 1),
            spec_vertex_x(cfg, right_key, nx, 0) == (cfg.origin_x + (right_key.cx as int)
                * (cfg.chunk_x as int)) * (HEIGHT_ONE as int) + (0 * (cfg.chunk_x as int)
                * (HEIGHT_ONE as int)) / (nx - 1),
            ((nx - 1) * (cfg.chunk_x as int) * (HEIGHT_ONE as int)) / (nx - 1) == (cfg.chunk_x
                as int) * (HEIGHT_ONE as int),
            (0 * (cfg.chunk_x as int) * (HEIGHT_ONE as int)) / (nx - 1) == 0,
            (right_key.cx as int) * (cfg.chunk_x as int) == (left_key.cx as int) * (cfg.chunk_x
                as int) + cfg.chunk_x,
    ;
}

/// The seam-aware height of grid vertex `(i, j)`; see
/// [`spec_vertex_height`].
fn vertex_height(
    cfg: &HeightFieldConfig,
    own: &Tile,
    right: Option<&Tile>,
    up: Option<&Tile>,
    up_right: Option<&Tile>,
    nx: u32,
    nz: u32,
    i: u32,
    j: u32,
) -> (h: i64)
    requires
        cfg.wf(),
        spec_tiles_ok(*cfg, Some(own@)),
        spec_tiles_ok(*cfg, opt_view(right)),
        spec_tiles_ok(*cfg, opt_view(up)),
        spec_tiles_ok(*cfg, opt_view(up_right)),
        2 <= nx <= crate::config::RES_LIMIT,
        2 <= nz <= crate::config::RES_LIMIT,
        i < nx,
        j < nz,
    ensures
        h == spec_vertex_height(
            *cfg,
            own@,
            opt_view(right),
            opt_view(up),
            opt_view(up_right),
            nx as int,
            nz as int,
            i as int,
            j as int,
        ),
        0 <= h <= cfg.height_scale * HEIGHT_ONE,
{
    let mx: i64 = own.res_x as i64 - 1;
    let mz: i64 = own.res_z as i64 - 1;
    let dx: i64 = nx as i64 - 1;
    let dz: i64 = nz as i64 - 1;
    proof {
        assert(1 <= dx * dz <= 0x400_0000int && dx * dz <= 0x1_0000_0000int) by (nonlinear_arith)
            requires 1 <= dx <= 0x2000, 1 <= dz <= 0x2000;
    }
    let den: i64 = dx * dz;
    let raw_num: i64 = if i as i64 == dx && j as i64 == dz && up_right.is_some() {
        let t = up_right.unwrap();
        let s = t.get_clamped(0, 0) as i64;
        proof {
            assert(0 <= s * den <= 65535 * den) by (nonlinear_arith)
                requires 0 <= s <= 65535, 1 <= den;
        }
        s * den
    } else if i as i64 == dx && j as i64 != dz && right.is_some() {
        let t = right.unwrap();
        proof {
            assert(0 <= (j as int) * mz <= dz * mz) by (nonlinear_arith)
                requires 0 <= j <= dz, 0 <= mz;
            assert(0 <= (j as int) * mz <= 0x400_0000int) by (nonlinear_arith)
                requires 0 <= j <= 0x2000, 0 <= mz <= 0x2000;
            assert(0 <= dx * mx) by (nonlinear_arith)
                requires 0 <= dx, 0 <= mx;
        }
        bilinear_num(t, 0, dx, j as i64 * mz, dz)
    } else if j as i64 == dz && i as i64 != dx && up.is_some() {
        let t = up.unwrap();
        proof {
            assert(0 <= (i as int) * mx <= dx * mx) by (nonlinear_arith)
                requires 0 <= i <= dx, 0 <= mx;
            assert(0 <= (i as int) * mx <= 0x400_0000int) by (nonlinear_arith)
                requires 0 <= i <= 0x2000, 0 <= mx <= 0x2000;
            assert(0 <= dz * mz) by (nonlinear_arith)
                requires 0 <= dz, 0 <= mz;
        }
        bilinear_num(t, i as i64 * mx, dx, 0, dz)
    } else {
        proof {
            assert(0 <= (i as int) * mx <= dx * mx && 0 <= (j as int) * mz <= dz * mz)
                by (nonlinear_arith)
                requires 0 <= i <= dx, 0 <= j <= dz, 0 <= mx, 0 <= mz;
            assert(0 <= (i as int) * mx <= 0x400_0000int) by (nonlinear_arith)
                requires 0 <= i <= 0x2000, 0 <= mx <= 0x2000;
            assert(0 <= (j as int) * mz <= 0x400_0000int) by (nonlinear_arith)
                requires 0 <= j <= 0x2000, 0 <= mz <= 0x2000;
        }
        bilinear_num(own, i as i64 * mx, dx, j as i64 * mz, dz)
    };
    height_from_raw(cfg, raw_num, den)
}

/// Build the triangle mesh for chunk `key` at `tier`.
///
/// With the chunk's own tile present the mesh is the tier's full vertex
/// grid with seam-aware heights and central-difference slope numerators;
/// with the own tile absent it degrades to a flat single quad over the
/// chunk's footprint with an upward normal — the build never fails.
pub fn build_chunk(
    cfg: &HeightFieldConfig,
    lod: &LodConfig,
    key: ChunkKey,
    tier: LodTier,
    own: Option<&Tile>,
    right: Option<&Tile>,
    up: Option<&Tile>,
    up_right: Option<&Tile>,
) -> (m: ChunkMesh)
    requires
        cfg.wf(),
        lod.wf(),
        crate::config::spec_chunk_in_bounds(key, crate::config::ChunkCounts {
            x: cfg.spec_counts().0 as i64,
            z: cfg.spec_counts().1 as i64,
        }),
        spec_tiles_ok(*cfg, opt_view(own)),
        spec_tiles_ok(*cfg, opt_view(right)),
        spec_tiles_ok(*cfg, opt_view(up)),
        spec_tiles_ok(*cfg, opt_view(up_right)),
    ensures
        m.min_x == spec_chunk_origin(*cfg, key).0,
        m.min_z == spec_chunk_origin(*cfg, key).1,
        m.max_x == m.min_x + cfg.chunk_x,
        m.max_z == m.min_z + cfg.chunk_z,
        m.vertices@.len() == (m.grid_x as int) * (m.grid_z as int),
        spec_grid_indices_ok(m.indices@, m.grid_x as int, m.grid_z as int),
        match own {
            Some(t) => {
                &&& m.grid_x == lod.spec_grid_res(tier)
                &&& m.grid_z == lod.spec_grid_res(tier)
                &&& forall|v: int|
                    0 <= v < m.vertices@.len() ==> #[trigger] m.vertices@[v] == spec_mesh_vertex(
                        *cfg,
                        key,
                        t@,
                        opt_view(right),
                        opt_view(up),
                        opt_view(up_right),
                        m.grid_x as int,
                        m.grid_z as int,
                        v % (m.grid_x as int),
                        v / (m.grid_x as int),
                    )
            },
            None => {
                &&& m.grid_x == 2
                &&& m.grid_z == 2
                &&& m.vertices@.len() == 4
                &&& forall|v: int|
                    0 <= v < 4 ==> {
                        &&& (#[trigger] m.vertices@[v]).y_fp == 0
                        &&& m.vertices@[v].dhx_fp == 0
                        &&& m.vertices@[v].dhz_fp == 0
                    }
                &&& m.vertices@[0].x_fp == m.min_x * HEIGHT_ONE
                &&& m.vertices@[0].z_fp == m.min_z * HEIGHT_ONE
                &&& m.vertices@[1].x_fp == m.max_x * HEIGHT_ONE
                &&& m.vertices@[1].z_fp == m.min_z * HEIGHT_ONE
                &&& m.vertices@[2].x_fp == m.min_x * HEIGHT_ONE
                &&& m.vertices@[2].z_fp == m.max_z * HEIGHT_ONE
                &&& m.vertices@[3].x_fp == m.max_x * HEIGHT_ONE
                &&& m.vertices@[3].z_fp == m.max_z * HEIGHT_ONE
            },
        },
{
    let (min_x, min_z, max_x, max_z) = crate::config::chunk_world_aabb(cfg, key);
    match own {
        None => {
            let mut vertices: Vec<MeshVertex> = Vec::new();
            vertices.push(
                MeshVertex {
                    x_fp: min_x * HEIGHT_ONE,
                    y_fp: 0,
                    z_fp: min_z * HEIGHT_ONE,
                    dhx_fp: 0,
                    dhz_fp: 0,
                },
            );
            vertices.push(
                MeshVertex {
                    x_fp: max_x * HEIGHT_ONE,
                    y_fp: 0,
                    z_fp: min_z * HEIGHT_ONE,
                    dhx_fp: 0,
                    dhz_fp: 0,
                },
            );
            vertices.push(
                MeshVertex {
                    x_fp: min_x * HEIGHT_ONE,
                    y_fp: 0,
                    z_fp: max_z * HEIGHT_ONE,
                    dhx_fp: 0,
                    dhz_fp: 0,
                },
            );
            vertices.push(
                MeshVertex {
                    x_fp: max_x * HEIGHT_ONE,
                    y_fp: 0,
                    z_fp: max_z * HEIGHT_ONE,
                    dhx_fp: 0,
                    dhz_fp: 0,
                },
            );
            let mut indices: Vec<u32> = Vec::new();
            indices.push(0);
            indices.push(2);
            indices.push(1);
            indices.push(1);
            indices.push(2);
            indices.push(3);
            proof {
                assert forall|p: int| 0 <= p < indices@.len() implies #[trigger] indices@[p]
                    == spec_tri_index(2, p / 6, p % 6) by {
                    assert(p / 6 == 0 && p % 6 == p);
                }
            }
            let m = ChunkMesh {
                grid_x: 2,
                grid_z: 2,
                vertices,
                indices,
                min_x,
                min_z,
                max_x,
                max_z,
            };
            proof {
                assert(m.vertices@.len() == 4);
                assert(m.grid_x == 2 && m.grid_z == 2);
                assert((m.grid_x as int) * (m.grid_z as int) == 4);
                assert(spec_grid_indices_ok(m.indices@, 2, 2));
            }
            m
        },
        Some(t) => {
            let n: u32 = lod.grid_res(tier);
            let nx = n;
            let nz = n;
            let dx: i64 = nx as i64 - 1;
            let dz: i64 = nz as i64 - 1;
            let mut vertices: Vec<MeshVertex> = Vec::new();
            let mut j: u32 = 0;
            while j < nz
                invariant
                    cfg.wf(),
                    lod.wf(),
                    spec_tiles_ok(*cfg, Some(t@)),
                    spec_tiles_ok(*cfg, opt_view(right)),
                    spec_tiles_ok(*cfg, opt_view(up)),
                    spec_tiles_ok(*cfg, opt_view(up_right)),
                    2 <= nx <= crate::config::RES_LIMIT,
                    nz == nx,
                    dx == nx as i64 - 1,
                    dz == nz as i64 - 1,
                    min_x == spec_chunk_origin(*cfg, key).0,
                    min_z == spec_chunk_origin(*cfg, key).1,
                    -COORD_LIMIT <= min_x <= COORD_LIMIT,
                    -COORD_LIMIT <= min_z <= COORD_LIMIT,
                    0 <= j <= nz,
                    vertices@.len() == (j as int) * (nx as int),
                    forall|v: int|
                        0 <= v < vertices@.len() ==> #[trigger] vertices@[v] == spec_mesh_vertex(
                            *cfg,
                            key,
                            t@,
                            opt_view(right),
                            opt_view(up),
                            opt_view(up_right),
                            nx as int,
                            nz as int,
                            v % (nx as int),
                            v / (nx as int),
                        ),
                decreases nz - j,
            {
                let mut i: u32 = 0;
                while i < nx
                    invariant
                        cfg.wf(),
                        lod.wf(),
                        spec_tiles_ok(*cfg, Some(t@)),
                        spec_tiles_ok(*cfg, opt_view(right)),
                        spec_tiles_ok(*cfg, opt_view(up)),
                        spec_tiles_ok(*cfg, opt_view(up_right)),
                        2 <= nx <= crate::config::RES_LIMIT,
                        nz == nx,
                        dx == nx as i64 - 1,
                        dz == nz as i64 - 1,
                        min_x == spec_chunk_origin(*cfg, key).0,
                        min_z == spec_chunk_origin(*cfg, key).1,
                        -COORD_LIMIT <= min_x <= COORD_LIMIT,
                        -COORD_LIMIT <= min_z <= COORD_LIMIT,
                        0 <= j < nz,
                        0 <= i <= nx,
                        vertices@.len() == (j as int) * (nx as int) + i,
                        forall|v: int|
                            0 <= v < vertices@.len() ==> #[trigger] vertices@[v]
                                == spec_mesh_vertex(
                                *cfg,
                                key,
                                t@,
                                opt_view(right),
                                opt_view(up),
                                opt_view(up_right),
                                nx as int,
                                nz as int,
                                v % (nx as int),
                                v / (nx as int),
                            ),
                    decreases nx - i,
                {
                    let il: u32 = if i > 0 { i - 1 } else { 0 };
                    let ir: u32 = if i + 1 <= nx - 1 { i + 1 } else { nx - 1 };
                    let jd: u32 = if j > 0 { j - 1 } else { 0 };
                    let ju: u32 = if j + 1 <= nz - 1 { j + 1 } else { nz - 1 };
                    let h = vertex_height(cfg, t, right, up, up_right, nx, nz, i, j);
                    let hl = vertex_height(cfg, t, right, up, up_right, nx, nz, il, j);
                    let hr = vertex_height(cfg, t, right, up, up_right, nx, nz, ir, j);
                    let hd = vertex_height(cfg, t, right, up, up_right, nx, nz, i, jd);
                    let hu = vertex_height(cfg, t, right, up, up_right, nx, nz, i, ju);
                    proof {
                        assert(0 <= (i as int) * (cfg.chunk_x as int) <= 0x2000_0000int)
                            by (nonlinear_arith)
                            requires 0 <= i <= 0x2000, 1 <= cfg.chunk_x <= 0x10000;
                        assert(0 <= (j as int) * (cfg.chunk_z as int) <= 0x2000_0000int)
                            by (nonlinear_arith)
                            requires 0 <= j <= 0x2000, 1 <= cfg.chunk_z <= 0x10000;
                        vstd::arithmetic::div_mod::lemma_div_pos_is_pos(
                            (i as int) * (cfg.chunk_x as int) * (HEIGHT_ONE as int),
                            dx as int,
                        );
                        vstd::arithmetic::div_mod::lemma_div_pos_is_pos(
                            (j as int) * (cfg.chunk_z as int) * (HEIGHT_ONE as int),
                            dz as int,
                        );
                        vstd::arithmetic::div_mod::lemma_div_nonincreasing(
                            (i as int) * (cfg.chunk_x as int) * (HEIGHT_ONE as int),
                            dx as int,
                        );
                        vstd::arithmetic::div_mod::lemma_div_nonincreasing(
                            (j as int) * (cfg.chunk_z as int) * (HEIGHT_ONE as int),
                            dz as int,
                        );
                    }
                    let vx: i64 = min_x * HEIGHT_ONE + (i as i64 * cfg.chunk_x * HEIGHT_ONE) / dx;
                    let vz: i64 = min_z * HEIGHT_ONE + (j as i64 * cfg.chunk_z * HEIGHT_ONE) / dz;
                    let vertex = MeshVertex { x_fp: vx, y_fp: h, z_fp: vz, dhx_fp: hr - hl, dhz_fp: hu
                        - hd };
                    proof {
                        let v = (j as int) * (nx as int) + i;
                        assert(v % (nx as int) == i && v / (nx as int) == j) by (nonlinear_arith)
                            requires 0 <= i < nx, 0 <= j, v == (j as int) * (nx as int) + i;
                        assert(vertex == spec_mesh_vertex(
                            *cfg,
                            key,
                            t@,
                            opt_view(right),
                            opt_view(up),
                            opt_view(up_right),
                            nx as int,
                            nz as int,
                            v % (nx as int),
                            v / (nx as int),
                        ));
                    }
                    vertices.push(vertex);
                    i = i + 1;
                }
                proof {
                    assert((j as int) * (nx as int) + nx == (j as int + 1) * (nx as int))
                        by (nonlinear_arith);
                }
                j = j + 1;
            }
            let mut indices: Vec<u32> = Vec::new();
            let mut cj: u32 = 0;
            while cj < nz - 1
                invariant
                    2 <= nx <= crate::config::RES_LIMIT,
                    nz == nx,
                    0 <= cj <= nz - 1,
                    indices@.len() == 6 * ((cj as int) * ((nx as int) - 1)),
                    forall|p: int|
                        0 <= p < indices@.len() ==> #[trigger] indices@[p] == spec_tri_index(
                            nx as int,
                            p / 6,
                            p % 6,
                        ),
                decreases nz - 1 - cj,
            {
                let mut ci: u32 = 0;
                while ci < nx - 1
                    invariant
                        2 <= nx <= crate::config::RES_LIMIT,
                        nz == nx,
                        0 <= cj < nz - 1,
                        0 <= ci <= nx - 1,
                        indices@.len() == 6 * ((cj as int) * ((nx as int) - 1) + ci),
                        forall|p: int|
                            0 <= p < indices@.len() ==> #[trigger] indices@[p] == spec_tri_index(
                                nx as int,
                                p / 6,
                                p % 6,
                            ),
                    decreases nx - 1 - ci,
                {
                    proof {
                        assert((cj as int) * (nx as int) <= 0x2000 * 0x2000int
                            && (cj as int + 1) * (nx as int) <= 0x2000 * 0x2000int
                            && (cj as int) * ((nx as int) - 1) <= 0x2000 * 0x2000int)
                            by (nonlinear_arith)
                            requires 0 <= cj < nx <= 0x2000;
                    }
                    let i0: u32 = cj * nx + ci;
                    let i1: u32 = i0 + 1;
                    let i2: u32 = (cj + 1) * nx + ci;
                    let i3: u32 = i2 + 1;
                    let ghost c = (cj as int) * ((nx as int) - 1) + ci;
                    let ghost base = indices@.len() as int;
                    indices.push(i0);
                    indices.push(i2);
                    indices.push(i1);
                    indices.push(i1);
                    indices.push(i2);
                    indices.push(i3);
                    proof {
                        assert(c % ((nx as int) - 1) == ci && c / ((nx as int) - 1) == cj)
                            by (nonlinear_arith)
                            requires
                                0 <= ci < (nx as int) - 1,
                                0 <= cj,
                                c == (cj as int) * ((nx as int) - 1) + ci,
                        ;
                        assert forall|p: int| base <= p < base + 6 implies #[trigger] indices@[p]
                            == spec_tri_index(nx as int, p / 6, p % 6) by {
                            assert(base == 6 * c);
                            assert(p / 6 == c && p % 6 == p - 6 * c) by (nonlinear_arith)
                                requires p >= 6 * c, p < 6 * c + 6, c == base / 6, base == 6 * c;
                        }
                    }
                    ci = ci + 1;
                }
                proof {
                    assert((cj as int) * ((nx as int) - 1) + ((nx as int) - 1) == (cj as int + 1)
                        * ((nx as int) - 1)) by (nonlinear_arith);
                }
                cj = cj + 1;
            }
            proof {
                assert(((nz as int) - 1) * ((nx as int) - 1) == ((nx as int) - 1) * ((nz as int)
                    - 1)) by (nonlinear_arith);
                assert((nz as int) * (nx as int) == (nx as int) * (nz as int))
                    by (nonlinear_arith);
            }
            ChunkMesh { grid_x: nx, grid_z: nz, vertices, indices, min_x, min_z, max_x, max_z }
        },
    }
}

} // verus!
