//! World metadata for the heightfield: origin, extent, chunk size, raw-value
//! normalization range and vertical scale, plus the chunk-lattice geometry
//! derived from it.
//!
//! All lengths and positions are integers in the world unit chosen by the
//! caller; a configuration whose chunk size does not evenly tile the world
//! extent is rejected by [`HeightFieldConfig::wf`] rather than handled
//! defensively.

use vstd::prelude::*;

verus! {

/// Fixed-point scale for heights and mesh positions: one world unit of
/// height equals this many fixed-point steps.
pub const HEIGHT_ONE: i64 = 65536;

/// Bound on the world origin and extent, so that squared viewer distances
/// fit in 64 bits.
pub const COORD_LIMIT: i64 = 0x2000_0000;

/// Bound on viewer coordinates accepted by distance computations.
pub const VIEW_LIMIT: i64 = 0x4000_0000;

/// Largest accepted chunk edge, in world units.
pub const CHUNK_LIMIT: u32 = 65536;

/// Largest accepted tile resolution (samples per edge).
pub const RES_LIMIT: u32 = 8192;

/// Largest accepted vertical scale, in world units.
pub const SCALE_LIMIT: u32 = 0x10_0000;

/// Chunk lattice coordinate; also the tile coordinate, since one tile
/// covers exactly one chunk's world footprint.
#[derive(Clone, Copy, Debug, PartialEq, Eq, Structural)]
pub struct ChunkKey {
    pub cx: i32,
    pub cz: i32,
}

impl ChunkKey {
    pub fn new(cx: i32, cz: i32) -> (k: ChunkKey)
        ensures
            k.cx == cx,
            k.cz == cz,
    {
        ChunkKey { cx, cz }
    }
}

/// Immutable world metadata: origin, world size, per-chunk size, raw-sample
/// normalization range, vertical scale, and tile resolution.
#[derive(Clone, Copy, Debug)]
pub struct HeightFieldConfig {
    /// World-space origin of the terrain rectangle.
    pub origin_x: i64,
    pub origin_z: i64,
    /// World-space extent of the terrain rectangle.
    pub size_x: i64,
    pub size_z: i64,
    /// World-space extent of one chunk.
    pub chunk_x: i64,
    pub chunk_z: i64,
    /// Raw samples below `raw_min` normalize to 0, above `raw_max` to 1.
    pub raw_min: u16,
    pub raw_max: u16,
    /// World-space height corresponding to a normalized value of 1.
    pub height_scale: u32,
    /// Samples per tile edge.
    pub tile_res_x: u32,
    pub tile_res_z: u32,
}

impl HeightFieldConfig {
    /// Well-formedness: bounded extents, and chunks that evenly tile the
    /// world rectangle.
    pub open spec fn wf(self) -> bool {
        &&& 1 <= self.chunk_x <= CHUNK_LIMIT
        &&& 1 <= self.chunk_z <= CHUNK_LIMIT
        &&& self.chunk_x <= self.size_x <= COORD_LIMIT
        &&& self.chunk_z <= self.size_z <= COORD_LIMIT
        &&& -COORD_LIMIT <= self.origin_x
        &&& -COORD_LIMIT <= self.origin_z
        &&& self.origin_x + self.size_x <= COORD_LIMIT
        &&& self.origin_z + self.size_z <= COORD_LIMIT
        &&& self.size_x % self.chunk_x == 0
        &&& self.size_z % self.chunk_z == 0
        &&& 1 <= self.tile_res_x <= RES_LIMIT
        &&& 1 <= self.tile_res_z <= RES_LIMIT
        &&& self.height_scale <= SCALE_LIMIT
    }

    /// Runtime check of [`Self::wf`].
    pub fn check_wf(&self) -> (r: bool)
        ensures
            r == self.wf(),
    {
        1 <= self.chunk_x && self.chunk_x <= CHUNK_LIMIT as i64
            && 1 <= self.chunk_z && self.chunk_z <= CHUNK_LIMIT as i64
            && self.chunk_x <= self.size_x && self.size_x <= COORD_LIMIT
            && self.chunk_z <= self.size_z && self.size_z <= COORD_LIMIT
            && -COORD_LIMIT <= self.origin_x
            && -COORD_LIMIT <= self.origin_z
            && self.origin_x <= COORD_LIMIT - self.size_x
            && self.origin_z <= COORD_LIMIT - self.size_z
            && self.size_x % self.chunk_x == 0
            && self.size_z % self.chunk_z == 0
            && 1 <= self.tile_res_x && self.tile_res_x <= RES_LIMIT
            && 1 <= self.tile_res_z && self.tile_res_z <= RES_LIMIT
            && self.height_scale <= SCALE_LIMIT
    }

    /// Number of chunks across the terrain in X and Z.
    pub open spec fn spec_counts(self) -> (int, int) {
        (self.size_x / self.chunk_x, self.size_z / self.chunk_z)
    }
}

/// Dimensions of the chunk lattice: count of chunks in X and Z.
#[derive(Clone, Copy, Debug, PartialEq, Eq, Structural)]
pub struct ChunkCounts {
    pub x: i64,
    pub z: i64,
}

/// How many chunks tile the terrain in X and Z.
pub fn chunk_counts(cfg: &HeightFieldConfig) -> (c: ChunkCounts)
    requires
        cfg.wf(),
    ensures
        c.x == cfg.spec_counts().0,
        c.z == cfg.spec_counts().1,
        1 <= c.x <= COORD_LIMIT,
        1 <= c.z <= COORD_LIMIT,
{
    proof {
        lemma_div_bounds(cfg.size_x as int, cfg.chunk_x as int);
        lemma_div_bounds(cfg.size_z as int, cfg.chunk_z as int);
    }
    ChunkCounts { x: cfg.size_x / cfg.chunk_x, z: cfg.size_z / cfg.chunk_z }
}

/// For `1 <= d <= s`, the quotient `s / d` lies in `[1, s]`.
proof fn lemma_div_bounds(s: int, d: int)
    requires
        1 <= d <= s,
    ensures
        1 <= s / d <= s,
{
    assert(1 <= s / d) by {
        assert(s / d >= 1) by (nonlinear_arith)
            requires 1 <= d <= s;
    }
    assert(s / d <= s) by {
        assert(s / d <= s) by (nonlinear_arith)
            requires 1 <= d, 0 <= s;
    }
}

/// True when `key` lies inside the chunk lattice.
pub open spec fn spec_chunk_in_bounds(key: ChunkKey, counts: ChunkCounts) -> bool {
    0 <= key.cx < counts.x && 0 <= key.cz < counts.z
}

/// True when `key` lies inside the chunk lattice.
pub fn chunk_in_bounds(key: ChunkKey, counts: ChunkCounts) -> (r: bool)
    ensures
        r == spec_chunk_in_bounds(key, counts),
{
    0 <= key.cx && (key.cx as i64) < counts.x && 0 <= key.cz && (key.cz as i64) < counts.z
}

/// World-space origin (low corner) of chunk `key`.
pub open spec fn spec_chunk_origin(cfg: HeightFieldConfig, key: ChunkKey) -> (int, int) {
    (cfg.origin_x + key.cx * cfg.chunk_x, cfg.origin_z + key.cz * cfg.chunk_z)
}

/// World-space origin (low corner) of chunk `key`.
pub fn chunk_origin_world(cfg: &HeightFieldConfig, key: ChunkKey) -> (o: (i64, i64))
    requires
        cfg.wf(),
        spec_chunk_in_bounds(key, ChunkCounts {
            x: cfg.spec_counts().0 as i64,
            z: cfg.spec_counts().1 as i64,
        }),
    ensures
        o.0 == spec_chunk_origin(*cfg, key).0,
        o.1 == spec_chunk_origin(*cfg, key).1,
        cfg.origin_x <= o.0 <= cfg.origin_x + cfg.size_x - cfg.chunk_x,
        cfg.origin_z <= o.1 <= cfg.origin_z + cfg.size_z - cfg.chunk_z,
{
    proof {
        lemma_lattice_offset(key.cx as int, cfg.chunk_x as int, cfg.size_x as int);
        lemma_lattice_offset(key.cz as int, cfg.chunk_z as int, cfg.size_z as int);
    }
    (cfg.origin_x + (key.cx as i64) * cfg.chunk_x, cfg.origin_z + (key.cz as i64) * cfg.chunk_z)
}

/// For `0 <= c < s / d` with `d | s`, the offset `c * d` lies in `[0, s - d]`.
proof fn lemma_lattice_offset(c: int, d: int, s: int)
    requires
        1 <= d <= s,
        s % d == 0,
        0 <= c < s / d,
    ensures
        0 <= c * d <= s - d,
{
    assert(0 <= c * d && c * d <= s - d) by (nonlinear_arith)
        requires 1 <= d <= s, s % d == 0, 0 <= c < s / d;
}

/// Axis-aligned world bounds `(min_x, min_z, max_x, max_z)` of chunk `key`.
pub fn chunk_world_aabb(cfg: &HeightFieldConfig, key: ChunkKey) -> (b: (i64, i64, i64, i64))
    requires
        cfg.wf(),
        spec_chunk_in_bounds(key, ChunkCounts {
            x: cfg.spec_counts().0 as i64,
            z: cfg.spec_counts().1 as i64,
        }),
    ensures
        b.0 == spec_chunk_origin(*cfg, key).0,
        b.1 == spec_chunk_origin(*cfg, key).1,
        b.2 == b.0 + cfg.chunk_x,
        b.3 == b.1 + cfg.chunk_z,
        b.2 <= cfg.origin_x + cfg.size_x,
        b.3 <= cfg.origin_z + cfg.size_z,
{
    let (ox, oz) = chunk_origin_world(cfg, key);
    (ox, oz, ox + cfg.chunk_x, oz + cfg.chunk_z)
}

/// Chunk key and in-chunk offset of a world position, when the position lies
/// inside the terrain rectangle.
pub open spec fn spec_world_to_chunk_local(
    cfg: HeightFieldConfig,
    wx: int,
    wz: int,
) -> Option<(ChunkKey, (int, int))> {
    let lx = wx - cfg.origin_x;
    let lz = wz - cfg.origin_z;
    if 0 <= lx < cfg.size_x && 0 <= lz < cfg.size_z {
        Some((
            ChunkKey {
                cx: (lx / (cfg.chunk_x as int)) as i32,
                cz: (lz / (cfg.chunk_z as int)) as i32,
            },
            (lx % (cfg.chunk_x as int), lz % (cfg.chunk_z as int)),
        ))
    } else {
        None
    }
}

/// Chunk key and in-chunk offset of a world position; `None` outside the
/// terrain rectangle.
pub fn world_to_chunk_local(cfg: &HeightFieldConfig, wx: i64, wz: i64) -> (r: Option<
    (ChunkKey, (i64, i64)),
>)
    requires
        cfg.wf(),
        -VIEW_LIMIT <= wx <= VIEW_LIMIT,
        -VIEW_LIMIT <= wz <= VIEW_LIMIT,
    ensures
        match r {
            Some((key, local)) => {
                &&& spec_world_to_chunk_local(*cfg, wx as int, wz as int)
                    == Some::<(ChunkKey, (int, int))>((key, (local.0 as int, local.1 as int)))
                &&& spec_chunk_in_bounds(key, ChunkCounts {
                    x: cfg.spec_counts().0 as i64,
                    z: cfg.spec_counts().1 as i64,
                })
                &&& 0 <= local.0 < cfg.chunk_x
                &&& 0 <= local.1 < cfg.chunk_z
            },
            None => spec_world_to_chunk_local(*cfg, wx as int, wz as int) is None,
        },
{
    let lx = wx - cfg.origin_x;
    let lz = wz - cfg.origin_z;
    if 0 <= lx && lx < cfg.size_x && 0 <= lz && lz < cfg.size_z {
        proof {
            lemma_lattice_index(lx as int, cfg.chunk_x as int, cfg.size_x as int);
            lemma_lattice_index(lz as int, cfg.chunk_z as int, cfg.size_z as int);
        }
        let key = ChunkKey { cx: (lx / cfg.chunk_x) as i32, cz: (lz / cfg.chunk_z) as i32 };
        Some((key, (lx % cfg.chunk_x, lz % cfg.chunk_z)))
    } else {
        None
    }
}

/// For `0 <= l < s` with `d | s`, the lattice index `l / d` lies in
/// `[0, s / d)` and the remainder in `[0, d)`.
proof fn lemma_lattice_index(l: int, d: int, s: int)
    requires
        1 <= d <= s,
        s % d == 0,
        0 <= l < s,
    ensures
        0 <= l / d < s / d,
        0 <= l % d < d,
        l == (l / d) * d + l % d,
{
    assert(0 <= l / d < s / d && 0 <= l % d < d && l == (l / d) * d + l % d)
        by (nonlinear_arith)
        requires 1 <= d <= s, s % d == 0, 0 <= l < s;
}

/// Clamp a world position into the terrain rectangle (no wrapping); the
/// result always maps to a chunk.
pub fn clamp_world_to_terrain(cfg: &HeightFieldConfig, wx: i64, wz: i64) -> (r: (i64, i64))
    requires
        cfg.wf(),
    ensures
        cfg.origin_x <= r.0 < cfg.origin_x + cfg.size_x,
        cfg.origin_z <= r.1 < cfg.origin_z + cfg.size_z,
        cfg.origin_x <= wx < cfg.origin_x + cfg.size_x ==> r.0 == wx,
        cfg.origin_z <= wz < cfg.origin_z + cfg.size_z ==> r.1 == wz,
        r.0 == if wx < cfg.origin_x { cfg.origin_x as int }
            else if wx >= cfg.origin_x + cfg.size_x { cfg.origin_x + cfg.size_x - 1 }
            else { wx as int },
        r.1 == if wz < cfg.origin_z { cfg.origin_z as int }
            else if wz >= cfg.origin_z + cfg.size_z { cfg.origin_z + cfg.size_z - 1 }
            else { wz as int },
{
    let cx = if wx < cfg.origin_x {
        cfg.origin_x
    } else if wx >= cfg.origin_x + cfg.size_x {
        cfg.origin_x + cfg.size_x - 1
    } else {
        wx
    };
    let cz = if wz < cfg.origin_z {
        cfg.origin_z
    } else if wz >= cfg.origin_z + cfg.size_z {
        cfg.origin_z + cfg.size_z - 1
    } else {
        wz
    };
    (cx, cz)
}

} // verus!
