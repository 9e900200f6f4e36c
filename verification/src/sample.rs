//! Bilinear height sampling over the tile store, in exact integer
//! arithmetic.
//!
//! A sample position inside a tile is a rational pixel coordinate
//! `num / den` with `0 <= num <= den * (res - 1)`. The four surrounding
//! samples are interpolated exactly; the interpolated raw value is carried
//! as a numerator over the denominator `den_x * den_z`, normalized into
//! `[0, 1]` by the configured raw range, and scaled to a fixed-point height
//! (`HEIGHT_ONE` steps per world unit) with floor rounding as the one and
//! only quantization.

use vstd::prelude::*;

use vstd::arithmetic::div_mod::{lemma_div_is_ordered, lemma_div_multiples_vanish};

use crate::config::{
    spec_world_to_chunk_local, world_to_chunk_local, HeightFieldConfig, COORD_LIMIT, HEIGHT_ONE,
    VIEW_LIMIT,
};
use crate::tile::{Tile, TileStore, TileView};

verus! {

/// Exact bilinear interpolation of the raw samples around the rational
/// pixel position `(num_x / den_x, num_z / den_z)`, as a numerator over the
/// implicit denominator `den_x * den_z`.
pub open spec fn spec_bilinear_num(
    t: TileView,
    num_x: int,
    den_x: int,
    num_z: int,
    den_z: int,
) -> int {
    let mx = t.res_x - 1;
    let mz = t.res_z - 1;
    let x0 = num_x / den_x;
    let fx = num_x % den_x;
    let x1 = if x0 + 1 <= mx { x0 + 1 } else { mx };
    let z0 = num_z / den_z;
    let fz = num_z % den_z;
    let z1 = if z0 + 1 <= mz { z0 + 1 } else { mz };
    let row0 = (t.sample(x0, z0) as int) * (den_x - fx) + (t.sample(x1, z0) as int) * fx;
    let row1 = (t.sample(x0, z1) as int) * (den_x - fx) + (t.sample(x1, z1) as int) * fx;
    row0 * (den_z - fz) + row1 * fz
}

/// Exact bilinear interpolation of raw samples; see [`spec_bilinear_num`].
pub fn bilinear_num(t: &Tile, num_x: i64, den_x: i64, num_z: i64, den_z: i64) -> (n: i64)
    requires
        t@.wf(),
        1 <= den_x <= 0x10000,
        1 <= den_z <= 0x10000,
        0 <= num_x <= den_x * (t@.res_x - 1),
        0 <= num_z <= den_z * (t@.res_z - 1),
    ensures
        n == spec_bilinear_num(t@, num_x as int, den_x as int, num_z as int, den_z as int),
        0 <= n <= 65535 * (den_x * den_z),
{
    let mx: i64 = t.res_x as i64 - 1;
    let mz: i64 = t.res_z as i64 - 1;
    let x0: i64 = num_x / den_x;
    let fx: i64 = num_x % den_x;
    let z0: i64 = num_z / den_z;
    let fz: i64 = num_z % den_z;
    proof {
        assert(0 <= x0 <= mx && 0 <= fx < den_x) by (nonlinear_arith)
            requires
                1 <= den_x,
                0 <= num_x <= den_x * mx,
                x0 == num_x / den_x,
                fx == num_x % den_x,
        ;
        assert(0 <= z0 <= mz && 0 <= fz < den_z) by (nonlinear_arith)
            requires
                1 <= den_z,
                0 <= num_z <= den_z * mz,
                z0 == num_z / den_z,
                fz == num_z % den_z,
        ;
    }
    let x1: i64 = if x0 + 1 <= mx { x0 + 1 } else { mx };
    let z1: i64 = if z0 + 1 <= mz { z0 + 1 } else { mz };
    let s00 = t.get_clamped(x0, z0) as i64;
    let s10 = t.get_clamped(x1, z0) as i64;
    let s01 = t.get_clamped(x0, z1) as i64;
    let s11 = t.get_clamped(x1, z1) as i64;
    proof {
        assert(0 <= s00 * (den_x - fx) + s10 * fx <= 65535 * den_x) by (nonlinear_arith)
            requires
                0 <= s00 <= 65535,
                0 <= s10 <= 65535,
                0 <= fx < den_x <= 0x10000,
        ;
        assert(0 <= s01 * (den_x - fx) + s11 * fx <= 65535 * den_x) by (nonlinear_arith)
            requires
                0 <= s01 <= 65535,
                0 <= s11 <= 65535,
                0 <= fx < den_x <= 0x10000,
        ;
    }
    let row0: i64 = s00 * (den_x - fx) + s10 * fx;
    let row1: i64 = s01 * (den_x - fx) + s11 * fx;
    proof {
        assert(0 <= row0 * (den_z - fz) <= 0x1_0000_0000_0000int
            && 0 <= row1 * fz <= 0x1_0000_0000_0000int
            && 0 <= row0 * (den_z - fz) + row1 * fz <= 65535 * (den_x * den_z))
            by (nonlinear_arith)
            requires
                0 <= row0 <= 65535 * den_x,
                0 <= row1 <= 65535 * den_x,
                0 <= fz < den_z <= 0x10000,
                1 <= den_x <= 0x10000,
        ;
    }
    row0 * (den_z - fz) + row1 * fz
}

/// Bilinear exactness: at a position that lands exactly on an integer
/// pixel, the interpolation collapses to that pixel's raw sample — no
/// neighboring sample bleeds in.
pub proof fn lemma_bilinear_exact_pixel(t: TileView, px: int, den_x: int, pz: int, den_z: int)
    requires
        t.wf(),
        1 <= den_x,
        1 <= den_z,
        0 <= px <= t.res_x - 1,
        0 <= pz <= t.res_z - 1,
    ensures
        spec_bilinear_num(t, px * den_x, den_x, pz * den_z, den_z) == (t.sample(px, pz) as int)
            * (den_x * den_z),
{
    vstd::arithmetic::div_mod::lemma_fundamental_div_mod_converse_div(px * den_x, den_x, px, 0);
    vstd::arithmetic::div_mod::lemma_fundamental_div_mod_converse_mod(px * den_x, den_x, px, 0);
    vstd::arithmetic::div_mod::lemma_fundamental_div_mod_converse_div(pz * den_z, den_z, pz, 0);
    vstd::arithmetic::div_mod::lemma_fundamental_div_mod_converse_mod(pz * den_z, den_z, pz, 0);
    let s = t.sample(px, pz) as int;
    let mx = t.res_x - 1;
    let mz = t.res_z - 1;
    let x1 = if px + 1 <= mx {
        px + 1
    } else {
        mx
    };
    let z1 = if pz + 1 <= mz {
        pz + 1
    } else {
        mz
    };
    let row0 = s * (den_x - 0) + (t.sample(x1, pz) as int) * 0;
    let row1 = (t.sample(px, z1) as int) * (den_x - 0) + (t.sample(x1, z1) as int) * 0;
    assert(spec_bilinear_num(t, px * den_x, den_x, pz * den_z, den_z) == row0 * (den_z - 0)
        + row1 * 0);
    assert(row0 == s * den_x);
    assert((s * den_x) * den_z == s * (den_x * den_z)) by (nonlinear_arith);
}

/// Normalize an interpolated raw numerator (over denominator `den`) into
/// `[0, 1]` using the configured raw range, clamp, and scale to a
/// fixed-point world height with floor rounding.
///
/// A degenerate raw range (`raw_max <= raw_min`) defines the normalized
/// value as 0.
pub open spec fn spec_height_from_raw(cfg: HeightFieldConfig, raw_num: int, den: int) -> int {
    let span = cfg.raw_max - cfg.raw_min;
    if span <= 0 {
        0
    } else {
        let shifted = raw_num - (cfg.raw_min as int) * den;
        let c = if shifted < 0 {
            0
        } else if shifted > span * den {
            span * den
        } else {
            shifted
        };
        ((c * cfg.height_scale) * HEIGHT_ONE) / (den * span)
    }
}

/// Normalize and scale an interpolated raw numerator; see
/// [`spec_height_from_raw`].
pub fn height_from_raw(cfg: &HeightFieldConfig, raw_num: i64, den: i64) -> (h: i64)
    requires
        cfg.wf(),
        1 <= den <= 0x1_0000_0000,
        0 <= raw_num <= 65535 * den,
    ensures
        h == spec_height_from_raw(*cfg, raw_num as int, den as int),
        0 <= h <= cfg.height_scale * HEIGHT_ONE,
{
    if cfg.raw_max <= cfg.raw_min {
        return 0;
    }
    let span: i64 = cfg.raw_max as i64 - cfg.raw_min as i64;
    proof {
        assert((cfg.raw_min as int) * den <= 65535 * den && span * den <= 65536 * den)
            by (nonlinear_arith)
            requires
                1 <= den,
                cfg.raw_min <= 65535,
                0 < span <= 65536,
        ;
        assert(65536 * den <= 0x1_0000_0000_0000_0000int) by (nonlinear_arith)
            requires den <= 0x1_0000_0000int;
    }
    let shifted: i64 = raw_num - (cfg.raw_min as i64) * den;
    let top: i64 = span * den;
    let c: i64 = if shifted < 0 {
        0
    } else if shifted > top {
        top
    } else {
        shifted
    };
    proof {
        assert(0 <= (c as int) * (cfg.height_scale as int) <= 0x1000_0000_0000_0000_0000_00int)
            by (nonlinear_arith)
            requires
                0 <= c <= 0x1_0000_0000_0000_0000int,
                0 <= cfg.height_scale <= 0x10_0000,
        ;
    }
    let wide: u128 = (c as u128) * (cfg.height_scale as u128) * (HEIGHT_ONE as u128);
    proof {
        assert(1 <= (den as int) * (span as int) <= 0x1_0000_0000_0000int)
            by (nonlinear_arith)
            requires
                1 <= den <= 0x1_0000_0000int,
                1 <= span <= 0x10000,
        ;
    }
    let denom: u128 = (den as u128) * (span as u128);
    let q: u128 = wide / denom;
    proof {
        let ci = c as int;
        let hsi = cfg.height_scale as int;
        let deni = den as int;
        let spani = span as int;
        assert(ci * hsi * (HEIGHT_ONE as int) <= (deni * spani) * (hsi * HEIGHT_ONE))
            by (nonlinear_arith)
            requires
                0 <= ci <= spani * deni,
                0 <= hsi,
                0 < deni,
                0 < spani,
        ;
        lemma_div_is_ordered(
            ci * hsi * (HEIGHT_ONE as int),
            (deni * spani) * (hsi * HEIGHT_ONE),
            deni * spani,
        );
        lemma_div_multiples_vanish(hsi * HEIGHT_ONE, deni * spani);
        assert(q == ((ci * hsi) * HEIGHT_ONE) / (deni * spani));
        assert(q <= hsi * HEIGHT_ONE);
        assert(hsi * HEIGHT_ONE <= 0x10_0000 * 65536) by (nonlinear_arith)
            requires 0 <= hsi <= 0x10_0000;
        assert(q >= 0);
    }
    q as i64
}

/// The fixed-point world height at world position `(wx, wz)`: `None` outside
/// the terrain rectangle or when the chunk's tile is not cached, otherwise
/// the bilinearly interpolated, normalized, scaled sample.
pub open spec fn spec_sample_height(
    cfg: HeightFieldConfig,
    store: TileStore,
    wx: int,
    wz: int,
) -> Option<int> {
    match spec_world_to_chunk_local(cfg, wx, wz) {
        None => None,
        Some((key, local)) => match store.spec_fetch(key) {
            None => None,
            Some(t) => {
                let num_x = local.0 * (cfg.tile_res_x - 1);
                let num_z = local.1 * (cfg.tile_res_z - 1);
                let n = spec_bilinear_num(t, num_x, cfg.chunk_x as int, num_z, cfg.chunk_z as int);
                Some(
                    spec_height_from_raw(cfg, n, (cfg.chunk_x as int) * (cfg.chunk_z as int)),
                )
            },
        },
    }
}

/// True when the store caches tiles of the configured resolution.
pub open spec fn store_matches(cfg: HeightFieldConfig, store: TileStore) -> bool {
    store.res_x == cfg.tile_res_x && store.res_z == cfg.tile_res_z
}

/// Bilinear height sampling in world space; see [`spec_sample_height`].
///
/// On a hit the result is the exact floor-rounded fixed-point height; a
/// position outside the terrain or a missing tile yields `None`, never an
/// error.
pub fn sample_height(cfg: &HeightFieldConfig, store: &TileStore, wx: i64, wz: i64) -> (r: Option<
    i64,
>)
    requires
        cfg.wf(),
        store.wf(),
        store_matches(*cfg, *store),
        -VIEW_LIMIT <= wx <= VIEW_LIMIT,
        -VIEW_LIMIT <= wz <= VIEW_LIMIT,
    ensures
        match r {
            Some(h) => {
                &&& spec_sample_height(*cfg, *store, wx as int, wz as int) == Some(h as int)
                &&& 0 <= h <= cfg.height_scale * HEIGHT_ONE
            },
            None => spec_sample_height(*cfg, *store, wx as int, wz as int) is None,
        },
{
    let located = world_to_chunk_local(cfg, wx, wz);
    match located {
        None => None,
        Some((key, local)) => {
            match store.fetch_ref(key) {
                None => None,
                Some(t) => {
                    proof {
                        assert(local.0 * (cfg.tile_res_x - 1) <= cfg.chunk_x * (t@.res_x - 1))
                            by (nonlinear_arith)
                            requires
                                0 <= local.0 < cfg.chunk_x,
                                t@.res_x == cfg.tile_res_x,
                                1 <= t@.res_x,
                        ;
                        assert(local.1 * (cfg.tile_res_z - 1) <= cfg.chunk_z * (t@.res_z - 1))
                            by (nonlinear_arith)
                            requires
                                0 <= local.1 < cfg.chunk_z,
                                t@.res_z == cfg.tile_res_z,
                                1 <= t@.res_z,
                        ;
                        assert(0 <= local.0 * (cfg.tile_res_x - 1) <= 0x10000 * 0x2000)
                            by (nonlinear_arith)
                            requires 0 <= local.0 <= 0x10000, 0 <= cfg.tile_res_x - 1 <= 0x2000;
                        assert(0 <= local.1 * (cfg.tile_res_z - 1) <= 0x10000 * 0x2000)
                            by (nonlinear_arith)
                            requires 0 <= local.1 <= 0x10000, 0 <= cfg.tile_res_z - 1 <= 0x2000;
                        assert(1 <= cfg.chunk_x * cfg.chunk_z <= 0x1_0000_0000int)
                            by (nonlinear_arith)
                            requires 1 <= cfg.chunk_x <= 0x10000, 1 <= cfg.chunk_z <= 0x10000;
                    }
                    let num_x: i64 = local.0 * (cfg.tile_res_x as i64 - 1);
                    let num_z: i64 = local.1 * (cfg.tile_res_z as i64 - 1);
                    let n = bilinear_num(t, num_x, cfg.chunk_x, num_z, cfg.chunk_z);
                    let h = height_from_raw(cfg, n, cfg.chunk_x * cfg.chunk_z);
                    Some(h)
                },
            }
        },
    }
}

/// The slope numerators at a world position: the central differences of
/// the sampled height one unit away in each axis, with an unsampleable
/// neighbor contributing height 0. The denominator of both slopes is two
/// world units.
pub open spec fn spec_slope_at(
    cfg: HeightFieldConfig,
    store: TileStore,
    wx: int,
    wz: int,
) -> (int, int) {
    let h = |x: int, z: int|
        match spec_sample_height(cfg, store, x, z) {
            Some(v) => v,
            None => 0,
        };
    (h(wx + 1, wz) - h(wx - 1, wz), h(wx, wz + 1) - h(wx, wz - 1))
}

/// A height source selected at configuration time: either the tile-backed
/// terrain sampler or a flat plane at a fixed height, the closed set of
/// sampler kinds the rest of the game is written against.
pub enum HeightSource {
    /// Bilinear sampling of the configured heightfield.
    Terrain(HeightFieldConfig),
    /// A flat plane at the given fixed-point height, for staging and
    /// testing consumers without terrain data.
    Flat(i64),
}

impl HeightSource {
    pub open spec fn wf(self) -> bool {
        match self {
            HeightSource::Terrain(cfg) => cfg.wf(),
            HeightSource::Flat(h) => 0 <= h,
        }
    }

    /// True when the store caches tiles this source can read.
    pub open spec fn matches(self, store: TileStore) -> bool {
        match self {
            HeightSource::Terrain(cfg) => store_matches(cfg, store),
            HeightSource::Flat(_) => true,
        }
    }

    /// The fixed-point height this source reports at a position.
    pub open spec fn spec_height(self, store: TileStore, wx: int, wz: int) -> Option<int> {
        match self {
            HeightSource::Terrain(cfg) => spec_sample_height(cfg, store, wx, wz),
            HeightSource::Flat(h) => Some(h as int),
        }
    }

    /// Sample the ground height at world `(wx, wz)`.
    pub fn sample_height(&self, store: &TileStore, wx: i64, wz: i64) -> (r: Option<i64>)
        requires
            self.wf(),
            store.wf(),
            self.matches(*store),
            -VIEW_LIMIT <= wx <= VIEW_LIMIT,
            -VIEW_LIMIT <= wz <= VIEW_LIMIT,
        ensures
            match r {
                Some(h) => self.spec_height(*store, wx as int, wz as int) == Some(h as int),
                None => self.spec_height(*store, wx as int, wz as int) is None,
            },
    {
        match self {
            HeightSource::Terrain(cfg) => sample_height(cfg, store, wx, wz),
            HeightSource::Flat(h) => Some(*h),
        }
    }

    /// Estimate the surface slope at world `(wx, wz)` by central
    /// differences of the height one unit away in each axis, treating an
    /// unsampleable neighbor as height 0 — the same rule for every source.
    /// The host turns the pair into a unit normal; a flat source always
    /// yields zero slopes (an upward normal).
    pub fn sample_normal(&self, store: &TileStore, wx: i64, wz: i64) -> (r: (i64, i64))
        requires
            self.wf(),
            store.wf(),
            self.matches(*store),
            -VIEW_LIMIT < wx < VIEW_LIMIT,
            -VIEW_LIMIT < wz < VIEW_LIMIT,
        ensures
            match self {
                HeightSource::Terrain(cfg) => (r.0 as int, r.1 as int) == spec_slope_at(
                    *cfg,
                    *store,
                    wx as int,
                    wz as int,
                ),
                HeightSource::Flat(_) => r == (0i64, 0i64),
            },
    {
        match self {
            HeightSource::Flat(_) => (0, 0),
            HeightSource::Terrain(cfg) => {
                let hr = sample_height(cfg, store, wx + 1, wz).unwrap_or(0);
                let hl = sample_height(cfg, store, wx - 1, wz).unwrap_or(0);
                let hu = sample_height(cfg, store, wx, wz + 1).unwrap_or(0);
                let hd = sample_height(cfg, store, wx, wz - 1).unwrap_or(0);
                (hr - hl, hu - hd)
            },
        }
    }
}

/// Two samples of an unchanged store agree bit for bit: the sampler is a
/// pure function of the configuration, the cached tiles and the position.
pub proof fn lemma_sample_height_deterministic(
    cfg: HeightFieldConfig,
    store: TileStore,
    wx: int,
    wz: int,
    r1: Option<int>,
    r2: Option<int>,
)
    requires
        r1 == spec_sample_height(cfg, store, wx, wz),
        r2 == spec_sample_height(cfg, store, wx, wz),
    ensures
        r1 == r2,
{
}

} // verus!
