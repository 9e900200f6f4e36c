//! Level-of-detail selection: a pure step function from viewer distance to a
//! discrete tier, each tier bound to a vertex-grid resolution.
//!
//! Distances are compared squared, so the selector works on exact integers;
//! crossing a threshold in either direction changes the answer immediately —
//! there is no hysteresis band.

use vstd::prelude::*;

use crate::config::{RES_LIMIT, VIEW_LIMIT};

verus! {

/// Discrete level-of-detail bucket, ordered from closest to farthest.
#[derive(Clone, Copy, Debug, PartialEq, Eq, Structural)]
pub enum LodTier {
    Near,
    Mid,
    Far,
}

impl LodTier {
    /// Position in the tier order: 0 for `Near`, 2 for `Far`.
    pub open spec fn rank(self) -> int {
        match self {
            LodTier::Near => 0,
            LodTier::Mid => 1,
            LodTier::Far => 2,
        }
    }
}

/// Distance thresholds and vertex-grid resolutions for the three tiers.
#[derive(Clone, Copy, Debug)]
pub struct LodConfig {
    /// A distance strictly below this selects `Near`.
    pub near_dist: i64,
    /// Otherwise, a distance strictly below this selects `Mid`; anything
    /// else selects `Far`.
    pub mid_dist: i64,
    /// Vertices per chunk edge at each tier.
    pub near_res: u32,
    pub mid_res: u32,
    pub far_res: u32,
}

impl LodConfig {
    /// Well-formedness: ordered thresholds and bounded grids.
    pub open spec fn wf(self) -> bool {
        &&& 0 < self.near_dist <= self.mid_dist <= VIEW_LIMIT
        &&& 2 <= self.near_res <= RES_LIMIT
        &&& 2 <= self.mid_res <= RES_LIMIT
        &&& 2 <= self.far_res <= RES_LIMIT
    }

    /// Vertex-grid resolution bound to `tier`.
    pub open spec fn spec_grid_res(self, tier: LodTier) -> int {
        match tier {
            LodTier::Near => self.near_res as int,
            LodTier::Mid => self.mid_res as int,
            LodTier::Far => self.far_res as int,
        }
    }

    /// Tier selected for a squared viewer distance.
    pub open spec fn spec_pick(self, dist_sq: int) -> LodTier {
        if dist_sq < self.near_dist * self.near_dist {
            LodTier::Near
        } else if dist_sq < self.mid_dist * self.mid_dist {
            LodTier::Mid
        } else {
            LodTier::Far
        }
    }

    /// Runtime check of [`Self::wf`].
    pub fn check_wf(&self) -> (r: bool)
        ensures
            r == self.wf(),
    {
        0 < self.near_dist && self.near_dist <= self.mid_dist && self.mid_dist <= VIEW_LIMIT
            && 2 <= self.near_res && self.near_res <= RES_LIMIT
            && 2 <= self.mid_res && self.mid_res <= RES_LIMIT
            && 2 <= self.far_res && self.far_res <= RES_LIMIT
    }

    /// Vertex-grid resolution bound to `tier` (vertices per chunk edge,
    /// the same in both axes).
    pub fn grid_res(&self, tier: LodTier) -> (n: u32)
        ensures
            n == self.spec_grid_res(tier),
    {
        match tier {
            LodTier::Near => self.near_res,
            LodTier::Mid => self.mid_res,
            LodTier::Far => self.far_res,
        }
    }

    /// Tier selected for a squared viewer distance: a step function of the
    /// distance with no hysteresis.
    pub fn pick(&self, dist_sq: i64) -> (tier: LodTier)
        requires
            self.wf(),
            0 <= dist_sq,
        ensures
            tier == self.spec_pick(dist_sq as int),
    {
        proof {
            assert(0 <= self.near_dist * self.near_dist <= 0x1000_0000_0000_0000)
                by (nonlinear_arith)
                requires 0 < self.near_dist <= 0x4000_0000;
            assert(0 <= self.mid_dist * self.mid_dist <= 0x1000_0000_0000_0000)
                by (nonlinear_arith)
                requires 0 < self.mid_dist <= 0x4000_0000;
        }
        if dist_sq < self.near_dist * self.near_dist {
            LodTier::Near
        } else if dist_sq < self.mid_dist * self.mid_dist {
            LodTier::Mid
        } else {
            LodTier::Far
        }
    }
}

impl Default for LodConfig {
    /// The reference tiering: thresholds at 600 and 1200 world units, with
    /// 129-, 65- and 33-vertex grids.
    fn default() -> (cfg: LodConfig)
        ensures
            cfg.wf(),
            cfg.near_dist == 600,
            cfg.mid_dist == 1200,
            cfg.near_res == 129,
            cfg.mid_res == 65,
            cfg.far_res == 33,
    {
        LodConfig { near_dist: 600, mid_dist: 1200, near_res: 129, mid_res: 65, far_res: 33 }
    }
}

/// The tier never gets finer as the viewer moves away: the selector is a
/// monotone step function of the squared distance.
pub proof fn lemma_pick_monotonic(cfg: LodConfig, d1: int, d2: int)
    requires
        cfg.wf(),
        0 <= d1 <= d2,
    ensures
        cfg.spec_pick(d1).rank() <= cfg.spec_pick(d2).rank(),
{
}

/// Squared planar distance from a viewer position (coordinates bounded by
/// [`VIEW_LIMIT`]) to a point inside the terrain (bounded by
/// [`crate::config::COORD_LIMIT`], as every chunk center is).
pub fn dist_sq(ax: i64, az: i64, bx: i64, bz: i64) -> (d: i64)
    requires
        -VIEW_LIMIT <= ax <= VIEW_LIMIT,
        -VIEW_LIMIT <= az <= VIEW_LIMIT,
        -crate::config::COORD_LIMIT <= bx <= crate::config::COORD_LIMIT,
        -crate::config::COORD_LIMIT <= bz <= crate::config::COORD_LIMIT,
    ensures
        d == (ax - bx) * (ax - bx) + (az - bz) * (az - bz),
        d >= 0,
{
    let dx = ax - bx;
    let dz = az - bz;
    proof {
        assert(0 <= dx * dx <= 0x2400_0000_0000_0000) by (nonlinear_arith)
            requires -0x6000_0000 <= dx <= 0x6000_0000;
        assert(0 <= dz * dz <= 0x2400_0000_0000_0000) by (nonlinear_arith)
            requires -0x6000_0000 <= dz <= 0x6000_0000;
    }
    dx * dx + dz * dz
}

} // verus!
