//! The per-frame streaming scheduler.
//!
//! One update pass runs five steps in a fixed order: compute the desired
//! chunk set from the viewpoint, reconcile the resident set against it
//! (despawning stale chunks and cancelling stale queued work), admit new
//! build jobs under a creation budget, poll the host's finished builds into
//! the completion queue, and integrate queued meshes in arrival order under
//! an integration budget.
//!
//! The scheduler owns only bookkeeping: resident records, in-flight job
//! tickets and the completion queue. The host performs the actual
//! background builds — each [`BuildJob`] carries private tile snapshots —
//! and hands finished meshes back as [`CompletedBuild`] values on a later
//! pass. A completion whose job was cancelled in the meantime no longer
//! matches an in-flight ticket and is discarded without effect.

use vstd::prelude::*;

use crate::config::{
    chunk_counts, chunk_in_bounds, chunk_world_aabb, clamp_world_to_terrain, spec_chunk_in_bounds,
    spec_chunk_origin, ChunkCounts, ChunkKey, HeightFieldConfig, COORD_LIMIT, VIEW_LIMIT,
};
use crate::lod::{dist_sq, LodConfig, LodTier};
use crate::mesh::ChunkMesh;
use crate::tile::{Tile, TileStore};

verus! {

/// Largest accepted streaming radius, in chunks.
pub const RADIUS_LIMIT: u32 = 1024;

/// Scheduler knobs: streaming radius, per-pass creation budget, per-pass
/// integration budget, and the tiering rules.
#[derive(Clone, Copy, Debug)]
pub struct StreamConfig {
    /// Chunks kept resident in each direction around the viewer's chunk.
    pub radius: u32,
    /// Build jobs started per pass, at most.
    pub build_budget: usize,
    /// Completed meshes integrated per pass, at most.
    pub integration_budget: usize,
    pub lod: LodConfig,
}

impl StreamConfig {
    pub open spec fn wf(self) -> bool {
        self.radius <= RADIUS_LIMIT && self.lod.wf()
    }

    /// Runtime check of [`Self::wf`].
    pub fn check_wf(&self) -> (r: bool)
        ensures
            r == self.wf(),
    {
        self.radius <= RADIUS_LIMIT && self.lod.check_wf()
    }
}

impl Default for StreamConfig {
    /// The reference knobs: radius 2, four builds and one integration per
    /// pass.
    fn default() -> (cfg: StreamConfig)
        ensures
            cfg.wf(),
            cfg.radius == 2,
            cfg.build_budget == 4,
            cfg.integration_budget == 1,
            cfg.lod == (LodConfig {
                near_dist: 600,
                mid_dist: 1200,
                near_res: 129,
                mid_res: 65,
                far_res: 33,
            }),
    {
        StreamConfig {
            radius: 2,
            build_budget: 4,
            integration_budget: 1,
            lod: LodConfig {
                near_dist: 600,
                mid_dist: 1200,
                near_res: 129,
                mid_res: 65,
                far_res: 33,
            },
        }
    }
}

/// A resident chunk: its key, resident tier, scene handle and world bounds.
#[derive(Clone, Copy, Debug, PartialEq, Eq, Structural)]
pub struct ChunkRecord {
    pub key: ChunkKey,
    pub tier: LodTier,
    /// Opaque handle the host bound to the in-scene representation.
    pub handle: u64,
    pub min_x: i64,
    pub min_z: i64,
    pub max_x: i64,
    pub max_z: i64,
}

/// Bookkeeping for one in-flight background build.
#[derive(Clone, Copy, Debug, PartialEq, Eq, Structural)]
pub struct JobTicket {
    pub key: ChunkKey,
    pub tier: LodTier,
}

/// A build job handed to the host: the target chunk and tier, and private
/// snapshots of the tiles the build needs. The chunk's own tile is
/// mandatory; the three neighbor tiles only serve the seams.
pub struct BuildJob {
    pub key: ChunkKey,
    pub tier: LodTier,
    pub own: Tile,
    pub right: Option<Tile>,
    pub up: Option<Tile>,
    pub up_right: Option<Tile>,
}

/// A finished build: produced by the host's workers, consumed by polling,
/// queued until integration.
pub struct CompletedBuild {
    pub key: ChunkKey,
    pub tier: LodTier,
    pub mesh: ChunkMesh,
}

/// Emitted exactly once per successful integration.
pub struct ChunkLoaded {
    pub key: ChunkKey,
    pub tier: LodTier,
    pub handle: u64,
    pub min_x: i64,
    pub min_z: i64,
    pub max_x: i64,
    pub max_z: i64,
    pub mesh: ChunkMesh,
}

/// Emitted when a resident chunk is removed during reconciliation.
#[derive(Clone, Copy, Debug, PartialEq, Eq, Structural)]
pub struct ChunkUnloaded {
    pub key: ChunkKey,
    pub handle: u64,
}

/// Everything one pass tells the host: chunks to despawn, jobs to hand to
/// the worker pool, meshes to realize in the scene, and tiles the host
/// should try to load for the next pass.
pub struct PassOutput {
    pub unloaded: Vec<ChunkUnloaded>,
    pub started: Vec<BuildJob>,
    pub loaded: Vec<ChunkLoaded>,
    pub missing: Vec<ChunkKey>,
}

// --- the desired set ---------------------------------------------------

/// Clamp `v` into `[lo, hi_excl)`.
pub open spec fn spec_clamp(v: int, lo: int, hi_excl: int) -> int {
    if v < lo {
        lo
    } else if v >= hi_excl {
        hi_excl - 1
    } else {
        v
    }
}

/// The chunk under the viewpoint, after clamping the viewpoint into the
/// terrain rectangle.
pub open spec fn spec_center_chunk(cfg: HeightFieldConfig, vx: int, vz: int) -> (int, int) {
    (
        (spec_clamp(vx, cfg.origin_x as int, cfg.origin_x + cfg.size_x) - cfg.origin_x)
            / (cfg.chunk_x as int),
        (spec_clamp(vz, cfg.origin_z as int, cfg.origin_z + cfg.size_z) - cfg.origin_z)
            / (cfg.chunk_z as int),
    )
}

/// The world-space center of chunk `key`.
pub open spec fn spec_chunk_center(cfg: HeightFieldConfig, key: ChunkKey) -> (int, int) {
    (
        spec_chunk_origin(cfg, key).0 + cfg.chunk_x / 2,
        spec_chunk_origin(cfg, key).1 + cfg.chunk_z / 2,
    )
}

/// The lattice dimensions as a [`ChunkCounts`] value.
pub open spec fn spec_counts_of(cfg: HeightFieldConfig) -> ChunkCounts {
    ChunkCounts { x: (cfg.size_x / cfg.chunk_x) as i64, z: (cfg.size_z / cfg.chunk_z) as i64 }
}

/// The desired tier of chunk `key` for a viewpoint: `Some` exactly when the
/// key lies in the square window of `radius` chunks around the viewer's
/// (clamped) chunk and inside the lattice, with the tier picked from the
/// squared distance between the viewpoint and the chunk center.
#[verifier::opaque]
pub open spec fn spec_desired_tier(
    cfg: HeightFieldConfig,
    lod: LodConfig,
    radius: int,
    vx: int,
    vz: int,
    key: ChunkKey,
) -> Option<LodTier> {
    let c = spec_center_chunk(cfg, vx, vz);
    let ctr = spec_chunk_center(cfg, key);
    if c.0 - radius <= key.cx <= c.0 + radius && c.1 - radius <= key.cz <= c.1 + radius
        && spec_chunk_in_bounds(key, spec_counts_of(cfg)) {
        Some(lod.spec_pick((vx - ctr.0) * (vx - ctr.0) + (vz - ctr.1) * (vz - ctr.1)))
    } else {
        None
    }
}

/// The desired tier of chunk `key` for a viewpoint; see
/// [`spec_desired_tier`].
pub fn desired_tier_at(
    cfg: &HeightFieldConfig,
    lod: &LodConfig,
    radius: u32,
    vx: i64,
    vz: i64,
    key: ChunkKey,
) -> (r: Option<LodTier>)
    requires
        cfg.wf(),
        lod.wf(),
        radius <= RADIUS_LIMIT,
        -VIEW_LIMIT <= vx <= VIEW_LIMIT,
        -VIEW_LIMIT <= vz <= VIEW_LIMIT,
    ensures
        r == spec_desired_tier(*cfg, *lod, radius as int, vx as int, vz as int, key),
{
    proof {
        reveal(spec_desired_tier);
    }
    let counts = chunk_counts(cfg);
    let (cvx, cvz) = clamp_world_to_terrain(cfg, vx, vz);
    let ccx: i64 = (cvx - cfg.origin_x) / cfg.chunk_x;
    let ccz: i64 = (cvz - cfg.origin_z) / cfg.chunk_z;
    proof {
        vstd::arithmetic::div_mod::lemma_div_pos_is_pos(cvx - cfg.origin_x, cfg.chunk_x as int);
        vstd::arithmetic::div_mod::lemma_div_pos_is_pos(cvz - cfg.origin_z, cfg.chunk_z as int);
        vstd::arithmetic::div_mod::lemma_div_nonincreasing(
            cvx - cfg.origin_x,
            cfg.chunk_x as int,
        );
        vstd::arithmetic::div_mod::lemma_div_nonincreasing(
            cvz - cfg.origin_z,
            cfg.chunk_z as int,
        );
    }
    let rad = radius as i64;
    if !(ccx - rad <= key.cx as i64 && key.cx as i64 <= ccx + rad && ccz - rad <= key.cz as i64
        && key.cz as i64 <= ccz + rad && chunk_in_bounds(key, counts)) {
        return None;
    }
    let (ox, oz) = crate::config::chunk_origin_world(cfg, key);
    let ctr_x: i64 = ox + cfg.chunk_x / 2;
    let ctr_z: i64 = oz + cfg.chunk_z / 2;
    let d = dist_sq(vx, vz, ctr_x, ctr_z);
    Some(lod.pick(d))
}

/// Enumerate the desired set for a viewpoint: every chunk key within
/// `radius` chunks of the viewer's (clamped) chunk, clipped to the lattice,
/// each with its picked tier. The result fully replaces any previous
/// desired set; it lists each desired key exactly once.
#[verifier::rlimit(100)]
#[verifier::spinoff_prover]
pub fn desired_chunks(
    cfg: &HeightFieldConfig,
    lod: &LodConfig,
    radius: u32,
    vx: i64,
    vz: i64,
) -> (d: Vec<JobTicket>)
    requires
        cfg.wf(),
        lod.wf(),
        radius <= RADIUS_LIMIT,
        -VIEW_LIMIT <= vx <= VIEW_LIMIT,
        -VIEW_LIMIT <= vz <= VIEW_LIMIT,
    ensures
        forall|idx: int|
            0 <= idx < d@.len() ==> spec_desired_tier(
                *cfg,
                *lod,
                radius as int,
                vx as int,
                vz as int,
                (#[trigger] d@[idx]).key,
            ) == Some(d@[idx].tier),
        forall|k: ChunkKey|
            #[trigger] spec_desired_tier(*cfg, *lod, radius as int, vx as int, vz as int, k)
                is Some ==> exists|idx: int| 0 <= idx < d@.len() && (#[trigger] d@[idx]).key == k,
        forall|i: int, j: int| 0 <= i < j < d@.len() ==> d@[i].key != d@[j].key,
        forall|idx: int|
            0 <= idx < d@.len() ==> spec_chunk_in_bounds(
                (#[trigger] d@[idx]).key,
                spec_counts_of(*cfg),
            ),
{
    let (cvx, cvz) = clamp_world_to_terrain(cfg, vx, vz);
    let ccx: i64 = (cvx - cfg.origin_x) / cfg.chunk_x;
    let ccz: i64 = (cvz - cfg.origin_z) / cfg.chunk_z;
    proof {
        vstd::arithmetic::div_mod::lemma_div_pos_is_pos(cvx - cfg.origin_x, cfg.chunk_x as int);
        vstd::arithmetic::div_mod::lemma_div_pos_is_pos(cvz - cfg.origin_z, cfg.chunk_z as int);
        vstd::arithmetic::div_mod::lemma_div_nonincreasing(
            cvx - cfg.origin_x,
            cfg.chunk_x as int,
        );
        vstd::arithmetic::div_mod::lemma_div_nonincreasing(
            cvz - cfg.origin_z,
            cfg.chunk_z as int,
        );
        assert((ccx as int, ccz as int) == spec_center_chunk(*cfg, vx as int, vz as int));
    }
    let base_x: i64 = ccx - radius as i64;
    let base_z: i64 = ccz - radius as i64;
    let rows: i64 = 2 * (radius as i64) + 1;
    let mut d: Vec<JobTicket> = Vec::new();
    let ghost mut wit: Map<ChunkKey, int> = Map::empty();
    proof {
        assert forall|k: ChunkKey|
            (#[trigger] spec_desired_tier(*cfg, *lod, radius as int, vx as int, vz as int, k))
                is Some implies base_z <= k.cz && base_x <= k.cx by {
            reveal(spec_desired_tier);
        }
    }
    let mut a: i64 = 0;
    let mut b: i64 = 0;
    while a < rows
        invariant
            cfg.wf(),
            lod.wf(),
            radius <= RADIUS_LIMIT,
            -VIEW_LIMIT <= vx <= VIEW_LIMIT,
            -VIEW_LIMIT <= vz <= VIEW_LIMIT,
            rows == 2 * (radius as i64) + 1,
            (ccx as int, ccz as int) == spec_center_chunk(*cfg, vx as int, vz as int),
            base_x == ccx - radius,
            base_z == ccz - radius,
            0 <= ccx <= COORD_LIMIT,
            0 <= ccz <= COORD_LIMIT,
            0 <= a <= rows,
            0 <= b < rows,
            a < rows || b == 0,
            forall|idx: int|
                0 <= idx < d@.len() ==> spec_desired_tier(
                    *cfg,
                    *lod,
                    radius as int,
                    vx as int,
                    vz as int,
                    (#[trigger] d@[idx]).key,
                ) == Some(d@[idx].tier),
            forall|idx: int|
                0 <= idx < d@.len() ==> (#[trigger] d@[idx]).key.cz < base_z + a || (d@[idx].key.cz
                    == base_z + a && d@[idx].key.cx < base_x + b),
            forall|k: ChunkKey|
                (#[trigger] spec_desired_tier(*cfg, *lod, radius as int, vx as int, vz as int, k))
                    is Some && (k.cz < base_z + a || (k.cz == base_z + a && k.cx < base_x + b))
                    ==> wit.dom().contains(k) && 0 <= wit[k] < d@.len() && d@[wit[k]].key == k,
            forall|i: int, j: int| 0 <= i < j < d@.len() ==> d@[i].key != d@[j].key,
        decreases rows - a, rows - b,
    {
        let cz: i64 = base_z + a;
        let cx: i64 = base_x + b;
        proof {
            assert forall|k: ChunkKey|
                (#[trigger] spec_desired_tier(*cfg, *lod, radius as int, vx as int, vz as int, k))
                    is Some implies base_z <= k.cz && base_x <= k.cx by {
                reveal(spec_desired_tier);
            }
        }
        let key = ChunkKey { cx: cx as i32, cz: cz as i32 };
        match desired_tier_at(cfg, lod, radius, vx, vz, key) {
            Some(tier) => {
                d.push(JobTicket { key, tier });
                proof {
                    wit = wit.insert(key, d@.len() - 1);
                }
            },
            None => (),
        }
        proof {
            assert forall|k: ChunkKey|
                (#[trigger] spec_desired_tier(*cfg, *lod, radius as int, vx as int, vz as int, k))
                    is Some && (k.cz < cz || (k.cz == cz && k.cx < cx + 1)) implies wit.dom()
                .contains(k) && 0 <= wit[k] < d@.len() && d@[wit[k]].key == k by {
                if k.cz == cz && k.cx == cx {
                    assert(k == key);
                }
            }
        }
        b = b + 1;
        if b == rows {
            b = 0;
            a = a + 1;
            proof {
                assert forall|k: ChunkKey|
                    (#[trigger] spec_desired_tier(
                        *cfg,
                        *lod,
                        radius as int,
                        vx as int,
                        vz as int,
                        k,
                    )) is Some && k.cz < base_z + a implies wit.dom().contains(k) && 0 <= wit[k]
                    < d@.len() && d@[wit[k]].key == k by {
                    reveal(spec_desired_tier);
                    if k.cz == cz {
                        let c = spec_center_chunk(*cfg, vx as int, vz as int);
                        assert(c.0 == ccx as int && c.1 == ccz as int);
                        assert(k.cx <= c.0 + (radius as int));
                        assert(k.cx <= ccx + (radius as int));
                        assert(k.cx < base_x + rows);
                    }
                }
            }
        }
    }
    proof {
        assert forall|k: ChunkKey|
            (#[trigger] spec_desired_tier(*cfg, *lod, radius as int, vx as int, vz as int, k))
                is Some implies exists|idx: int| 0 <= idx < d@.len() && (#[trigger] d@[idx]).key
            == k by {
            reveal(spec_desired_tier);
            assert(k.cz <= ccz + (radius as int));
            assert(k.cz < base_z + rows);
            assert(d@[wit[k]].key == k);
        }
        assert forall|idx: int|
            0 <= idx < d@.len() implies spec_chunk_in_bounds(
            (#[trigger] d@[idx]).key,
            spec_counts_of(*cfg),
        ) by {
            reveal(spec_desired_tier);
        }
    }
    d
}

// --- bookkeeping predicates --------------------------------------------

/// No two records share a chunk key.
pub open spec fn records_unique(s: Seq<ChunkRecord>) -> bool {
    forall|i: int, j: int| 0 <= i < j < s.len() ==> s[i].key != s[j].key
}

/// No two tickets share a chunk key.
pub open spec fn tickets_unique(s: Seq<JobTicket>) -> bool {
    forall|i: int, j: int| 0 <= i < j < s.len() ==> s[i].key != s[j].key
}

/// No two queued builds share a chunk key.
pub open spec fn queue_unique(s: Seq<CompletedBuild>) -> bool {
    forall|i: int, j: int| 0 <= i < j < s.len() ==> s[i].key != s[j].key
}

/// Some record holds `k`.
pub open spec fn records_has_key(s: Seq<ChunkRecord>, k: ChunkKey) -> bool {
    exists|i: int| 0 <= i < s.len() && (#[trigger] s[i]).key == k
}

/// Some record holds `k` at tier `t`.
pub open spec fn resident_at(s: Seq<ChunkRecord>, k: ChunkKey, t: LodTier) -> bool {
    exists|i: int| 0 <= i < s.len() && (#[trigger] s[i]).key == k && s[i].tier == t
}

/// Some ticket holds `k`.
pub open spec fn tickets_has_key(s: Seq<JobTicket>, k: ChunkKey) -> bool {
    exists|i: int| 0 <= i < s.len() && (#[trigger] s[i]).key == k
}

/// Some ticket holds `k` at tier `t`.
pub open spec fn tickets_has(s: Seq<JobTicket>, k: ChunkKey, t: LodTier) -> bool {
    exists|i: int| 0 <= i < s.len() && (#[trigger] s[i]).key == k && s[i].tier == t
}

/// Some queued build holds `k`.
pub open spec fn queue_has_key(s: Seq<CompletedBuild>, k: ChunkKey) -> bool {
    exists|i: int| 0 <= i < s.len() && (#[trigger] s[i]).key == k
}

/// Some queued build holds `k` at tier `t`.
pub open spec fn queue_has(s: Seq<CompletedBuild>, k: ChunkKey, t: LodTier) -> bool {
    exists|i: int| 0 <= i < s.len() && (#[trigger] s[i]).key == k && s[i].tier == t
}

/// The key list contains `k`.
pub open spec fn keys_contain(s: Seq<ChunkKey>, k: ChunkKey) -> bool {
    exists|i: int| 0 <= i < s.len() && (#[trigger] s[i]) == k
}

/// Every element a filter keeps is an element of the original sequence.
pub proof fn lemma_filter_is_subset<A>(s: Seq<A>, pred: spec_fn(A) -> bool)
    ensures
        forall|i: int|
            0 <= i < s.filter(pred).len() ==> s.contains(#[trigger] s.filter(pred)[i]),
    decreases s.len(),
{
    reveal(Seq::filter);
    if s.len() > 0 {
        let sub = s.drop_last();
        lemma_filter_is_subset(sub, pred);
        assert forall|i: int|
            0 <= i < s.filter(pred).len() implies s.contains(#[trigger] s.filter(pred)[i]) by {
            let f = s.filter(pred);
            if pred(s.last()) && i == f.len() - 1 {
                assert(s[s.len() - 1] == f[i]);
            } else {
                assert(f[i] == sub.filter(pred)[i]);
                assert(sub.contains(f[i]));
                let j = choose|j: int| 0 <= j < sub.len() && sub[j] == f[i];
                assert(s[j] == f[i]);
            }
        }
    }
}

/// One forward step of a filter over a growing prefix.
pub proof fn lemma_filter_take_step<A>(s: Seq<A>, i: int, pred: spec_fn(A) -> bool)
    requires
        0 <= i < s.len(),
    ensures
        s.take(i + 1).filter(pred) == if pred(s[i]) {
            s.take(i).filter(pred).push(s[i])
        } else {
            s.take(i).filter(pred)
        },
{
    reveal(Seq::filter);
    assert(s.take(i + 1).drop_last() =~= s.take(i));
    assert(s.take(i + 1).last() == s[i]);
}

// --- reconciliation ----------------------------------------------------

/// A resident record survives reconciliation when its key is still desired
/// at its resident tier.
pub open spec fn spec_keep_record(
    cfg: HeightFieldConfig,
    lod: LodConfig,
    radius: int,
    vx: int,
    vz: int,
) -> spec_fn(ChunkRecord) -> bool {
    |r: ChunkRecord| spec_desired_tier(cfg, lod, radius, vx, vz, r.key) == Some(r.tier)
}

/// A queued build (or in-flight ticket) survives when its key is still
/// desired at its target tier.
pub open spec fn spec_keep_ticket(
    cfg: HeightFieldConfig,
    lod: LodConfig,
    radius: int,
    vx: int,
    vz: int,
) -> spec_fn(JobTicket) -> bool {
    |t: JobTicket| spec_desired_tier(cfg, lod, radius, vx, vz, t.key) == Some(t.tier)
}

/// Pending-build variant of [`spec_keep_ticket`].
pub open spec fn spec_keep_build(
    cfg: HeightFieldConfig,
    lod: LodConfig,
    radius: int,
    vx: int,
    vz: int,
) -> spec_fn(CompletedBuild) -> bool {
    |b: CompletedBuild| spec_desired_tier(cfg, lod, radius, vx, vz, b.key) == Some(b.tier)
}

/// The unload event for a despawned record.
pub open spec fn spec_unload_event(r: ChunkRecord) -> ChunkUnloaded {
    ChunkUnloaded { key: r.key, handle: r.handle }
}

/// The complement of [`spec_keep_record`]: records to despawn.
pub open spec fn spec_toss_record(
    cfg: HeightFieldConfig,
    lod: LodConfig,
    radius: int,
    vx: int,
    vz: int,
) -> spec_fn(ChunkRecord) -> bool {
    |r: ChunkRecord| !(spec_keep_record(cfg, lod, radius, vx, vz)(r))
}

/// The record-to-event map used when despawning.
pub open spec fn spec_unload_map() -> spec_fn(ChunkRecord) -> ChunkUnloaded {
    |r: ChunkRecord| spec_unload_event(r)
}

/// Acceptance test for a finished build: its job is still in flight.
pub open spec fn spec_accept_pred(tickets: Seq<JobTicket>) -> spec_fn(CompletedBuild) -> bool {
    |c: CompletedBuild| tickets_has(tickets, c.key, c.tier)
}

/// The completions that still match an in-flight ticket.
pub open spec fn spec_accepted_of(
    completions: Seq<CompletedBuild>,
    tickets: Seq<JobTicket>,
) -> Seq<CompletedBuild> {
    completions.filter(spec_accept_pred(tickets))
}

/// Reconcile the resident set against the desired set: keep exactly the
/// records whose key is still desired at its resident tier, and emit one
/// `ChunkUnloaded` event, in record order, for each removed record.
fn reconcile_records(
    records: Vec<ChunkRecord>,
    cfg: &HeightFieldConfig,
    lod: &LodConfig,
    radius: u32,
    vx: i64,
    vz: i64,
) -> (r: (Vec<ChunkRecord>, Vec<ChunkUnloaded>))
    requires
        cfg.wf(),
        lod.wf(),
        radius <= RADIUS_LIMIT,
        -VIEW_LIMIT <= vx <= VIEW_LIMIT,
        -VIEW_LIMIT <= vz <= VIEW_LIMIT,
    ensures
        r.0@ == records@.filter(spec_keep_record(*cfg, *lod, radius as int, vx as int, vz as int)),
        r.1@ == records@.filter(
            spec_toss_record(*cfg, *lod, radius as int, vx as int, vz as int),
        ).map_values(spec_unload_map()),
{
    let ghost keep = spec_keep_record(*cfg, *lod, radius as int, vx as int, vz as int);
    let ghost toss = spec_toss_record(*cfg, *lod, radius as int, vx as int, vz as int);
    let mut kept: Vec<ChunkRecord> = Vec::new();
    let mut unloaded: Vec<ChunkUnloaded> = Vec::new();
    let mut i: usize = 0;
    proof {
        assert(records@.take(0) =~= Seq::<ChunkRecord>::empty());
        reveal(Seq::filter);
    }
    while i < records.len()
        invariant
            cfg.wf(),
            lod.wf(),
            radius <= RADIUS_LIMIT,
            -VIEW_LIMIT <= vx <= VIEW_LIMIT,
            -VIEW_LIMIT <= vz <= VIEW_LIMIT,
            keep == spec_keep_record(*cfg, *lod, radius as int, vx as int, vz as int),
            toss == spec_toss_record(*cfg, *lod, radius as int, vx as int, vz as int),
            0 <= i <= records@.len(),
            kept@ == records@.take(i as int).filter(keep),
            unloaded@ == records@.take(i as int).filter(toss).map_values(spec_unload_map()),
        decreases records@.len() - i,
    {
        let rec = records[i];
        let ghost prefix = records@.take(i as int);
        proof {
            lemma_filter_take_step(records@, i as int, keep);
            lemma_filter_take_step(records@, i as int, toss);
        }
        match desired_tier_at(cfg, lod, radius, vx, vz, rec.key) {
            Some(t) => {
                if t == rec.tier {
                    kept.push(rec);
                } else {
                    unloaded.push(ChunkUnloaded { key: rec.key, handle: rec.handle });
                }
            },
            None => {
                unloaded.push(ChunkUnloaded { key: rec.key, handle: rec.handle });
            },
        }
        proof {
            if keep(rec) {
                assert(kept@ == records@.take(i + 1).filter(keep));
                assert(unloaded@ == records@.take(i + 1).filter(toss).map_values(
                    spec_unload_map(),
                ));
            } else {
                assert(kept@ == records@.take(i + 1).filter(keep));
                assert(prefix.filter(toss).map_values(spec_unload_map()).push(
                    spec_unload_event(rec),
                ) =~= prefix.filter(toss).push(rec).map_values(spec_unload_map()));
                assert(unloaded@ == records@.take(i + 1).filter(toss).map_values(
                    spec_unload_map(),
                ));
            }
        }
        i = i + 1;
    }
    proof {
        assert(records@.take(records@.len() as int) =~= records@);
    }
    (kept, unloaded)
}

/// Drop the in-flight tickets whose chunk and tier are no longer desired;
/// a superseded job's eventual result will simply never be accepted.
fn prune_tickets(
    tickets: Vec<JobTicket>,
    cfg: &HeightFieldConfig,
    lod: &LodConfig,
    radius: u32,
    vx: i64,
    vz: i64,
) -> (r: Vec<JobTicket>)
    requires
        cfg.wf(),
        lod.wf(),
        radius <= RADIUS_LIMIT,
        -VIEW_LIMIT <= vx <= VIEW_LIMIT,
        -VIEW_LIMIT <= vz <= VIEW_LIMIT,
    ensures
        r@ == tickets@.filter(spec_keep_ticket(*cfg, *lod, radius as int, vx as int, vz as int)),
{
    let ghost keep = spec_keep_ticket(*cfg, *lod, radius as int, vx as int, vz as int);
    let mut kept: Vec<JobTicket> = Vec::new();
    let mut i: usize = 0;
    proof {
        assert(tickets@.take(0) =~= Seq::<JobTicket>::empty());
        reveal(Seq::filter);
    }
    while i < tickets.len()
        invariant
            cfg.wf(),
            lod.wf(),
            radius <= RADIUS_LIMIT,
            -VIEW_LIMIT <= vx <= VIEW_LIMIT,
            -VIEW_LIMIT <= vz <= VIEW_LIMIT,
            keep == spec_keep_ticket(*cfg, *lod, radius as int, vx as int, vz as int),
            0 <= i <= tickets@.len(),
            kept@ == tickets@.take(i as int).filter(keep),
        decreases tickets@.len() - i,
    {
        let t = tickets[i];
        proof {
            lemma_filter_take_step(tickets@, i as int, keep);
        }
        match desired_tier_at(cfg, lod, radius, vx, vz, t.key) {
            Some(want) => {
                if want == t.tier {
                    kept.push(t);
                }
            },
            None => (),
        }
        i = i + 1;
    }
    proof {
        assert(tickets@.take(tickets@.len() as int) =~= tickets@);
    }
    kept
}

/// Drop the queued completed builds whose chunk and tier are no longer
/// desired, keeping the queue's arrival order.
fn prune_pending(
    pending: Vec<CompletedBuild>,
    cfg: &HeightFieldConfig,
    lod: &LodConfig,
    radius: u32,
    vx: i64,
    vz: i64,
) -> (r: Vec<CompletedBuild>)
    requires
        cfg.wf(),
        lod.wf(),
        radius <= RADIUS_LIMIT,
        -VIEW_LIMIT <= vx <= VIEW_LIMIT,
        -VIEW_LIMIT <= vz <= VIEW_LIMIT,
    ensures
        r@ == pending@.filter(spec_keep_build(*cfg, *lod, radius as int, vx as int, vz as int)),
{
    let ghost keep = spec_keep_build(*cfg, *lod, radius as int, vx as int, vz as int);
    let mut kept: Vec<CompletedBuild> = Vec::new();
    let mut rest = pending;
    let ghost all = rest@;
    let n0 = rest.len();
    proof {
        assert(n0 == all.len());
        assert(all.take(0) =~= Seq::<CompletedBuild>::empty());
        reveal(Seq::filter);
    }
    let mut i: usize = 0;
    while rest.len() > 0
        invariant
            cfg.wf(),
            lod.wf(),
            radius <= RADIUS_LIMIT,
            -VIEW_LIMIT <= vx <= VIEW_LIMIT,
            -VIEW_LIMIT <= vz <= VIEW_LIMIT,
            keep == spec_keep_build(*cfg, *lod, radius as int, vx as int, vz as int),
            all.len() <= usize::MAX,
            0 <= i <= all.len(),
            rest@ == all.skip(i as int),
            kept@ == all.take(i as int).filter(keep),
        decreases rest@.len(),
    {
        proof {
            assert(all.skip(i as int).len() > 0);
            assert(all[i as int] == all.skip(i as int)[0]);
            lemma_filter_take_step(all, i as int, keep);
        }
        let b = rest.remove(0);
        proof {
            assert(rest@ =~= all.skip(i + 1));
        }
        match desired_tier_at(cfg, lod, radius, vx, vz, b.key) {
            Some(want) => {
                if want == b.tier {
                    kept.push(b);
                } else {
                    proof {
                        assert(!keep(all[i as int]));
                    }
                }
            },
            None => (),
        }
        i = i + 1;
    }
    proof {
        assert(all.skip(i as int).len() == 0);
        assert(i == all.len());
        assert(all.take(all.len() as int) =~= all);
    }
    kept
}

// --- admission ----------------------------------------------------------

/// The view of an optional owned tile.
pub open spec fn opt_tile_view(t: Option<Tile>) -> Option<TileView> {
    match t {
        Some(t) => Some(t@),
        None => None,
    }
}

use crate::tile::TileView;

/// True when some record holds `key` at `tier`.
fn find_resident_at(index: &Vec<ChunkRecord>, key: ChunkKey, tier: LodTier) -> (r: bool)
    ensures
        r == resident_at(index@, key, tier),
{
    let n = index.len();
    let mut i: usize = 0;
    while i < n
        invariant
            n == index@.len(),
            0 <= i <= n,
            forall|p: int|
                0 <= p < i ==> !((#[trigger] index@[p]).key == key && index@[p].tier == tier),
        decreases n - i,
    {
        if index[i].key == key && index[i].tier == tier {
            proof {
                assert(index@[i as int].key == key && index@[i as int].tier == tier);
            }
            return true;
        }
        i = i + 1;
    }
    false
}

/// True when some ticket holds `key` at `tier`.
fn find_ticket_at(tickets: &Vec<JobTicket>, key: ChunkKey, tier: LodTier) -> (r: bool)
    ensures
        r == tickets_has(tickets@, key, tier),
{
    let n = tickets.len();
    let mut i: usize = 0;
    while i < n
        invariant
            n == tickets@.len(),
            0 <= i <= n,
            forall|p: int|
                0 <= p < i ==> !((#[trigger] tickets@[p]).key == key && tickets@[p].tier == tier),
        decreases n - i,
    {
        if tickets[i].key == key && tickets[i].tier == tier {
            proof {
                assert(tickets@[i as int].key == key && tickets@[i as int].tier == tier);
            }
            return true;
        }
        i = i + 1;
    }
    false
}

/// True when some queued build holds `key` at `tier`.
fn find_pending_at(pending: &Vec<CompletedBuild>, key: ChunkKey, tier: LodTier) -> (r: bool)
    ensures
        r == queue_has(pending@, key, tier),
{
    let n = pending.len();
    let mut i: usize = 0;
    while i < n
        invariant
            n == pending@.len(),
            0 <= i <= n,
            forall|p: int|
                0 <= p < i ==> !((#[trigger] pending@[p]).key == key && pending@[p].tier == tier),
        decreases n - i,
    {
        if pending[i].key == key && pending[i].tier == tier {
            proof {
                assert(pending@[i as int].key == key && pending@[i as int].tier == tier);
            }
            return true;
        }
        i = i + 1;
    }
    false
}

/// Admit build jobs for desired chunks, in desired-set order, while the
/// creation budget lasts. A chunk already resident at its desired tier, or
/// already queued for it (in flight or completed-but-unintegrated), is
/// skipped; a chunk whose own tile is not cached is reported as missing and
/// retried on a later pass. Each admitted job snapshots the chunk's own
/// tile and whichever of the three seam neighbors are cached.
fn admit_jobs(
    desired: &Vec<JobTicket>,
    index: &Vec<ChunkRecord>,
    in_flight: &mut Vec<JobTicket>,
    pending: &Vec<CompletedBuild>,
    store: &TileStore,
    cfg: &HeightFieldConfig,
    budget: usize,
) -> (r: (Vec<BuildJob>, Vec<ChunkKey>))
    requires
        cfg.wf(),
        store.wf(),
        crate::sample::store_matches(*cfg, *store),
        forall|i: int, j: int| 0 <= i < j < desired@.len() ==> desired@[i].key != desired@[j].key,
        forall|i: int|
            0 <= i < desired@.len() ==> spec_chunk_in_bounds(
                (#[trigger] desired@[i]).key,
                spec_counts_of(*cfg),
            ),
        tickets_unique(old(in_flight)@),
    ensures
        r.0@.len() <= budget,
        final(in_flight)@ == old(in_flight)@ + r.0@.map_values(
            |j: BuildJob| JobTicket { key: j.key, tier: j.tier },
        ),
        forall|i: int|
            0 <= i < r.0@.len() ==> {
                let j = #[trigger] r.0@[i];
                &&& (exists|di: int|
                    0 <= di < desired@.len() && (#[trigger] desired@[di]) == (JobTicket {
                        key: j.key,
                        tier: j.tier,
                    }))
                &&& !resident_at(index@, j.key, j.tier)
                &&& !tickets_has(old(in_flight)@, j.key, j.tier)
                &&& !queue_has(pending@, j.key, j.tier)
                &&& store.spec_fetch(j.key) == Some(j.own@)
                &&& opt_tile_view(j.right) == store.spec_fetch(
                    ChunkKey { cx: (j.key.cx + 1) as i32, cz: j.key.cz },
                )
                &&& opt_tile_view(j.up) == store.spec_fetch(
                    ChunkKey { cx: j.key.cx, cz: (j.key.cz + 1) as i32 },
                )
                &&& opt_tile_view(j.up_right) == store.spec_fetch(
                    ChunkKey { cx: (j.key.cx + 1) as i32, cz: (j.key.cz + 1) as i32 },
                )
                &&& spec_chunk_in_bounds(j.key, spec_counts_of(*cfg))
            },
        forall|i: int, j: int| 0 <= i < j < r.0@.len() ==> r.0@[i].key != r.0@[j].key,
        r.0@.len() < budget ==> forall|di: int|
            0 <= di < desired@.len() ==> {
                let t = #[trigger] desired@[di];
                ||| resident_at(index@, t.key, t.tier)
                ||| tickets_has(final(in_flight)@, t.key, t.tier)
                ||| queue_has(pending@, t.key, t.tier)
                ||| (!store.spec_has_tile(t.key) && keys_contain(r.1@, t.key))
            },
        forall|i: int|
            0 <= i < r.1@.len() ==> !store.spec_has_tile(#[trigger] r.1@[i]),
{
    let ghost fl0 = old(in_flight)@;
    let mut started: Vec<BuildJob> = Vec::new();
    let mut missing: Vec<ChunkKey> = Vec::new();
    let nd = desired.len();
    let mut di: usize = 0;
    proof {
        assert(in_flight@ =~= fl0 + started@.map_values(
            |j: BuildJob| JobTicket { key: j.key, tier: j.tier },
        ));
    }
    while di < nd
        invariant_except_break
            cfg.wf(),
            store.wf(),
            crate::sample::store_matches(*cfg, *store),
            nd == desired@.len(),
            forall|i: int, j: int|
                0 <= i < j < desired@.len() ==> desired@[i].key != desired@[j].key,
            forall|i: int|
                0 <= i < desired@.len() ==> spec_chunk_in_bounds(
                    (#[trigger] desired@[i]).key,
                    spec_counts_of(*cfg),
                ),
            tickets_unique(fl0),
            0 <= di <= nd,
            started@.len() <= budget,
            in_flight@ == fl0 + started@.map_values(
                |j: BuildJob| JobTicket { key: j.key, tier: j.tier },
            ),
            forall|i: int|
                0 <= i < started@.len() ==> {
                    let j = #[trigger] started@[i];
                    &&& (exists|dj: int|
                        0 <= dj < di && (#[trigger] desired@[dj]) == (JobTicket {
                            key: j.key,
                            tier: j.tier,
                        }))
                    &&& !resident_at(index@, j.key, j.tier)
                    &&& !tickets_has(fl0, j.key, j.tier)
                    &&& !queue_has(pending@, j.key, j.tier)
                    &&& store.spec_fetch(j.key) == Some(j.own@)
                    &&& opt_tile_view(j.right) == store.spec_fetch(
                        ChunkKey { cx: (j.key.cx + 1) as i32, cz: j.key.cz },
                    )
                    &&& opt_tile_view(j.up) == store.spec_fetch(
                        ChunkKey { cx: j.key.cx, cz: (j.key.cz + 1) as i32 },
                    )
                    &&& opt_tile_view(j.up_right) == store.spec_fetch(
                        ChunkKey { cx: (j.key.cx + 1) as i32, cz: (j.key.cz + 1) as i32 },
                    )
                    &&& spec_chunk_in_bounds(j.key, spec_counts_of(*cfg))
                },
            forall|i: int, j: int|
                0 <= i < j < started@.len() ==> started@[i].key != started@[j].key,
            forall|dj: int|
                0 <= dj < di ==> {
                    let t = #[trigger] desired@[dj];
                    ||| resident_at(index@, t.key, t.tier)
                    ||| tickets_has(in_flight@, t.key, t.tier)
                    ||| queue_has(pending@, t.key, t.tier)
                    ||| (!store.spec_has_tile(t.key) && keys_contain(missing@, t.key))
                },
            forall|i: int|
                0 <= i < missing@.len() ==> !store.spec_has_tile(#[trigger] missing@[i]),
        ensures
            cfg.wf(),
            started@.len() <= budget,
            in_flight@ == fl0 + started@.map_values(
                |j: BuildJob| JobTicket { key: j.key, tier: j.tier },
            ),
            forall|i: int|
                0 <= i < started@.len() ==> {
                    let j = #[trigger] started@[i];
                    &&& (exists|dj: int|
                        0 <= dj < desired@.len() && (#[trigger] desired@[dj]) == (JobTicket {
                            key: j.key,
                            tier: j.tier,
                        }))
                    &&& !resident_at(index@, j.key, j.tier)
                    &&& !tickets_has(fl0, j.key, j.tier)
                    &&& !queue_has(pending@, j.key, j.tier)
                    &&& store.spec_fetch(j.key) == Some(j.own@)
                    &&& opt_tile_view(j.right) == store.spec_fetch(
                        ChunkKey { cx: (j.key.cx + 1) as i32, cz: j.key.cz },
                    )
                    &&& opt_tile_view(j.up) == store.spec_fetch(
                        ChunkKey { cx: j.key.cx, cz: (j.key.cz + 1) as i32 },
                    )
                    &&& opt_tile_view(j.up_right) == store.spec_fetch(
                        ChunkKey { cx: (j.key.cx + 1) as i32, cz: (j.key.cz + 1) as i32 },
                    )
                    &&& spec_chunk_in_bounds(j.key, spec_counts_of(*cfg))
                },
            forall|i: int, j: int|
                0 <= i < j < started@.len() ==> started@[i].key != started@[j].key,
            started@.len() < budget ==> forall|dj: int|
                0 <= dj < desired@.len() ==> {
                    let t = #[trigger] desired@[dj];
                    ||| resident_at(index@, t.key, t.tier)
                    ||| tickets_has(in_flight@, t.key, t.tier)
                    ||| queue_has(pending@, t.key, t.tier)
                    ||| (!store.spec_has_tile(t.key) && keys_contain(missing@, t.key))
                },
            forall|i: int|
                0 <= i < missing@.len() ==> !store.spec_has_tile(#[trigger] missing@[i]),
        decreases nd - di,
    {
        let t = desired[di];
        if find_resident_at(index, t.key, t.tier) {
            di = di + 1;
            continue;
        }
        if find_ticket_at(in_flight, t.key, t.tier) || find_pending_at(pending, t.key, t.tier) {
            di = di + 1;
            continue;
        }
        if started.len() >= budget {
            break;
        }
        proof {
            // Not queued now means not queued before admission began: the
            // new tickets all carry keys of earlier desired entries.
            if tickets_has(fl0, t.key, t.tier) {
                let q = choose|q: int|
                    0 <= q < fl0.len() && (#[trigger] fl0[q]).key == t.key && fl0[q].tier
                        == t.tier;
                assert(in_flight@[q] == fl0[q]);
                assert(false);
            }
        }
        match store.fetch(t.key) {
            None => {
                let ghost missing_pre = missing@;
                missing.push(t.key);
                proof {
                    assert(missing@[missing@.len() - 1] == t.key);
                    assert(keys_contain(missing@, t.key));
                    // Keys already reported stay reported after the push.
                    assert forall|k2: ChunkKey| keys_contain(missing_pre, k2) implies keys_contain(
                        missing@,
                        k2,
                    ) by {
                        let m = choose|m: int|
                            0 <= m < missing_pre.len() && (#[trigger] missing_pre[m]) == k2;
                        assert(missing@[m] == k2);
                    }
                }
                di = di + 1;
            },
            Some(own) => {
                let right_key = ChunkKey { cx: t.key.cx + 1, cz: t.key.cz };
                let up_key = ChunkKey { cx: t.key.cx, cz: t.key.cz + 1 };
                let ur_key = ChunkKey { cx: t.key.cx + 1, cz: t.key.cz + 1 };
                let right = store.fetch(right_key);
                let up = store.fetch(up_key);
                let up_right = store.fetch(ur_key);
                let job = BuildJob { key: t.key, tier: t.tier, own, right, up, up_right };
                let ghost started_pre = started@;
                let ghost fl_prev = in_flight@;
                let ghost ticket_of = |j: BuildJob| JobTicket { key: j.key, tier: j.tier };
                proof {
                    assert forall|i: int|
                        0 <= i < started_pre.len() implies (#[trigger] started_pre[i]).key
                        != t.key by {
                        let dj = choose|dj: int|
                            0 <= dj < di && (#[trigger] desired@[dj]) == (JobTicket {
                                key: started_pre[i].key,
                                tier: started_pre[i].tier,
                            });
                        assert(desired@[dj].key != desired@[di as int].key);
                    }
                }
                started.push(job);
                in_flight.push(JobTicket { key: t.key, tier: t.tier });
                proof {
                    assert(started@.map_values(ticket_of) =~= started_pre.map_values(
                        ticket_of,
                    ).push(JobTicket { key: t.key, tier: t.tier }));
                    assert(in_flight@ =~= fl0 + started@.map_values(ticket_of));
                    assert(desired@[di as int] == (JobTicket { key: t.key, tier: t.tier }));
                    assert(tickets_has(in_flight@, t.key, t.tier)) by {
                        assert(in_flight@[in_flight@.len() - 1] == (JobTicket {
                            key: t.key,
                            tier: t.tier,
                        }));
                    }
                    // A ticket present before this admission is still
                    // present after the push.
                    assert forall|k2: ChunkKey, t2: LodTier|
                        tickets_has(fl_prev, k2, t2) implies tickets_has(
                        in_flight@,
                        k2,
                        t2,
                    ) by {
                        let q = choose|q: int|
                            0 <= q < fl_prev.len() && (#[trigger] fl_prev[q]).key == k2
                                && fl_prev[q].tier == t2;
                        assert(in_flight@[q] == fl_prev[q]);
                    }
                }
                di = di + 1;
            },
        }
    }
    (started, missing)
}

// --- polling and integration -------------------------------------------

/// Accept the host's finished builds: each completion that still matches an
/// in-flight ticket (same key and tier) consumes that ticket and joins the
/// completion queue in arrival order; the rest — results of superseded jobs
/// — are discarded.
fn poll_completions(
    in_flight: &mut Vec<JobTicket>,
    pending: &mut Vec<CompletedBuild>,
    completions: Vec<CompletedBuild>,
)
    requires
        queue_unique(completions@),
        tickets_unique(old(in_flight)@),
    ensures
        final(pending)@ == old(pending)@ + spec_accepted_of(completions@, old(in_flight)@),
        tickets_unique(final(in_flight)@),
        forall|j: int|
            0 <= j < final(in_flight)@.len() ==> old(in_flight)@.contains(
                #[trigger] final(in_flight)@[j],
            ) && !queue_has_key(
                spec_accepted_of(completions@, old(in_flight)@),
                final(in_flight)@[j].key,
            ),
        forall|j: int|
            0 <= j < old(in_flight)@.len() && !queue_has_key(
                spec_accepted_of(completions@, old(in_flight)@),
                (#[trigger] old(in_flight)@[j]).key,
            ) ==> final(in_flight)@.contains(old(in_flight)@[j]),
{
    let ghost t2 = old(in_flight)@;
    let ghost acc_pred = spec_accept_pred(t2);
    let ghost all = completions@;
    let ghost pend0 = old(pending)@;
    let mut rest = completions;
    let n0 = rest.len();
    proof {
        assert(n0 == all.len());
        assert(all.take(0) =~= Seq::<CompletedBuild>::empty());
        reveal(Seq::filter);
        assert(pending@ =~= pend0 + all.take(0).filter(acc_pred));
    }
    let mut i: usize = 0;
    while rest.len() > 0
        invariant
            queue_unique(all),
            tickets_unique(t2),
            acc_pred == spec_accept_pred(t2),
            all.len() <= usize::MAX,
            0 <= i <= all.len(),
            rest@ == all.skip(i as int),
            pending@ == pend0 + all.take(i as int).filter(acc_pred),
            tickets_unique(in_flight@),
            forall|j: int|
                0 <= j < in_flight@.len() ==> t2.contains(#[trigger] in_flight@[j])
                    && !queue_has_key(all.take(i as int).filter(acc_pred), in_flight@[j].key),
            forall|j: int|
                0 <= j < t2.len() && !queue_has_key(
                    all.take(i as int).filter(acc_pred),
                    (#[trigger] t2[j]).key,
                ) ==> in_flight@.contains(t2[j]),
        decreases rest@.len(),
    {
        proof {
            assert(all.skip(i as int).len() > 0);
            assert(all[i as int] == all.skip(i as int)[0]);
            lemma_filter_take_step(all, i as int, acc_pred);
            lemma_filter_is_subset(all.take(i as int), acc_pred);
        }
        let c = rest.remove(0);
        proof {
            assert(rest@ =~= all.skip(i + 1));
            // Earlier accepted completions have other keys, so earlier
            // acceptance never consumed a ticket for this key.
            assert forall|p: int|
                0 <= p < all.take(i as int).filter(acc_pred).len() implies (#[trigger] all.take(
                i as int,
            ).filter(acc_pred)[p]).key != c.key by {
                let e = all.take(i as int).filter(acc_pred)[p];
                assert(all.take(i as int).contains(e));
                let q = choose|q: int| 0 <= q < i && all.take(i as int)[q] == e;
                assert(all[q] == e);
            }
            assert(!queue_has_key(all.take(i as int).filter(acc_pred), c.key));
        }
        // Non-blocking check: find the matching in-flight ticket, if any.
        let mut found: bool = false;
        let mut at: usize = 0;
        let n = in_flight.len();
        let ghost fl0 = in_flight@;
        let mut j: usize = 0;
        while j < n
            invariant
                n == fl0.len(),
                in_flight@ == fl0,
                0 <= j <= n,
                !found ==> forall|p: int|
                    0 <= p < j ==> !((#[trigger] fl0[p]).key == c.key && fl0[p].tier == c.tier),
                found ==> 0 <= at < n && fl0[at as int].key == c.key && fl0[at as int].tier
                    == c.tier,
            decreases n - j,
        {
            if !found && in_flight[j].key == c.key && in_flight[j].tier == c.tier {
                found = true;
                at = j;
            }
            j = j + 1;
        }
        if found {
            proof {
                assert(tickets_has(fl0, c.key, c.tier));
                assert(t2.contains(fl0[at as int]));
                assert(acc_pred(c));
            }
            let ghost before = in_flight@;
            in_flight.remove(at);
            pending.push(c);
            proof {
                let after = in_flight@;
                assert(pending@ == pend0 + all.take(i + 1).filter(acc_pred));
                assert forall|p: int|
                    0 <= p < after.len() implies before.contains(#[trigger] after[p]) by {
                    if p < at {
                        assert(after[p] == before[p]);
                    } else {
                        assert(after[p] == before[p + 1]);
                    }
                }
                assert forall|p: int|
                    0 <= p < after.len() implies t2.contains(#[trigger] after[p])
                        && !queue_has_key(all.take(i + 1).filter(acc_pred), after[p].key) by {
                    assert(before.contains(after[p]));
                    let q = choose|q: int| 0 <= q < before.len() && before[q] == after[p];
                    assert(t2.contains(before[q]));
                    // The removed ticket was the unique holder of this key.
                    if after[p].key == c.key {
                        if p < at {
                            assert(before[p] == after[p]);
                            assert(before[p].key == before[at as int].key);
                            assert(false);
                        } else {
                            assert(before[p + 1] == after[p]);
                            assert(before[p + 1].key == before[at as int].key);
                            assert(false);
                        }
                    }
                }
                assert forall|p: int|
                    0 <= p < t2.len() && !queue_has_key(
                        all.take(i + 1).filter(acc_pred),
                        (#[trigger] t2[p]).key,
                    ) implies after.contains(t2[p]) by {
                    let fplus = all.take(i + 1).filter(acc_pred);
                    let fi = all.take(i as int).filter(acc_pred);
                    assert(fplus == fi.push(c));
                    assert(fplus[fplus.len() - 1] == c);
                    assert(queue_has_key(fplus, c.key));
                    if queue_has_key(fi, t2[p].key) {
                        let q0 = choose|q0: int|
                            0 <= q0 < fi.len() && (#[trigger] fi[q0]).key == t2[p].key;
                        assert(fplus[q0] == fi[q0]);
                        assert(false);
                    }
                    assert(!queue_has_key(fi, t2[p].key));
                    assert(before.contains(t2[p]));
                    let q = choose|q: int| 0 <= q < before.len() && before[q] == t2[p];
                    assert(t2[p].key != c.key);
                    assert(q != at);
                    if q < at {
                        assert(after[q] == t2[p]);
                    } else {
                        assert(after[q - 1] == t2[p]);
                    }
                }
                assert forall|p: int, q: int|
                    0 <= p < q < after.len() implies after[p].key != after[q].key by {
                    let bp: int = if p < at { p } else { p + 1 };
                    let bq: int = if q < at { q } else { q + 1 };
                    assert(after[p] == before[bp] && after[q] == before[bq]);
                }
            }
        } else {
            proof {
                // No current ticket matches; had the completion matched an
                // original ticket, that ticket would still be here, since
                // earlier completions carried other keys.
                if acc_pred(c) {
                    let q = choose|q: int|
                        0 <= q < t2.len() && (#[trigger] t2[q]).key == c.key && t2[q].tier
                            == c.tier;
                    assert(in_flight@.contains(t2[q]));
                    let w = choose|w: int|
                        0 <= w < in_flight@.len() && in_flight@[w] == t2[q];
                    assert(false);
                }
                assert(pending@ == pend0 + all.take(i + 1).filter(acc_pred));
                assert forall|p: int|
                    0 <= p < in_flight@.len() implies t2.contains(#[trigger] in_flight@[p])
                        && !queue_has_key(
                        all.take(i + 1).filter(acc_pred),
                        in_flight@[p].key,
                    ) by {}
            }
        }
        i = i + 1;
    }
    proof {
        assert(all.skip(i as int).len() == 0);
        assert(i == all.len());
        assert(all.take(all.len() as int) =~= all);
    }
}

/// Integrate queued completed builds, oldest first, up to `budget` of them:
/// each one becomes a resident record with a fresh handle and the chunk's
/// world bounds, and emits one `ChunkLoaded` event carrying the mesh. The
/// remainder of the queue stays for later passes.
fn integrate_pending(
    index: &mut Vec<ChunkRecord>,
    pending: &mut Vec<CompletedBuild>,
    next_handle: &mut u64,
    cfg: &HeightFieldConfig,
    budget: usize,
) -> (loaded: Vec<ChunkLoaded>)
    requires
        cfg.wf(),
        forall|i: int|
            0 <= i < old(pending)@.len() ==> spec_chunk_in_bounds(
                (#[trigger] old(pending)@[i]).key,
                spec_counts_of(*cfg),
            ),
        *old(next_handle) + budget <= u64::MAX,
    ensures
        loaded@.len() == if budget <= old(pending)@.len() {
            budget as int
        } else {
            old(pending)@.len() as int
        },
        final(pending)@ == old(pending)@.skip(loaded@.len() as int),
        *final(next_handle) == *old(next_handle) + loaded@.len(),
        final(index)@.len() == old(index)@.len() + loaded@.len(),
        forall|i: int| 0 <= i < old(index)@.len() ==> final(index)@[i] == old(index)@[i],
        forall|i: int|
            0 <= i < loaded@.len() ==> {
                let e = #[trigger] loaded@[i];
                let src = old(pending)@[i];
                let o = spec_chunk_origin(*cfg, src.key);
                &&& e.key == src.key
                &&& e.tier == src.tier
                &&& e.mesh == src.mesh
                &&& e.handle == *old(next_handle) + i
                &&& e.min_x == o.0
                &&& e.min_z == o.1
                &&& e.max_x == o.0 + cfg.chunk_x
                &&& e.max_z == o.1 + cfg.chunk_z
                &&& final(index)@[old(index)@.len() + i] == (ChunkRecord {
                    key: src.key,
                    tier: src.tier,
                    handle: e.handle,
                    min_x: e.min_x,
                    min_z: e.min_z,
                    max_x: e.max_x,
                    max_z: e.max_z,
                })
            },
{
    let ghost pend0 = pending@;
    let ghost index0 = index@;
    let ghost h0 = *next_handle;
    let mut loaded: Vec<ChunkLoaded> = Vec::new();
    let mut n: usize = 0;
    proof {
        assert(pending@ =~= pend0.skip(0));
    }
    while n < budget && pending.len() > 0
        invariant
            cfg.wf(),
            forall|i: int|
                0 <= i < pend0.len() ==> spec_chunk_in_bounds(
                    (#[trigger] pend0[i]).key,
                    spec_counts_of(*cfg),
                ),
            h0 + budget <= u64::MAX,
            0 <= n <= budget,
            n <= pend0.len(),
            pending@ == pend0.skip(n as int),
            loaded@.len() == n,
            *next_handle == h0 + n,
            index@.len() == index0.len() + n,
            forall|i: int| 0 <= i < index0.len() ==> index@[i] == index0[i],
            forall|i: int|
                0 <= i < n ==> {
                    let e = #[trigger] loaded@[i];
                    let src = pend0[i];
                    let o = spec_chunk_origin(*cfg, src.key);
                    &&& e.key == src.key
                    &&& e.tier == src.tier
                    &&& e.mesh == src.mesh
                    &&& e.handle == h0 + i
                    &&& e.min_x == o.0
                    &&& e.min_z == o.1
                    &&& e.max_x == o.0 + cfg.chunk_x
                    &&& e.max_z == o.1 + cfg.chunk_z
                    &&& index@[index0.len() + i] == (ChunkRecord {
                        key: src.key,
                        tier: src.tier,
                        handle: e.handle,
                        min_x: e.min_x,
                        min_z: e.min_z,
                        max_x: e.max_x,
                        max_z: e.max_z,
                    })
                },
        decreases budget - n,
    {
        proof {
            assert(pend0.skip(n as int).len() > 0);
            assert(pend0[n as int] == pend0.skip(n as int)[0]);
        }
        let b = pending.remove(0);
        proof {
            assert(pending@ =~= pend0.skip(n + 1));
        }
        let (min_x, min_z, max_x, max_z) = chunk_world_aabb(cfg, b.key);
        let handle = *next_handle;
        *next_handle = *next_handle + 1;
        index.push(
            ChunkRecord { key: b.key, tier: b.tier, handle, min_x, min_z, max_x, max_z },
        );
        loaded.push(
            ChunkLoaded {
                key: b.key,
                tier: b.tier,
                handle,
                min_x,
                min_z,
                max_x,
                max_z,
                mesh: b.mesh,
            },
        );
        n = n + 1;
    }
    loaded
}

/// Tier-swap atomicity, event half: one pass emits at most one
/// `ChunkUnloaded` event per chunk key — each removed record is reported
/// exactly once.
pub proof fn lemma_unloaded_events_unique(s: StreamScheduler, vx: int, vz: int)
    requires
        s.wf(),
    ensures
        forall|i: int, j: int|
            0 <= i < j < spec_pass_unloaded(s, vx, vz).len()
                ==> spec_pass_unloaded(s, vx, vz)[i].key != spec_pass_unloaded(s, vx, vz)[j].key,
{
    let toss = spec_toss_record(s.cfg, s.stream.lod, s.stream.radius as int, vx, vz);
    lemma_filter_records_unique(s.index@, toss);
    let f = s.index@.filter(toss);
    let u = spec_pass_unloaded(s, vx, vz);
    assert forall|i: int, j: int| 0 <= i < j < u.len() implies u[i].key != u[j].key by {
        assert(u[i] == spec_unload_map()(f[i]) && u[j] == spec_unload_map()(f[j]));
    }
}

/// Admission uniqueness: in a well-formed scheduler — and every scheduling
/// pass keeps the scheduler well-formed — the in-flight job list holds at
/// most one entry per chunk key.
pub proof fn lemma_admission_unique(s: StreamScheduler, i: int, j: int)
    requires
        s.wf(),
        0 <= i < s.in_flight@.len(),
        0 <= j < s.in_flight@.len(),
        i != j,
    ensures
        s.in_flight@[i].key != s.in_flight@[j].key,
{
}

/// Tier-swap atomicity, bookkeeping half: in a well-formed scheduler the
/// resident index never holds two records for one chunk key, so a tier
/// change can never leave a key doubly resident.
pub proof fn lemma_resident_unique(s: StreamScheduler, i: int, j: int)
    requires
        s.wf(),
        0 <= i < s.index@.len(),
        0 <= j < s.index@.len(),
        i != j,
    ensures
        s.index@[i].key != s.index@[j].key,
{
}

// --- uniqueness is preserved by filtering ------------------------------

/// Filtering a key-unique record list keeps it key-unique.
proof fn lemma_filter_records_unique(s: Seq<ChunkRecord>, pred: spec_fn(ChunkRecord) -> bool)
    requires
        records_unique(s),
    ensures
        records_unique(s.filter(pred)),
    decreases s.len(),
{
    reveal(Seq::filter);
    if s.len() > 0 {
        let sub = s.drop_last();
        lemma_filter_records_unique(sub, pred);
        if pred(s.last()) {
            lemma_filter_is_subset(sub, pred);
            let f = sub.filter(pred);
            assert forall|i: int| 0 <= i < f.len() implies f[i].key != s.last().key by {
                assert(sub.contains(f[i]));
                let q = choose|q: int| 0 <= q < sub.len() && sub[q] == f[i];
                assert(s[q] == f[i] && s[q].key != s[s.len() - 1].key);
            }
        }
    }
}

/// Filtering a key-unique ticket list keeps it key-unique.
proof fn lemma_filter_tickets_unique(s: Seq<JobTicket>, pred: spec_fn(JobTicket) -> bool)
    requires
        tickets_unique(s),
    ensures
        tickets_unique(s.filter(pred)),
    decreases s.len(),
{
    reveal(Seq::filter);
    if s.len() > 0 {
        let sub = s.drop_last();
        lemma_filter_tickets_unique(sub, pred);
        if pred(s.last()) {
            lemma_filter_is_subset(sub, pred);
            let f = sub.filter(pred);
            assert forall|i: int| 0 <= i < f.len() implies f[i].key != s.last().key by {
                assert(sub.contains(f[i]));
                let q = choose|q: int| 0 <= q < sub.len() && sub[q] == f[i];
                assert(s[q] == f[i] && s[q].key != s[s.len() - 1].key);
            }
        }
    }
}

/// Filtering a key-unique build queue keeps it key-unique.
proof fn lemma_filter_queue_unique(s: Seq<CompletedBuild>, pred: spec_fn(CompletedBuild) -> bool)
    requires
        queue_unique(s),
    ensures
        queue_unique(s.filter(pred)),
    decreases s.len(),
{
    reveal(Seq::filter);
    if s.len() > 0 {
        let sub = s.drop_last();
        lemma_filter_queue_unique(sub, pred);
        if pred(s.last()) {
            lemma_filter_is_subset(sub, pred);
            let f = sub.filter(pred);
            assert forall|i: int| 0 <= i < f.len() implies f[i].key != s.last().key by {
                assert(sub.contains(f[i]));
                let q = choose|q: int| 0 <= q < sub.len() && sub[q] == f[i];
                assert(s[q] == f[i] && s[q].key != s[s.len() - 1].key);
            }
        }
    }
}

// --- the scheduler ------------------------------------------------------

/// Per-chunk streaming state machine, driven once per frame by
/// [`StreamScheduler::run_pass`]. For each key the lifecycle is
/// absent, then building, then integrated at a tier, and back to building
/// or absent when the desired set moves on.
pub struct StreamScheduler {
    pub cfg: HeightFieldConfig,
    pub stream: StreamConfig,
    /// Resident chunks: at most one record per key.
    pub index: Vec<ChunkRecord>,
    /// In-flight build jobs: at most one per key.
    pub in_flight: Vec<JobTicket>,
    /// Completed builds awaiting integration, in arrival order.
    pub pending: Vec<CompletedBuild>,
    /// Source of fresh scene handles.
    pub next_handle: u64,
}

impl StreamScheduler {
    /// Well-formedness: valid configuration; at most one resident record,
    /// one in-flight job and one queued build per key; no key in more than
    /// one of the three; and every tracked key inside the lattice.
    pub open spec fn wf(self) -> bool {
        &&& self.cfg.wf()
        &&& self.stream.wf()
        &&& records_unique(self.index@)
        &&& tickets_unique(self.in_flight@)
        &&& queue_unique(self.pending@)
        &&& forall|i: int, j: int|
            0 <= i < self.index@.len() && 0 <= j < self.in_flight@.len() ==> (
            #[trigger] self.index@[i]).key != (#[trigger] self.in_flight@[j]).key
        &&& forall|i: int, j: int|
            0 <= i < self.index@.len() && 0 <= j < self.pending@.len() ==> (
            #[trigger] self.index@[i]).key != (#[trigger] self.pending@[j]).key
        &&& forall|i: int, j: int|
            0 <= i < self.in_flight@.len() && 0 <= j < self.pending@.len() ==> (
            #[trigger] self.in_flight@[i]).key != (#[trigger] self.pending@[j]).key
        &&& forall|i: int|
            0 <= i < self.index@.len() ==> spec_chunk_in_bounds(
                (#[trigger] self.index@[i]).key,
                spec_counts_of(self.cfg),
            )
        &&& forall|i: int|
            0 <= i < self.in_flight@.len() ==> spec_chunk_in_bounds(
                (#[trigger] self.in_flight@[i]).key,
                spec_counts_of(self.cfg),
            )
        &&& forall|i: int|
            0 <= i < self.pending@.len() ==> spec_chunk_in_bounds(
                (#[trigger] self.pending@[i]).key,
                spec_counts_of(self.cfg),
            )
    }

    /// A fresh scheduler with nothing resident and nothing in flight.
    pub fn new(cfg: HeightFieldConfig, stream: StreamConfig) -> (s: StreamScheduler)
        requires
            cfg.wf(),
            stream.wf(),
        ensures
            s.wf(),
            s.cfg == cfg,
            s.stream == stream,
            s.index@.len() == 0,
            s.in_flight@.len() == 0,
            s.pending@.len() == 0,
            s.next_handle == 0,
    {
        StreamScheduler {
            cfg,
            stream,
            index: Vec::new(),
            in_flight: Vec::new(),
            pending: Vec::new(),
            next_handle: 0,
        }
    }

    /// Number of resident chunks.
    pub fn resident_count(&self) -> (n: usize)
        ensures
            n == self.index@.len(),
    {
        self.index.len()
    }

    /// Number of in-flight build jobs.
    pub fn in_flight_count(&self) -> (n: usize)
        ensures
            n == self.in_flight@.len(),
    {
        self.in_flight.len()
    }

    /// Number of completed builds awaiting integration.
    pub fn pending_count(&self) -> (n: usize)
        ensures
            n == self.pending@.len(),
    {
        self.pending.len()
    }

    /// The tier at which `key` is resident, if it is.
    pub fn resident_tier(&self, key: ChunkKey) -> (r: Option<LodTier>)
        requires
            self.wf(),
        ensures
            match r {
                Some(t) => resident_at(self.index@, key, t),
                None => !records_has_key(self.index@, key),
            },
    {
        let n = self.index.len();
        let mut i: usize = 0;
        while i < n
            invariant
                n == self.index@.len(),
                0 <= i <= n,
                forall|p: int| 0 <= p < i ==> (#[trigger] self.index@[p]).key != key,
            decreases n - i,
        {
            if self.index[i].key == key {
                proof {
                    assert(self.index@[i as int].key == key);
                }
                return Some(self.index[i].tier);
            }
            i = i + 1;
        }
        None
    }
}

// --- one full pass ------------------------------------------------------

/// The tickets of a list of build jobs.
pub open spec fn spec_tickets_of(js: Seq<BuildJob>) -> Seq<JobTicket> {
    js.map_values(|j: BuildJob| JobTicket { key: j.key, tier: j.tier })
}

/// The records reconciliation keeps for a pass.
pub open spec fn spec_pass_kept_records(s: StreamScheduler, vx: int, vz: int) -> Seq<
    ChunkRecord,
> {
    s.index@.filter(spec_keep_record(s.cfg, s.stream.lod, s.stream.radius as int, vx, vz))
}

/// The unload events reconciliation emits for a pass, in record order.
pub open spec fn spec_pass_unloaded(s: StreamScheduler, vx: int, vz: int) -> Seq<ChunkUnloaded> {
    s.index@.filter(spec_toss_record(s.cfg, s.stream.lod, s.stream.radius as int, vx, vz))
        .map_values(spec_unload_map())
}

/// The in-flight tickets surviving reconciliation.
pub open spec fn spec_pass_kept_tickets(s: StreamScheduler, vx: int, vz: int) -> Seq<JobTicket> {
    s.in_flight@.filter(spec_keep_ticket(s.cfg, s.stream.lod, s.stream.radius as int, vx, vz))
}

/// The queued builds surviving reconciliation, in arrival order.
pub open spec fn spec_pass_kept_pending(s: StreamScheduler, vx: int, vz: int) -> Seq<
    CompletedBuild,
> {
    s.pending@.filter(spec_keep_build(s.cfg, s.stream.lod, s.stream.radius as int, vx, vz))
}

/// The in-flight tickets right after admission: the kept ones plus a
/// ticket per started job.
pub open spec fn spec_pass_tickets2(
    s: StreamScheduler,
    vx: int,
    vz: int,
    started: Seq<BuildJob>,
) -> Seq<JobTicket> {
    spec_pass_kept_tickets(s, vx, vz) + spec_tickets_of(started)
}

/// The completion queue right after polling: kept builds, then newly
/// accepted completions, both in arrival order.
pub open spec fn spec_pass_queue2(
    s: StreamScheduler,
    vx: int,
    vz: int,
    started: Seq<BuildJob>,
    completions: Seq<CompletedBuild>,
) -> Seq<CompletedBuild> {
    spec_pass_kept_pending(s, vx, vz) + spec_accepted_of(
        completions,
        spec_pass_tickets2(s, vx, vz, started),
    )
}

impl StreamScheduler {
    /// Run one update pass: recompute the desired set from the viewpoint,
    /// reconcile the resident set and queued work against it, admit new
    /// build jobs under the creation budget, poll the host's finished
    /// builds, and integrate queued meshes oldest-first under the
    /// integration budget.
    ///
    /// `completions` are the builds the host observed finishing since the
    /// last pass, at most one per chunk key (there is at most one job in
    /// flight per key). The returned [`PassOutput`] tells the host what to
    /// despawn, which jobs to run, which meshes to realize, and which tiles
    /// to load for the next pass.
    #[verifier::rlimit(100)]
    #[verifier::spinoff_prover]
    pub fn run_pass(
        &mut self,
        store: &TileStore,
        view_x: i64,
        view_z: i64,
        completions: Vec<CompletedBuild>,
    ) -> (out: PassOutput)
        requires
            old(self).wf(),
            store.wf(),
            crate::sample::store_matches(old(self).cfg, *store),
            -VIEW_LIMIT <= view_x <= VIEW_LIMIT,
            -VIEW_LIMIT <= view_z <= VIEW_LIMIT,
            queue_unique(completions@),
            forall|i: int|
                0 <= i < completions@.len() ==> spec_chunk_in_bounds(
                    (#[trigger] completions@[i]).key,
                    spec_counts_of(old(self).cfg),
                ),
            old(self).next_handle + old(self).stream.integration_budget <= u64::MAX,
        ensures
            final(self).wf(),
            final(self).cfg == old(self).cfg,
            final(self).stream == old(self).stream,
            // Reconciliation: one unload event, in record order, for each
            // record whose key or tier is no longer desired.
            out.unloaded@ == spec_pass_unloaded(*old(self), view_x as int, view_z as int),
            // Admission stays within the creation budget.
            out.started@.len() <= old(self).stream.build_budget,
            // Integration stays within its budget and drains the queue
            // oldest-first; what it cannot take this pass stays queued.
            out.loaded@.len() <= old(self).stream.integration_budget,
            out.loaded@.len() == ({
                let q2 = spec_pass_queue2(
                    *old(self),
                    view_x as int,
                    view_z as int,
                    out.started@,
                    completions@,
                );
                if old(self).stream.integration_budget <= q2.len() {
                    old(self).stream.integration_budget as int
                } else {
                    q2.len() as int
                }
            }),
            final(self).pending@ == spec_pass_queue2(
                *old(self),
                view_x as int,
                view_z as int,
                out.started@,
                completions@,
            ).skip(out.loaded@.len() as int),
            final(self).next_handle == old(self).next_handle + out.loaded@.len(),
            // The new resident set: the kept records, then one new record
            // per integrated mesh, in integration order.
            final(self).index@.len() == spec_pass_kept_records(
                *old(self),
                view_x as int,
                view_z as int,
            ).len() + out.loaded@.len(),
            forall|i: int|
                0 <= i < spec_pass_kept_records(*old(self), view_x as int, view_z as int).len()
                    ==> final(self).index@[i] == spec_pass_kept_records(
                    *old(self),
                    view_x as int,
                    view_z as int,
                )[i],
            forall|i: int|
                0 <= i < out.loaded@.len() ==> {
                    let e = #[trigger] out.loaded@[i];
                    let src = spec_pass_queue2(
                        *old(self),
                        view_x as int,
                        view_z as int,
                        out.started@,
                        completions@,
                    )[i];
                    let o = spec_chunk_origin(old(self).cfg, src.key);
                    let base = spec_pass_kept_records(
                        *old(self),
                        view_x as int,
                        view_z as int,
                    ).len();
                    &&& e.key == src.key
                    &&& e.tier == src.tier
                    &&& e.mesh == src.mesh
                    &&& e.handle == old(self).next_handle + i
                    &&& e.min_x == o.0
                    &&& e.min_z == o.1
                    &&& e.max_x == o.0 + old(self).cfg.chunk_x
                    &&& e.max_z == o.1 + old(self).cfg.chunk_z
                    &&& final(self).index@[base + i] == (ChunkRecord {
                        key: src.key,
                        tier: src.tier,
                        handle: e.handle,
                        min_x: e.min_x,
                        min_z: e.min_z,
                        max_x: e.max_x,
                        max_z: e.max_z,
                    })
                },
            // Every started job targets a desired chunk at its desired
            // tier, was neither resident nor queued for it, and carries
            // snapshots of exactly the cached tiles.
            forall|i: int|
                0 <= i < out.started@.len() ==> {
                    let j = #[trigger] out.started@[i];
                    &&& spec_desired_tier(
                        old(self).cfg,
                        old(self).stream.lod,
                        old(self).stream.radius as int,
                        view_x as int,
                        view_z as int,
                        j.key,
                    ) == Some(j.tier)
                    &&& !resident_at(
                        spec_pass_kept_records(*old(self), view_x as int, view_z as int),
                        j.key,
                        j.tier,
                    )
                    &&& !tickets_has(
                        spec_pass_kept_tickets(*old(self), view_x as int, view_z as int),
                        j.key,
                        j.tier,
                    )
                    &&& !queue_has(
                        spec_pass_kept_pending(*old(self), view_x as int, view_z as int),
                        j.key,
                        j.tier,
                    )
                    &&& store.spec_fetch(j.key) == Some(j.own@)
                    &&& opt_tile_view(j.right) == store.spec_fetch(
                        ChunkKey { cx: (j.key.cx + 1) as i32, cz: j.key.cz },
                    )
                    &&& opt_tile_view(j.up) == store.spec_fetch(
                        ChunkKey { cx: j.key.cx, cz: (j.key.cz + 1) as i32 },
                    )
                    &&& opt_tile_view(j.up_right) == store.spec_fetch(
                        ChunkKey { cx: (j.key.cx + 1) as i32, cz: (j.key.cz + 1) as i32 },
                    )
                },
            forall|i: int, j: int|
                0 <= i < j < out.started@.len() ==> out.started@[i].key != out.started@[j].key,
            // When the creation budget was not exhausted, every desired
            // chunk is accounted for: resident at its tier, queued for it,
            // or waiting for its tile to be loaded.
            out.started@.len() < old(self).stream.build_budget ==> forall|k: ChunkKey|
                (#[trigger] spec_desired_tier(
                    old(self).cfg,
                    old(self).stream.lod,
                    old(self).stream.radius as int,
                    view_x as int,
                    view_z as int,
                    k,
                )) is Some ==> {
                    let t = spec_desired_tier(
                        old(self).cfg,
                        old(self).stream.lod,
                        old(self).stream.radius as int,
                        view_x as int,
                        view_z as int,
                        k,
                    )->0;
                    ||| resident_at(
                        spec_pass_kept_records(*old(self), view_x as int, view_z as int),
                        k,
                        t,
                    )
                    ||| tickets_has(
                        spec_pass_tickets2(*old(self), view_x as int, view_z as int, out.started@),
                        k,
                        t,
                    )
                    ||| queue_has(
                        spec_pass_kept_pending(*old(self), view_x as int, view_z as int),
                        k,
                        t,
                    )
                    ||| (!store.spec_has_tile(k) && keys_contain(out.missing@, k))
                },
            forall|i: int|
                0 <= i < out.missing@.len() ==> !store.spec_has_tile(#[trigger] out.missing@[i]),
            // Polling never drops surviving work: a kept-or-started ticket
            // stays in flight exactly until its completion is accepted.
            forall|jj: int|
                0 <= jj < final(self).in_flight@.len() ==> spec_pass_tickets2(
                    *old(self),
                    view_x as int,
                    view_z as int,
                    out.started@,
                ).contains(#[trigger] final(self).in_flight@[jj]) && !queue_has_key(
                    spec_accepted_of(
                        completions@,
                        spec_pass_tickets2(*old(self), view_x as int, view_z as int, out.started@),
                    ),
                    final(self).in_flight@[jj].key,
                ),
            forall|jj: int|
                0 <= jj < spec_pass_tickets2(
                    *old(self),
                    view_x as int,
                    view_z as int,
                    out.started@,
                ).len() && !queue_has_key(
                    spec_accepted_of(
                        completions@,
                        spec_pass_tickets2(*old(self), view_x as int, view_z as int, out.started@),
                    ),
                    (#[trigger] spec_pass_tickets2(
                        *old(self),
                        view_x as int,
                        view_z as int,
                        out.started@,
                    )[jj]).key,
                ) ==> final(self).in_flight@.contains(
                    spec_pass_tickets2(*old(self), view_x as int, view_z as int, out.started@)[jj],
                ),
            // Each pass emits at most one load event per chunk key.
            forall|i: int, j: int|
                0 <= i < j < out.loaded@.len() ==> out.loaded@[i].key != out.loaded@[j].key,
    {
        let ghost s0 = *self;
        let ghost vxi = view_x as int;
        let ghost vzi = view_z as int;
        let cfg = self.cfg;
        let lod = self.stream.lod;
        let radius = self.stream.radius;
        let ghost radi = radius as int;
        let ghost keep_r = spec_keep_record(cfg, lod, radi, vxi, vzi);
        let ghost keep_t = spec_keep_ticket(cfg, lod, radi, vxi, vzi);
        let ghost keep_b = spec_keep_build(cfg, lod, radi, vxi, vzi);

        // Step 1: the desired set fully replaces the previous one.
        let desired = desired_chunks(&cfg, &lod, radius, view_x, view_z);

        // Step 2: reconcile residents and cancel stale queued work.
        let mut records: Vec<ChunkRecord> = Vec::new();
        core::mem::swap(&mut records, &mut self.index);
        let (kept, unloaded) = reconcile_records(records, &cfg, &lod, radius, view_x, view_z);
        self.index = kept;
        let mut tickets: Vec<JobTicket> = Vec::new();
        core::mem::swap(&mut tickets, &mut self.in_flight);
        let pruned_tickets = prune_tickets(tickets, &cfg, &lod, radius, view_x, view_z);
        self.in_flight = pruned_tickets;
        let mut builds: Vec<CompletedBuild> = Vec::new();
        core::mem::swap(&mut builds, &mut self.pending);
        let pruned_pending = prune_pending(builds, &cfg, &lod, radius, view_x, view_z);
        self.pending = pruned_pending;
        let ghost kept_r = self.index@;
        let ghost kept_t = self.in_flight@;
        let ghost kept_p = self.pending@;
        proof {
            lemma_filter_records_unique(s0.index@, keep_r);
            lemma_filter_tickets_unique(s0.in_flight@, keep_t);
            lemma_filter_queue_unique(s0.pending@, keep_b);
            lemma_filter_is_subset(s0.index@, keep_r);
            lemma_filter_is_subset(s0.in_flight@, keep_t);
            lemma_filter_is_subset(s0.pending@, keep_b);
            // Pruned elements keep their desired-tier property.
            assert forall|i: int|
                0 <= i < kept_r.len() implies spec_desired_tier(cfg, lod, radi, vxi, vzi, (
            #[trigger] kept_r[i]).key) == Some(kept_r[i].tier) by {
                s0.index@.lemma_filter_pred(keep_r, i);
            }
            assert forall|i: int|
                0 <= i < kept_t.len() implies spec_desired_tier(cfg, lod, radi, vxi, vzi, (
            #[trigger] kept_t[i]).key) == Some(kept_t[i].tier) by {
                s0.in_flight@.lemma_filter_pred(keep_t, i);
            }
            assert forall|i: int|
                0 <= i < kept_p.len() implies spec_desired_tier(cfg, lod, radi, vxi, vzi, (
            #[trigger] kept_p[i]).key) == Some(kept_p[i].tier) by {
                s0.pending@.lemma_filter_pred(keep_b, i);
            }
        }

        // Step 3: admit new build jobs under the creation budget.
        let (started, missing) = admit_jobs(
            &desired,
            &self.index,
            &mut self.in_flight,
            &self.pending,
            store,
            &cfg,
            self.stream.build_budget,
        );
        let ghost t2 = self.in_flight@;
        proof {
            assert(t2 == spec_pass_tickets2(s0, vxi, vzi, started@)) by {
                assert(spec_tickets_of(started@) =~= started@.map_values(
                    |j: BuildJob| JobTicket { key: j.key, tier: j.tier },
                ));
            }
            // Started jobs target desired chunks, so their keys carry the
            // desired tier; with kept tickets unique and started keys new,
            // the post-admission ticket list is key-unique.
            assert forall|i: int|
                0 <= i < started@.len() implies spec_desired_tier(
                cfg,
                lod,
                radi,
                vxi,
                vzi,
                (#[trigger] started@[i]).key,
            ) == Some(started@[i].tier) && spec_chunk_in_bounds(
                started@[i].key,
                spec_counts_of(cfg),
            ) by {
                let di = choose|di: int|
                    0 <= di < desired@.len() && (#[trigger] desired@[di]) == (JobTicket {
                        key: started@[i].key,
                        tier: started@[i].tier,
                    });
            }
            assert forall|i: int|
                0 <= i < started@.len() implies !tickets_has_key(
                kept_t,
                (#[trigger] started@[i]).key,
            ) by {
                if tickets_has_key(kept_t, started@[i].key) {
                    let q = choose|q: int|
                        0 <= q < kept_t.len() && (#[trigger] kept_t[q]).key == started@[i].key;
                    assert(kept_t[q].tier == started@[i].tier);
                    assert(tickets_has(kept_t, started@[i].key, started@[i].tier));
                    assert(false);
                }
            }
            assert(tickets_unique(t2)) by {
                assert forall|i: int, j: int|
                    0 <= i < j < t2.len() implies t2[i].key != t2[j].key by {
                    let nk = kept_t.len() as int;
                    if i < nk && j >= nk {
                        assert(t2[j] == spec_tickets_of(started@)[j - nk]);
                        assert(t2[j].key == started@[j - nk].key);
                        if t2[i].key == t2[j].key {
                            assert(tickets_has_key(kept_t, started@[j - nk].key));
                            assert(false);
                        }
                    } else if i >= nk {
                        assert(t2[i].key == started@[i - nk].key);
                        assert(t2[j].key == started@[j - nk].key);
                    }
                }
            }
        }

        // Step 4: non-blocking polling of finished builds.
        poll_completions(&mut self.in_flight, &mut self.pending, completions);
        let ghost q2 = self.pending@;
        proof {
            assert(q2 == spec_pass_queue2(s0, vxi, vzi, started@, completions@));
        }

        // Step 5: budgeted, ordered integration.
        proof {
            // Every queued build's key is a lattice key: kept builds by the
            // old well-formedness, accepted completions by assumption.
            lemma_filter_is_subset(
                completions@,
                |c: CompletedBuild| tickets_has(t2, c.key, c.tier),
            );
            assert forall|i: int|
                0 <= i < q2.len() implies spec_chunk_in_bounds(
                (#[trigger] q2[i]).key,
                spec_counts_of(cfg),
            ) by {
                let np = kept_p.len() as int;
                if i < np {
                    assert(q2[i] == kept_p[i]);
                    assert(s0.pending@.contains(kept_p[i]));
                    let q = choose|q: int|
                        0 <= q < s0.pending@.len() && s0.pending@[q] == kept_p[i];
                } else {
                    let acc = spec_accepted_of(completions@, t2);
                    assert(q2[i] == acc[i - np]);
                    assert(completions@.contains(acc[i - np]));
                    let q = choose|q: int|
                        0 <= q < completions@.len() && completions@[q] == acc[i - np];
                }
            }
        }
        let mut next_handle = self.next_handle;
        let loaded = integrate_pending(
            &mut self.index,
            &mut self.pending,
            &mut next_handle,
            &cfg,
            self.stream.integration_budget,
        );
        self.next_handle = next_handle;

        proof {
            let acc = spec_accepted_of(completions@, t2);
            let fl = self.in_flight@;
            let nk = kept_r.len() as int;
            let nkt = kept_t.len() as int;
            let np = kept_p.len() as int;
            let nl = loaded@.len() as int;
            lemma_filter_queue_unique(completions@, spec_accept_pred(t2));
            // Keys of newly started jobs never collide with surviving
            // records or queued builds: both sides carry the one desired
            // tier of the key, and admission skipped such keys.
            assert forall|i: int, j: int|
                0 <= i < t2.len() && 0 <= j < kept_p.len() implies (#[trigger] t2[i]).key != (
            #[trigger] kept_p[j]).key by {
                assert(s0.pending@.contains(kept_p[j]));
                let pj = choose|pj: int|
                    0 <= pj < s0.pending@.len() && s0.pending@[pj] == kept_p[j];
                if i < nkt {
                    assert(t2[i] == kept_t[i]);
                    assert(s0.in_flight@.contains(kept_t[i]));
                    let qi = choose|qi: int|
                        0 <= qi < s0.in_flight@.len() && s0.in_flight@[qi] == kept_t[i];
                } else {
                    assert(t2[i] == spec_tickets_of(started@)[i - nkt]);
                    assert(t2[i].key == started@[i - nkt].key && t2[i].tier == started@[i
                        - nkt].tier);
                    if t2[i].key == kept_p[j].key {
                        assert(started@[i - nkt].tier == kept_p[j].tier);
                        assert(queue_has(kept_p, started@[i - nkt].key, started@[i - nkt].tier));
                        assert(false);
                    }
                }
            }
            assert forall|i: int, j: int|
                0 <= i < t2.len() && 0 <= j < kept_r.len() implies (#[trigger] t2[i]).key != (
            #[trigger] kept_r[j]).key by {
                assert(s0.index@.contains(kept_r[j]));
                let pj = choose|pj: int| 0 <= pj < s0.index@.len() && s0.index@[pj] == kept_r[j];
                if i < nkt {
                    assert(t2[i] == kept_t[i]);
                    assert(s0.in_flight@.contains(kept_t[i]));
                    let qi = choose|qi: int|
                        0 <= qi < s0.in_flight@.len() && s0.in_flight@[qi] == kept_t[i];
                } else {
                    assert(t2[i] == spec_tickets_of(started@)[i - nkt]);
                    assert(t2[i].key == started@[i - nkt].key && t2[i].tier == started@[i
                        - nkt].tier);
                    if t2[i].key == kept_r[j].key {
                        assert(started@[i - nkt].tier == kept_r[j].tier);
                        assert(resident_at(kept_r, started@[i - nkt].key, started@[i
                            - nkt].tier));
                        assert(false);
                    }
                }
            }
            // Accepted completions consumed an in-flight ticket, so their
            // keys are ticket keys.
            lemma_filter_is_subset(completions@, spec_accept_pred(t2));
            assert forall|i: int|
                0 <= i < acc.len() implies tickets_has(t2, (#[trigger] acc[i]).key, acc[i].tier)
                by {
                completions@.lemma_filter_pred(spec_accept_pred(t2), i);
            }
            // The queue after polling is key-unique and its keys avoid the
            // surviving records.
            assert(queue_unique(q2)) by {
                assert forall|i: int, j: int|
                    0 <= i < j < q2.len() implies q2[i].key != q2[j].key by {
                    if i < np && j >= np {
                        assert(q2[i] == kept_p[i] && q2[j] == acc[j - np]);
                        let q = choose|q: int|
                            0 <= q < t2.len() && (#[trigger] t2[q]).key == acc[j - np].key
                                && t2[q].tier == acc[j - np].tier;
                    } else if i >= np {
                        assert(q2[i] == acc[i - np] && q2[j] == acc[j - np]);
                    } else {
                        assert(q2[i] == kept_p[i] && q2[j] == kept_p[j]);
                    }
                }
            }
            assert forall|i: int, j: int|
                0 <= i < q2.len() && 0 <= j < kept_r.len() implies (#[trigger] q2[i]).key != (
            #[trigger] kept_r[j]).key by {
                if i < np {
                    assert(q2[i] == kept_p[i]);
                    assert(s0.pending@.contains(kept_p[i]));
                    let pi = choose|pi: int|
                        0 <= pi < s0.pending@.len() && s0.pending@[pi] == kept_p[i];
                    assert(s0.index@.contains(kept_r[j]));
                    let pj = choose|pj: int|
                        0 <= pj < s0.index@.len() && s0.index@[pj] == kept_r[j];
                } else {
                    assert(q2[i] == acc[i - np]);
                    let q = choose|q: int|
                        0 <= q < t2.len() && (#[trigger] t2[q]).key == acc[i - np].key
                            && t2[q].tier == acc[i - np].tier;
                }
            }
            // The final resident set: kept records plus integrated ones.
            assert(records_unique(self.index@)) by {
                assert forall|i: int, j: int|
                    0 <= i < j < self.index@.len() implies self.index@[i].key
                    != self.index@[j].key by {
                    if i < nk && j >= nk {
                        assert(self.index@[i] == kept_r[i]);
                        assert(loaded@[j - nk].key == q2[j - nk].key);
                        assert(self.index@[j].key == q2[j - nk].key);
                    } else if i >= nk {
                        assert(loaded@[i - nk].key == q2[i - nk].key);
                        assert(loaded@[j - nk].key == q2[j - nk].key);
                        assert(self.index@[i].key == q2[i - nk].key);
                        assert(self.index@[j].key == q2[j - nk].key);
                    } else {
                        assert(self.index@[i] == kept_r[i] && self.index@[j] == kept_r[j]);
                    }
                }
            }
            // The final in-flight set: surviving tickets whose completion
            // has not arrived.
            assert forall|i: int, j: int|
                0 <= i < self.index@.len() && 0 <= j < fl.len() implies (
            #[trigger] self.index@[i]).key != (#[trigger] fl[j]).key by {
                assert(t2.contains(fl[j]) && !queue_has_key(acc, fl[j].key));
                let q = choose|q: int| 0 <= q < t2.len() && t2[q] == fl[j];
                if i < nk {
                    assert(self.index@[i] == kept_r[i]);
                } else {
                    assert(loaded@[i - nk].key == q2[i - nk].key);
                    assert(self.index@[i].key == q2[i - nk].key);
                    let w = i - nk;
                    if w < np {
                        assert(q2[w] == kept_p[w]);
                    } else {
                        assert(q2[w] == acc[w - np]);
                        assert(acc[w - np].key == q2[w].key);
                        assert(queue_has_key(acc, q2[w].key));
                    }
                }
            }
            assert forall|i: int, j: int|
                0 <= i < self.index@.len() && 0 <= j < self.pending@.len() implies (
            #[trigger] self.index@[i]).key != (#[trigger] self.pending@[j]).key by {
                assert(self.pending@[j] == q2[nl + j]);
                if i < nk {
                    assert(self.index@[i] == kept_r[i]);
                } else {
                    assert(loaded@[i - nk].key == q2[i - nk].key);
                    assert(self.index@[i].key == q2[i - nk].key);
                    assert(i - nk < nl);
                }
            }
            assert forall|i: int, j: int|
                0 <= i < fl.len() && 0 <= j < self.pending@.len() implies (
            #[trigger] fl[i]).key != (#[trigger] self.pending@[j]).key by {
                assert(t2.contains(fl[i]) && !queue_has_key(acc, fl[i].key));
                let q = choose|q: int| 0 <= q < t2.len() && t2[q] == fl[i];
                assert(self.pending@[j] == q2[nl + j]);
                let w = nl + j;
                if w < np {
                    assert(q2[w] == kept_p[w]);
                } else {
                    assert(q2[w] == acc[w - np]);
                    assert(queue_has_key(acc, q2[w].key));
                }
            }
            // Every tracked key stays inside the lattice.
            assert forall|i: int|
                0 <= i < self.index@.len() implies spec_chunk_in_bounds(
                (#[trigger] self.index@[i]).key,
                spec_counts_of(cfg),
            ) by {
                if i < nk {
                    assert(self.index@[i] == kept_r[i]);
                    assert(s0.index@.contains(kept_r[i]));
                    let pi = choose|pi: int|
                        0 <= pi < s0.index@.len() && s0.index@[pi] == kept_r[i];
                } else {
                    assert(loaded@[i - nk].key == q2[i - nk].key);
                    assert(self.index@[i].key == q2[i - nk].key);
                }
            }
            assert forall|i: int|
                0 <= i < fl.len() implies spec_chunk_in_bounds(
                (#[trigger] fl[i]).key,
                spec_counts_of(cfg),
            ) by {
                assert(t2.contains(fl[i]));
                let q = choose|q: int| 0 <= q < t2.len() && t2[q] == fl[i];
                if q < nkt {
                    assert(t2[q] == kept_t[q]);
                    assert(s0.in_flight@.contains(kept_t[q]));
                    let w = choose|w: int|
                        0 <= w < s0.in_flight@.len() && s0.in_flight@[w] == kept_t[q];
                } else {
                    assert(t2[q].key == started@[q - nkt].key);
                }
            }
            assert forall|i: int|
                0 <= i < self.pending@.len() implies spec_chunk_in_bounds(
                (#[trigger] self.pending@[i]).key,
                spec_counts_of(cfg),
            ) by {
                assert(self.pending@[i] == q2[nl + i]);
            }
            // The started jobs target desired chunks at their desired
            // tiers, and when the budget was not exhausted every desired
            // chunk is accounted for.
            assert forall|i: int, j: int|
                0 <= i < j < loaded@.len() implies loaded@[i].key != loaded@[j].key by {
                assert(loaded@[i].key == q2[i].key && loaded@[j].key == q2[j].key);
            }
            if started@.len() < self.stream.build_budget {
                assert forall|k: ChunkKey|
                    (#[trigger] spec_desired_tier(cfg, lod, radi, vxi, vzi, k)) is Some implies {
                    let t = spec_desired_tier(cfg, lod, radi, vxi, vzi, k)->0;
                    ||| resident_at(kept_r, k, t)
                    ||| tickets_has(t2, k, t)
                    ||| queue_has(kept_p, k, t)
                    ||| (!store.spec_has_tile(k) && keys_contain(missing@, k))
                } by {
                    let di = choose|di: int|
                        0 <= di < desired@.len() && (#[trigger] desired@[di]).key == k;
                    assert(spec_desired_tier(cfg, lod, radi, vxi, vzi, desired@[di].key)
                        == Some(desired@[di].tier));
                }
            }
        }
        PassOutput { unloaded, started, loaded, missing }
    }
}

} // verus!
