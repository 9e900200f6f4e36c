use terrain_stream::config::{ChunkKey, HeightFieldConfig};
use terrain_stream::lod::{LodConfig, LodTier};
use terrain_stream::mesh::build_chunk;
use terrain_stream::scheduler::{
    desired_chunks, BuildJob, CompletedBuild, StreamConfig, StreamScheduler,
};
use terrain_stream::tile::{Tile, TileStore};

fn reference_config() -> HeightFieldConfig {
    HeightFieldConfig {
        origin_x: 0,
        origin_z: 0,
        size_x: 4096,
        size_z: 4096,
        chunk_x: 256,
        chunk_z: 256,
        raw_min: 0,
        raw_max: 65535,
        height_scale: 600,
        tile_res_x: 1024,
        tile_res_z: 1024,
    }
}

fn small_config() -> HeightFieldConfig {
    HeightFieldConfig {
        origin_x: 0,
        origin_z: 0,
        size_x: 64,
        size_z: 64,
        chunk_x: 16,
        chunk_z: 16,
        raw_min: 0,
        raw_max: 65535,
        height_scale: 600,
        tile_res_x: 4,
        tile_res_z: 4,
    }
}

fn small_stream() -> StreamConfig {
    StreamConfig {
        radius: 1,
        build_budget: 4,
        integration_budget: 2,
        lod: LodConfig { near_dist: 20, mid_dist: 40, near_res: 3, mid_res: 2, far_res: 2 },
    }
}

fn small_store_with_all_tiles() -> TileStore {
    let mut store = TileStore::new(4, 4);
    for cz in 0..4 {
        for cx in 0..4 {
            let tile = Tile::from_samples(4, 4, vec![1000; 16]).unwrap();
            store.insert(ChunkKey::new(cx, cz), tile);
        }
    }
    store
}

fn build_completion(cfg: &HeightFieldConfig, lod: &LodConfig, job: &BuildJob) -> CompletedBuild {
    let mesh = build_chunk(
        cfg,
        lod,
        job.key,
        job.tier,
        Some(&job.own),
        job.right.as_ref(),
        job.up.as_ref(),
        job.up_right.as_ref(),
    );
    CompletedBuild { key: job.key, tier: job.tier, mesh }
}

#[test]
fn desired_set_covers_the_five_by_five_window() {
    // World 4096x4096, chunks 256x256 (16x16 lattice), radius 2, viewer in
    // chunk (8,8): the desired set is the full 5x5 window {6..10} squared,
    // none clipped.
    let cfg = reference_config();
    let lod = LodConfig::default();
    let d = desired_chunks(&cfg, &lod, 2, 8 * 256 + 128, 8 * 256 + 128);
    assert_eq!(d.len(), 25);
    for cx in 6..=10 {
        for cz in 6..=10 {
            assert!(d.iter().any(|t| t.key == ChunkKey::new(cx, cz)));
        }
    }
    // And clipping at the corner: viewer in chunk (0,0) keeps only 3x3.
    let d2 = desired_chunks(&cfg, &lod, 2, 128, 128);
    assert_eq!(d2.len(), 9);
}

#[test]
fn missing_tiles_are_retried_every_pass() {
    let cfg = small_config();
    let mut s = StreamScheduler::new(cfg, small_stream());
    let store = TileStore::new(4, 4);
    let out = s.run_pass(&store, 8, 8, Vec::new());
    // Viewer in chunk (0,0), radius 1, clipped: 4 desired keys, no tiles.
    assert_eq!(out.started.len(), 0);
    assert_eq!(out.loaded.len(), 0);
    assert_eq!(out.unloaded.len(), 0);
    assert_eq!(out.missing.len(), 4);
    // No backoff: the same keys come back next pass.
    let out2 = s.run_pass(&store, 8, 8, Vec::new());
    assert_eq!(out2.missing.len(), 4);
    assert_eq!(s.in_flight_count(), 0);
    assert_eq!(s.resident_count(), 0);
}

#[test]
fn admission_is_unique_per_key_and_budgeted() {
    let cfg = small_config();
    let mut s = StreamScheduler::new(cfg, small_stream());
    let store = small_store_with_all_tiles();
    let out = s.run_pass(&store, 8, 8, Vec::new());
    // 4 desired keys, creation budget 4: all admitted, one job per key.
    assert_eq!(out.started.len(), 4);
    assert_eq!(s.in_flight_count(), 4);
    for i in 0..out.started.len() {
        for j in (i + 1)..out.started.len() {
            assert_ne!(out.started[i].key, out.started[j].key);
        }
    }
    // A second pass admits nothing: every desired key is already queued,
    // and every unfinished job stays in the in-flight list.
    let out2 = s.run_pass(&store, 8, 8, Vec::new());
    assert_eq!(out2.started.len(), 0);
    assert_eq!(s.in_flight_count(), 4);
    // One job finishes: exactly its ticket leaves the in-flight list and
    // its mesh is integrated; the other three jobs remain in flight.
    let done = build_completion(&cfg, &small_stream().lod, &out.started[0]);
    let finished_key = done.key;
    let finished_tier = done.tier;
    s.run_pass(&store, 8, 8, vec![done]);
    assert_eq!(s.in_flight_count(), 3);
    assert_eq!(s.resident_tier(finished_key), Some(finished_tier));
}

#[test]
fn integration_is_budgeted_and_ordered() {
    let cfg = small_config();
    let stream = small_stream();
    let mut s = StreamScheduler::new(cfg, stream);
    let store = small_store_with_all_tiles();
    let out = s.run_pass(&store, 8, 8, Vec::new());
    let completions: Vec<CompletedBuild> =
        out.started.iter().map(|j| build_completion(&cfg, &stream.lod, j)).collect();
    assert_eq!(completions.len(), 4);
    // All four finish at once; at most two (the budget) integrate per pass.
    let out2 = s.run_pass(&store, 8, 8, completions);
    assert_eq!(out2.loaded.len(), 2);
    assert_eq!(s.pending_count(), 2);
    assert_eq!(s.resident_count(), 2);
    let out3 = s.run_pass(&store, 8, 8, Vec::new());
    assert_eq!(out3.loaded.len(), 2);
    assert_eq!(s.pending_count(), 0);
    assert_eq!(s.resident_count(), 4);
    // Handles were assigned in integration order and are distinct.
    let mut handles: Vec<u64> =
        out2.loaded.iter().chain(out3.loaded.iter()).map(|e| e.handle).collect();
    handles.sort();
    handles.dedup();
    assert_eq!(handles.len(), 4);
    // Loaded events carry the chunk's world bounds.
    for e in out2.loaded.iter().chain(out3.loaded.iter()) {
        assert_eq!(e.max_x - e.min_x, 16);
        assert_eq!(e.max_z - e.min_z, 16);
        assert_eq!(e.min_x, e.key.cx as i64 * 16);
        assert_eq!(e.min_z, e.key.cz as i64 * 16);
    }
}

#[test]
fn tier_swap_unloads_once_then_loads_once() {
    let cfg = small_config();
    let stream = small_stream();
    let mut s = StreamScheduler::new(cfg, stream);
    let store = small_store_with_all_tiles();
    // Make the 2x2 window resident: chunk (1,1) picks Mid from (8,8).
    let out = s.run_pass(&store, 8, 8, Vec::new());
    let completions: Vec<CompletedBuild> =
        out.started.iter().map(|j| build_completion(&cfg, &stream.lod, j)).collect();
    s.run_pass(&store, 8, 8, completions);
    s.run_pass(&store, 8, 8, Vec::new());
    assert_eq!(s.resident_count(), 4);
    assert_eq!(s.resident_tier(ChunkKey::new(1, 1)), Some(LodTier::Mid));
    // Move the viewer to (20,20): chunk (1,1) is now close enough for
    // Near, so its Mid record is despawned and a Near build admitted.
    let out4 = s.run_pass(&store, 20, 20, Vec::new());
    let unloads_11: Vec<_> =
        out4.unloaded.iter().filter(|u| u.key == ChunkKey::new(1, 1)).collect();
    assert_eq!(unloads_11.len(), 1);
    assert_eq!(s.resident_tier(ChunkKey::new(1, 1)), None);
    let job_11: Vec<_> = out4.started.iter().filter(|j| j.key == ChunkKey::new(1, 1)).collect();
    assert_eq!(job_11.len(), 1);
    assert_eq!(job_11[0].tier, LodTier::Near);
    // Its build completes: exactly one load event follows, at the new tier.
    let completion = build_completion(&cfg, &stream.lod, job_11[0]);
    let out5 = s.run_pass(&store, 20, 20, vec![completion]);
    let loads_11: Vec<_> = out5.loaded.iter().filter(|e| e.key == ChunkKey::new(1, 1)).collect();
    assert_eq!(loads_11.len(), 1);
    assert_eq!(loads_11[0].tier, LodTier::Near);
    assert_eq!(s.resident_tier(ChunkKey::new(1, 1)), Some(LodTier::Near));
}

#[test]
fn stale_completion_is_discarded() {
    let cfg = small_config();
    let mut stream = small_stream();
    stream.build_budget = 9;
    let mut s = StreamScheduler::new(cfg, stream);
    let store = small_store_with_all_tiles();
    // Admit a Near build for (1,1) with the viewer at (20,20).
    let out = s.run_pass(&store, 20, 20, Vec::new());
    let job_11: Vec<_> = out.started.iter().filter(|j| j.key == ChunkKey::new(1, 1)).collect();
    assert_eq!(job_11.len(), 1);
    assert_eq!(job_11[0].tier, LodTier::Near);
    let stale = build_completion(&cfg, &stream.lod, job_11[0]);
    // The viewer retreats: (1,1) now wants Mid, cancelling the Near job.
    let out2 = s.run_pass(&store, 8, 8, Vec::new());
    assert!(out2.started.iter().any(|j| j.key == ChunkKey::new(1, 1)
        && j.tier == LodTier::Mid));
    // The Near result still arrives, but its job was superseded: it is
    // never written back.
    let before_pending = s.pending_count();
    let out3 = s.run_pass(&store, 8, 8, vec![stale]);
    assert_eq!(s.pending_count(), before_pending);
    assert!(out3.loaded.iter().all(|e| !(e.key == ChunkKey::new(1, 1)
        && e.tier == LodTier::Near)));
    assert_eq!(s.resident_tier(ChunkKey::new(1, 1)), None);
}
