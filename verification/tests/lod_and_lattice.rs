use terrain_stream::config::{
    chunk_counts, chunk_in_bounds, chunk_origin_world, chunk_world_aabb, clamp_world_to_terrain,
    world_to_chunk_local, ChunkKey, HeightFieldConfig,
};
use terrain_stream::lod::{dist_sq, LodConfig, LodTier};

fn cfg() -> HeightFieldConfig {
    HeightFieldConfig {
        origin_x: -512,
        origin_z: 256,
        size_x: 1024,
        size_z: 512,
        chunk_x: 256,
        chunk_z: 256,
        raw_min: 0,
        raw_max: 65535,
        height_scale: 600,
        tile_res_x: 64,
        tile_res_z: 64,
    }
}

#[test]
fn lod_pick_is_a_step_function_of_distance() {
    let lod = LodConfig::default();
    // Thresholds at 600 and 1200; distances compared squared.
    assert_eq!(lod.pick(0), LodTier::Near);
    assert_eq!(lod.pick(599 * 599), LodTier::Near);
    assert_eq!(lod.pick(600 * 600), LodTier::Mid);
    assert_eq!(lod.pick(1199 * 1199), LodTier::Mid);
    assert_eq!(lod.pick(1200 * 1200), LodTier::Far);
    assert_eq!(lod.pick(100_000 * 100_000), LodTier::Far);
}

#[test]
fn lod_pick_never_gets_finer_with_distance() {
    let lod = LodConfig::default();
    let rank = |t: LodTier| match t {
        LodTier::Near => 0,
        LodTier::Mid => 1,
        LodTier::Far => 2,
    };
    let mut last = 0;
    for d in [0i64, 100, 359999, 360000, 360001, 1439999, 1440000, 9999999] {
        let r = rank(lod.pick(d));
        assert!(r >= last);
        last = r;
    }
}

#[test]
fn grid_res_per_tier() {
    let lod = LodConfig::default();
    assert_eq!(lod.grid_res(LodTier::Near), 129);
    assert_eq!(lod.grid_res(LodTier::Mid), 65);
    assert_eq!(lod.grid_res(LodTier::Far), 33);
}

#[test]
fn dist_sq_is_euclidean_squared() {
    assert_eq!(dist_sq(0, 0, 3, 4), 25);
    assert_eq!(dist_sq(-3, 4, 0, 0), 25);
    assert_eq!(dist_sq(10, 10, 10, 10), 0);
}

#[test]
fn lattice_counts_and_bounds() {
    let c = cfg();
    assert!(c.check_wf());
    let counts = chunk_counts(&c);
    assert_eq!(counts.x, 4);
    assert_eq!(counts.z, 2);
    assert!(chunk_in_bounds(ChunkKey::new(0, 0), counts));
    assert!(chunk_in_bounds(ChunkKey::new(3, 1), counts));
    assert!(!chunk_in_bounds(ChunkKey::new(4, 0), counts));
    assert!(!chunk_in_bounds(ChunkKey::new(0, 2), counts));
    assert!(!chunk_in_bounds(ChunkKey::new(-1, 0), counts));
}

#[test]
fn chunk_origin_and_aabb() {
    let c = cfg();
    let o = chunk_origin_world(&c, ChunkKey::new(1, 1));
    assert_eq!(o, (-512 + 256, 256 + 256));
    let (min_x, min_z, max_x, max_z) = chunk_world_aabb(&c, ChunkKey::new(0, 0));
    assert_eq!((min_x, min_z), (-512, 256));
    assert_eq!((max_x, max_z), (-256, 512));
}

#[test]
fn world_to_chunk_local_splits_position() {
    let c = cfg();
    let (key, local) = world_to_chunk_local(&c, -511, 300).unwrap();
    assert_eq!(key, ChunkKey::new(0, 0));
    assert_eq!(local, (1, 44));
    let (key2, local2) = world_to_chunk_local(&c, 511, 767).unwrap();
    assert_eq!(key2, ChunkKey::new(3, 1));
    assert_eq!(local2, (255, 255));
    assert!(world_to_chunk_local(&c, 512, 300).is_none());
    assert!(world_to_chunk_local(&c, 0, 255).is_none());
}

#[test]
fn clamp_world_keeps_inside_points_and_clamps_others() {
    let c = cfg();
    assert_eq!(clamp_world_to_terrain(&c, 0, 300), (0, 300));
    assert_eq!(clamp_world_to_terrain(&c, -9999, 300), (-512, 300));
    assert_eq!(clamp_world_to_terrain(&c, 9999, 9999), (511, 767));
}
