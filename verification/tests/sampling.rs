use terrain_stream::config::{ChunkKey, HeightFieldConfig, HEIGHT_ONE};
use terrain_stream::sample::{sample_height, HeightSource};
use terrain_stream::tile::{decode_tile, Tile, TileStore};

fn reference_config() -> HeightFieldConfig {
    HeightFieldConfig {
        origin_x: 0,
        origin_z: 0,
        size_x: 4096,
        size_z: 4096,
        chunk_x: 256,
        chunk_z: 256,
        raw_min: 0,
        raw_max: 65535,
        height_scale: 600,
        tile_res_x: 1024,
        tile_res_z: 1024,
    }
}

fn small_config() -> HeightFieldConfig {
    HeightFieldConfig {
        origin_x: 0,
        origin_z: 0,
        size_x: 4,
        size_z: 4,
        chunk_x: 4,
        chunk_z: 4,
        raw_min: 0,
        raw_max: 40000,
        height_scale: 100,
        tile_res_x: 2,
        tile_res_z: 2,
    }
}

fn small_store_with_tile() -> TileStore {
    let mut store = TileStore::new(2, 2);
    let data: Vec<u16> = vec![0, 40000, 0, 40000];
    let tile = Tile::from_samples(2, 2, data).unwrap();
    store.insert(ChunkKey::new(0, 0), tile);
    store
}

#[test]
fn bilinear_exactness_at_full_range_pixel() {
    // A raw sample of 65535 under a (0, 65535) normalization range must
    // come out as exactly the vertical scale.
    let cfg = reference_config();
    assert!(cfg.check_wf());
    let mut store = TileStore::new(1024, 1024);
    let mut data: Vec<u16> = vec![0; 1024 * 1024];
    data[0] = 65535;
    let tile = Tile::from_samples(1024, 1024, data).unwrap();
    store.insert(ChunkKey::new(0, 0), tile);
    let h = sample_height(&cfg, &store, 0, 0).unwrap();
    assert_eq!(h, 600 * HEIGHT_ONE);
}

#[test]
fn sample_height_is_idempotent() {
    let cfg = small_config();
    assert!(cfg.check_wf());
    let store = small_store_with_tile();
    let first = sample_height(&cfg, &store, 1, 0);
    let second = sample_height(&cfg, &store, 1, 0);
    assert_eq!(first, second);
    let third = sample_height(&cfg, &store, 3, 3);
    let fourth = sample_height(&cfg, &store, 3, 3);
    assert_eq!(third, fourth);
}

#[test]
fn bilinear_interpolates_between_columns() {
    let cfg = small_config();
    let store = small_store_with_tile();
    // Pixel position 0.25 between raw 0 and raw 40000 normalizes to 0.25,
    // so the height is a quarter of the 100-unit scale.
    let h = sample_height(&cfg, &store, 1, 0).unwrap();
    assert_eq!(h, 25 * HEIGHT_ONE);
    // Position (3, 3) interpolates both axes: raw 30000 of 40000.
    let h2 = sample_height(&cfg, &store, 3, 3).unwrap();
    assert_eq!(h2, 75 * HEIGHT_ONE);
}

#[test]
fn sample_outside_world_is_none() {
    let cfg = small_config();
    let store = small_store_with_tile();
    assert_eq!(sample_height(&cfg, &store, 4, 0), None);
    assert_eq!(sample_height(&cfg, &store, 0, 4), None);
    assert_eq!(sample_height(&cfg, &store, -1, 0), None);
    assert_eq!(sample_height(&cfg, &store, 0, -1), None);
}

#[test]
fn missing_tile_is_none_and_retried() {
    let cfg = small_config();
    let mut store = TileStore::new(2, 2);
    // Miss: nothing cached for the chunk, and the failure is not cached.
    assert_eq!(sample_height(&cfg, &store, 1, 1), None);
    assert_eq!(store.len(), 0);
    // A later load succeeds: the earlier miss left no poisoned entry.
    let tile = Tile::from_samples(2, 2, vec![0, 40000, 0, 40000]).unwrap();
    store.insert(ChunkKey::new(0, 0), tile);
    assert!(sample_height(&cfg, &store, 1, 1).is_some());
}

#[test]
fn decode_tile_reads_little_endian_row_major() {
    let bytes: Vec<u8> = vec![0x34, 0x12, 0xff, 0xff, 0x00, 0x00, 0x01, 0x80];
    let tile = decode_tile(&bytes, 2, 2).unwrap();
    assert_eq!(*tile.data, vec![0x1234, 0xffff, 0x0000, 0x8001]);
    assert_eq!(tile.res_x, 2);
    assert_eq!(tile.res_z, 2);
}

#[test]
fn decode_tile_rejects_short_buffer() {
    let bytes: Vec<u8> = vec![0u8; 7];
    assert!(decode_tile(&bytes, 2, 2).is_none());
}

#[test]
fn decode_tile_ignores_trailing_bytes() {
    let mut bytes: Vec<u8> = vec![0u8; 8];
    bytes[0] = 5;
    bytes.push(0xAA);
    bytes.push(0xBB);
    let tile = decode_tile(&bytes, 2, 2).unwrap();
    assert_eq!(tile.data[0], 5);
}

#[test]
fn get_clamped_clamps_at_borders() {
    let tile = Tile::from_samples(2, 2, vec![1, 2, 3, 4]).unwrap();
    assert_eq!(tile.get_clamped(0, 0), 1);
    assert_eq!(tile.get_clamped(1, 0), 2);
    assert_eq!(tile.get_clamped(-5, 0), 1);
    assert_eq!(tile.get_clamped(9, 0), 2);
    assert_eq!(tile.get_clamped(0, 9), 3);
    assert_eq!(tile.get_clamped(9, 9), 4);
}

#[test]
fn snapshots_share_the_sample_buffer() {
    // Duplicating a tile copies only the reference-counted handle, never
    // the sample array.
    let tile = Tile::from_samples(2, 2, vec![1, 2, 3, 4]).unwrap();
    let copy = tile.snapshot();
    assert!(std::sync::Arc::ptr_eq(&tile.data, &copy.data));
    assert_eq!(copy.get_clamped(1, 1), 4);
}

#[test]
fn store_fetch_hit_and_miss() {
    let mut store = TileStore::new(2, 2);
    let key = ChunkKey::new(3, -2);
    assert!(store.fetch(key).is_none());
    assert!(!store.contains(key));
    let tile = Tile::from_samples(2, 2, vec![7, 8, 9, 10]).unwrap();
    store.insert(key, tile);
    assert!(store.contains(key));
    let got = store.fetch(key).unwrap();
    assert_eq!(*got.data, vec![7, 8, 9, 10]);
    assert_eq!(store.len(), 1);
    assert!(store.fetch(ChunkKey::new(0, 0)).is_none());
}

#[test]
fn flat_source_reports_constant_height_and_upward_normal() {
    let store = TileStore::new(2, 2);
    let flat = HeightSource::Flat(40 * HEIGHT_ONE);
    assert_eq!(flat.sample_height(&store, 123, -456), Some(40 * HEIGHT_ONE));
    assert_eq!(flat.sample_normal(&store, 123, -456), (0, 0));
}

#[test]
fn terrain_source_matches_the_height_sampler() {
    let cfg = small_config();
    let store = small_store_with_tile();
    let src = HeightSource::Terrain(cfg);
    assert_eq!(src.sample_height(&store, 1, 0), sample_height(&cfg, &store, 1, 0));
    assert_eq!(src.sample_height(&store, 9, 9), None);
}

#[test]
fn terrain_normal_reflects_the_slope() {
    let cfg = small_config();
    let store = small_store_with_tile();
    let src = HeightSource::Terrain(cfg);
    // The tile rises along +X only: positive X slope, no Z slope.
    let (dhx, dhz) = src.sample_normal(&store, 2, 1);
    assert_eq!(dhx, 50 * HEIGHT_ONE);
    assert_eq!(dhz, 0);
}
