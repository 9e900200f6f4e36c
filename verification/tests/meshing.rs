use terrain_stream::config::{ChunkKey, HeightFieldConfig, HEIGHT_ONE};
use terrain_stream::lod::{LodConfig, LodTier};
use terrain_stream::mesh::build_chunk;
use terrain_stream::tile::Tile;

fn cfg() -> HeightFieldConfig {
    HeightFieldConfig {
        origin_x: 0,
        origin_z: 0,
        size_x: 8,
        size_z: 4,
        chunk_x: 4,
        chunk_z: 4,
        raw_min: 0,
        raw_max: 65535,
        height_scale: 600,
        tile_res_x: 5,
        tile_res_z: 5,
    }
}

fn lod() -> LodConfig {
    LodConfig { near_dist: 600, mid_dist: 1200, near_res: 3, mid_res: 2, far_res: 2 }
}

fn flat_tile(value: u16) -> Tile {
    Tile::from_samples(5, 5, vec![value; 25]).unwrap()
}

#[test]
fn fallback_quad_when_own_tile_is_missing() {
    // Building a chunk without its own tile degrades to a flat single quad
    // over the chunk's footprint: 4 vertices, 2 triangles, upward normal.
    let c = cfg();
    let m = build_chunk(&c, &lod(), ChunkKey::new(1, 0), LodTier::Near, None, None, None, None);
    assert_eq!(m.vertices.len(), 4);
    assert_eq!(m.indices.len(), 6);
    assert_eq!(m.indices, vec![0, 2, 1, 1, 2, 3]);
    assert_eq!((m.min_x, m.min_z, m.max_x, m.max_z), (4, 0, 8, 4));
    for v in &m.vertices {
        assert_eq!(v.y_fp, 0);
        assert_eq!(v.dhx_fp, 0);
        assert_eq!(v.dhz_fp, 0);
    }
    assert_eq!(m.vertices[0].x_fp, 4 * HEIGHT_ONE);
    assert_eq!(m.vertices[0].z_fp, 0);
    assert_eq!(m.vertices[3].x_fp, 8 * HEIGHT_ONE);
    assert_eq!(m.vertices[3].z_fp, 4 * HEIGHT_ONE);
}

#[test]
fn grid_mesh_shape_and_positions() {
    let c = cfg();
    let own = flat_tile(0);
    let m = build_chunk(
        &c,
        &lod(),
        ChunkKey::new(0, 0),
        LodTier::Near,
        Some(&own),
        None,
        None,
        None,
    );
    // Near tier uses a 3x3 vertex grid here: 9 vertices, 4 cells, 24 indices.
    assert_eq!(m.grid_x, 3);
    assert_eq!(m.grid_z, 3);
    assert_eq!(m.vertices.len(), 9);
    assert_eq!(m.indices.len(), 24);
    // First cell, fixed winding.
    assert_eq!(&m.indices[0..6], &[0, 3, 1, 1, 3, 4]);
    // Vertex columns sit at x = 0, 2, 4 in fixed point.
    assert_eq!(m.vertices[0].x_fp, 0);
    assert_eq!(m.vertices[1].x_fp, 2 * HEIGHT_ONE);
    assert_eq!(m.vertices[2].x_fp, 4 * HEIGHT_ONE);
    assert_eq!(m.vertices[3].z_fp, 2 * HEIGHT_ONE);
    // A flat tile yields a flat mesh.
    for v in &m.vertices {
        assert_eq!(v.y_fp, 0);
        assert_eq!(v.dhx_fp, 0);
        assert_eq!(v.dhz_fp, 0);
    }
}

#[test]
fn seam_heights_match_between_adjacent_chunks() {
    // Two horizontally adjacent chunks, both tiles present: the left
    // chunk's rightmost column equals the right chunk's leftmost column,
    // vertex for vertex, in height and in world position. The 3-vertex
    // grid lands exactly on the 5-sample raster.
    let c = cfg();
    let l = lod();
    let own_left = flat_tile(0);
    let mut shared_data = vec![0u16; 25];
    for row in 0..5 {
        shared_data[row * 5] = (10000 + 10000 * row) as u16;
    }
    let shared = Tile::from_samples(5, 5, shared_data).unwrap();

    let left = build_chunk(
        &c,
        &l,
        ChunkKey::new(0, 0),
        LodTier::Near,
        Some(&own_left),
        Some(&shared),
        None,
        None,
    );
    let right = build_chunk(
        &c,
        &l,
        ChunkKey::new(1, 0),
        LodTier::Near,
        Some(&shared),
        None,
        None,
        None,
    );
    let nx = left.grid_x as usize;
    for j in 0..(left.grid_z as usize - 1) {
        let lv = left.vertices[j * nx + (nx - 1)];
        let rv = right.vertices[j * nx];
        assert_eq!(lv.y_fp, rv.y_fp);
        assert_eq!(lv.x_fp, rv.x_fp);
        assert_eq!(lv.z_fp, rv.z_fp);
        assert!(lv.y_fp > 0);
    }
}

#[test]
fn seam_heights_match_on_an_unaligned_grid() {
    // A 4-vertex grid over 5-sample tiles: the shared-edge rows fall
    // between raster lines, and both sides still interpolate the shared
    // column to bit-identical heights.
    let c = cfg();
    let l = LodConfig { near_dist: 600, mid_dist: 1200, near_res: 4, mid_res: 2, far_res: 2 };
    let own_left = flat_tile(7);
    let mut shared_data = vec![0u16; 25];
    for row in 0..5 {
        shared_data[row * 5] = (10000 + 9000 * row) as u16;
    }
    let shared = Tile::from_samples(5, 5, shared_data).unwrap();

    let left = build_chunk(
        &c,
        &l,
        ChunkKey::new(0, 0),
        LodTier::Near,
        Some(&own_left),
        Some(&shared),
        None,
        None,
    );
    let right = build_chunk(
        &c,
        &l,
        ChunkKey::new(1, 0),
        LodTier::Near,
        Some(&shared),
        None,
        None,
        None,
    );
    let nx = left.grid_x as usize;
    assert_eq!(nx, 4);
    for j in 0..(left.grid_z as usize - 1) {
        let lv = left.vertices[j * nx + (nx - 1)];
        let rv = right.vertices[j * nx];
        assert_eq!(lv.y_fp, rv.y_fp);
        assert_eq!(lv.x_fp, rv.x_fp);
        assert_eq!(lv.z_fp, rv.z_fp);
    }
    // Row 1 sits at raster row 4/3: strictly between the samples at rows
    // 1 and 2, so the shared height is a genuine interpolation.
    let h0 = right.vertices[0].y_fp;
    let h1 = right.vertices[nx].y_fp;
    assert!(h0 < h1);
}

#[test]
fn slope_numerators_are_central_height_differences() {
    // A tile that rises along +X: interior vertices carry the height
    // difference of their clamped grid neighbors.
    let c = cfg();
    let mut data = vec![0u16; 25];
    for row in 0..5 {
        for col in 0..5 {
            data[row * 5 + col] = (col as u16) * 10000;
        }
    }
    let own = Tile::from_samples(5, 5, data).unwrap();
    let m = build_chunk(
        &c,
        &lod(),
        ChunkKey::new(0, 0),
        LodTier::Near,
        Some(&own),
        None,
        None,
        None,
    );
    let nx = m.grid_x as usize;
    // Middle vertex of the middle row: dhx equals h(right) - h(left).
    let v = m.vertices[1 * nx + 1];
    let hl = m.vertices[1 * nx + 0].y_fp;
    let hr = m.vertices[1 * nx + 2].y_fp;
    assert_eq!(v.dhx_fp, hr - hl);
    assert!(v.dhx_fp > 0);
    // No variation along Z.
    assert_eq!(v.dhz_fp, 0);
}
