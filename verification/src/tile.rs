//! Fixed-resolution 16-bit raster tiles and the in-memory tile store.
//!
//! A tile is a row-major buffer of unsigned 16-bit height samples covering
//! one chunk's world footprint. The store caches tiles by chunk key for the
//! process lifetime; it never caches a failed load, so a missing tile is
//! retried by the host on every fetch. Reading tile bytes from disk is the
//! host application's task; [`decode_tile`] turns the bytes it read into a
//! tile.

use vstd::prelude::*;

use std::sync::Arc;

use crate::config::{ChunkKey, RES_LIMIT};

verus! {

/// Mathematical model of a tile: its resolution and its samples.
pub ghost struct TileView {
    pub res_x: int,
    pub res_z: int,
    pub data: Seq<u16>,
}

impl TileView {
    /// Well-formedness: bounded resolution and a sample for every pixel.
    pub open spec fn wf(self) -> bool {
        &&& 1 <= self.res_x <= RES_LIMIT
        &&& 1 <= self.res_z <= RES_LIMIT
        &&& self.data.len() == self.res_x * self.res_z
    }

    /// The sample at pixel `(x, z)`, with coordinates clamped to the tile
    /// bounds (no wraparound).
    pub open spec fn sample(self, x: int, z: int) -> u16 {
        let xi = if x < 0 { 0 } else if x > self.res_x - 1 { self.res_x - 1 } else { x };
        let zi = if z < 0 { 0 } else if z > self.res_z - 1 { self.res_z - 1 } else { z };
        self.data[zi * self.res_x + xi]
    }
}

/// One 16-bit raster tile in memory, immutable once constructed. The
/// sample buffer is reference-counted: duplicating the tile shares the
/// buffer, so handles cross thread boundaries without copying samples.
pub struct Tile {
    pub res_x: u32,
    pub res_z: u32,
    pub data: Arc<Vec<u16>>,
}

impl View for Tile {
    type V = TileView;

    open spec fn view(&self) -> TileView {
        TileView { res_x: self.res_x as int, res_z: self.res_z as int, data: self.data@ }
    }
}

/// For a pixel inside the tile, the row-major index is inside the buffer.
proof fn lemma_pixel_index(res_x: int, res_z: int, xi: int, zi: int)
    requires
        1 <= res_x,
        1 <= res_z,
        0 <= xi < res_x,
        0 <= zi < res_z,
    ensures
        0 <= zi * res_x + xi < res_x * res_z,
{
    assert(0 <= zi * res_x + xi < res_x * res_z) by (nonlinear_arith)
        requires 1 <= res_x, 1 <= res_z, 0 <= xi < res_x, 0 <= zi < res_z;
}

impl Tile {
    /// Build a tile from a row-major sample buffer; `None` when the buffer
    /// does not hold exactly one sample per pixel.
    pub fn from_samples(res_x: u32, res_z: u32, data: Vec<u16>) -> (r: Option<Tile>)
        requires
            1 <= res_x <= RES_LIMIT,
            1 <= res_z <= RES_LIMIT,
        ensures
            match r {
                Some(t) => {
                    &&& t@.wf()
                    &&& t@.res_x == res_x
                    &&& t@.res_z == res_z
                    &&& t@.data == data@
                },
                None => data@.len() != res_x * res_z,
            },
    {
        proof {
            assert(res_x * res_z <= RES_LIMIT * RES_LIMIT) by (nonlinear_arith)
                requires 1 <= res_x <= RES_LIMIT, 1 <= res_z <= RES_LIMIT;
        }
        let pixels: usize = (res_x as usize) * (res_z as usize);
        if data.len() == pixels {
            Some(Tile { res_x, res_z, data: Arc::new(data) })
        } else {
            None
        }
    }

    /// The sample at pixel `(x, z)`, clamped to the tile bounds.
    pub fn get_clamped(&self, x: i64, z: i64) -> (s: u16)
        requires
            self@.wf(),
        ensures
            s == self@.sample(x as int, z as int),
    {
        let mx: i64 = self.res_x as i64 - 1;
        let mz: i64 = self.res_z as i64 - 1;
        let xi: i64 = if x < 0 { 0 } else if x > mx { mx } else { x };
        let zi: i64 = if z < 0 { 0 } else if z > mz { mz } else { z };
        proof {
            lemma_pixel_index(self@.res_x, self@.res_z, xi as int, zi as int);
            assert(self@.res_x * self@.res_z <= RES_LIMIT * RES_LIMIT) by (nonlinear_arith)
                requires 1 <= self@.res_x <= RES_LIMIT, 1 <= self@.res_z <= RES_LIMIT;
        }
        let idx: usize = (zi as usize) * (self.res_x as usize) + (xi as usize);
        self.data[idx]
    }

    /// A duplicate handle to the same samples: only the reference-counted
    /// handle is copied, never the sample buffer.
    pub fn snapshot(&self) -> (t: Tile)
        ensures
            t@ == self@,
    {
        Tile { res_x: self.res_x, res_z: self.res_z, data: Arc::clone(&self.data) }
    }
}

/// Decode little-endian 16-bit samples, row-major, from raw bytes.
///
/// Succeeds only when the buffer holds at least `res_x * res_z * 2` bytes;
/// exactly that many are read and any trailing bytes are ignored, as the
/// on-disk tile convention prescribes.
pub fn decode_tile(bytes: &[u8], res_x: u32, res_z: u32) -> (r: Option<Tile>)
    requires
        1 <= res_x <= RES_LIMIT,
        1 <= res_z <= RES_LIMIT,
    ensures
        match r {
            Some(t) => {
                &&& bytes@.len() >= 2 * (res_x * res_z)
                &&& t@.wf()
                &&& t@.res_x == res_x
                &&& t@.res_z == res_z
                &&& forall|i: int|
                    0 <= i < res_x * res_z ==> t@.data[i] == bytes@[2 * i] + 256 * bytes@[2 * i
                        + 1]
            },
            None => bytes@.len() < 2 * (res_x * res_z),
        },
{
    proof {
        assert(res_x * res_z <= RES_LIMIT * RES_LIMIT) by (nonlinear_arith)
            requires 1 <= res_x <= RES_LIMIT, 1 <= res_z <= RES_LIMIT;
    }
    let pixels: usize = (res_x as usize) * (res_z as usize);
    if bytes.len() < 2 * pixels {
        return None;
    }
    let mut data: Vec<u16> = Vec::new();
    let mut i: usize = 0;
    while i < pixels
        invariant
            0 <= i <= pixels,
            pixels == res_x * res_z,
            pixels <= RES_LIMIT * RES_LIMIT,
            bytes@.len() >= 2 * pixels,
            data@.len() == i,
            forall|k: int| 0 <= k < i ==> data@[k] == bytes@[2 * k] + 256 * bytes@[2 * k + 1],
        decreases pixels - i,
    {
        let lo = bytes[2 * i];
        let hi = bytes[2 * i + 1];
        let sample: u16 = (lo as u16) + 256 * (hi as u16);
        data.push(sample);
        i = i + 1;
    }
    Some(Tile { res_x, res_z, data: Arc::new(data) })
}

/// One cached tile, keyed by its chunk coordinate.
pub struct TileEntry {
    pub key: ChunkKey,
    pub tile: Tile,
}

/// In-memory cache of tiles, keyed by chunk coordinate.
///
/// The store holds only successfully decoded tiles of one fixed resolution;
/// a failed load is never recorded, so every later fetch of that key misses
/// again and the host retries the load.
pub struct TileStore {
    pub res_x: u32,
    pub res_z: u32,
    pub entries: Vec<TileEntry>,
}

impl TileStore {
    /// Well-formedness: bounded resolution, distinct keys, and every cached
    /// tile well-formed at the store's resolution.
    pub open spec fn wf(self) -> bool {
        &&& 1 <= self.res_x <= RES_LIMIT
        &&& 1 <= self.res_z <= RES_LIMIT
        &&& forall|i: int, j: int|
            0 <= i < j < self.entries@.len() ==> self.entries@[i].key != self.entries@[j].key
        &&& forall|i: int|
            0 <= i < self.entries@.len() ==> {
                &&& (#[trigger] self.entries@[i]).tile@.wf()
                &&& self.entries@[i].tile@.res_x == self.res_x
                &&& self.entries@[i].tile@.res_z == self.res_z
            }
    }

    /// True when a tile for `key` is cached.
    pub open spec fn spec_has_tile(self, key: ChunkKey) -> bool {
        exists|i: int| 0 <= i < self.entries@.len() && (#[trigger] self.entries@[i]).key == key
    }

    /// The cached tile for `key`, if any.
    pub open spec fn spec_fetch(self, key: ChunkKey) -> Option<TileView> {
        if self.spec_has_tile(key) {
            let i = choose|i: int|
                0 <= i < self.entries@.len() && (#[trigger] self.entries@[i]).key == key;
            Some(self.entries@[i].tile@)
        } else {
            None
        }
    }

    /// An empty store for tiles of the given resolution.
    pub fn new(res_x: u32, res_z: u32) -> (s: TileStore)
        requires
            1 <= res_x <= RES_LIMIT,
            1 <= res_z <= RES_LIMIT,
        ensures
            s.wf(),
            s.res_x == res_x,
            s.res_z == res_z,
            s.entries@.len() == 0,
            forall|key: ChunkKey| s.spec_fetch(key) is None,
    {
        let s = TileStore { res_x, res_z, entries: Vec::new() };
        proof {
            assert(forall|key: ChunkKey| !s.spec_has_tile(key));
        }
        s
    }

    /// Number of cached tiles.
    pub fn len(&self) -> (n: usize)
        ensures
            n == self.entries@.len(),
    {
        self.entries.len()
    }

    /// Borrow the cached tile for `key`; `None` on a miss.
    pub fn fetch_ref(&self, key: ChunkKey) -> (r: Option<&Tile>)
        requires
            self.wf(),
        ensures
            match r {
                Some(t) => self.spec_fetch(key) == Some(t@),
                None => self.spec_fetch(key) is None,
            },
    {
        let n = self.entries.len();
        let mut i: usize = 0;
        while i < n
            invariant
                self.wf(),
                n == self.entries@.len(),
                0 <= i <= n,
                forall|k: int| 0 <= k < i ==> (#[trigger] self.entries@[k]).key != key,
            decreases n - i,
        {
            if self.entries[i].key == key {
                proof {
                    let j = choose|j: int|
                        0 <= j < self.entries@.len() && (#[trigger] self.entries@[j]).key == key;
                    assert(self.entries@[i as int].key == key);
                    assert(j == i);
                }
                return Some(&self.entries[i].tile);
            }
            i = i + 1;
        }
        proof {
            assert(!self.spec_has_tile(key));
        }
        None
    }

    /// A duplicate handle to the cached tile for `key`; `None` on a miss.
    /// A miss is never cached, so the host may retry the load later.
    pub fn fetch(&self, key: ChunkKey) -> (r: Option<Tile>)
        requires
            self.wf(),
        ensures
            match r {
                Some(t) => self.spec_fetch(key) == Some(t@),
                None => self.spec_fetch(key) is None,
            },
    {
        match self.fetch_ref(key) {
            Some(t) => Some(t.snapshot()),
            None => None,
        }
    }

    /// True when a tile for `key` is cached.
    pub fn contains(&self, key: ChunkKey) -> (r: bool)
        requires
            self.wf(),
        ensures
            r == self.spec_has_tile(key),
    {
        let r = self.fetch_ref(key);
        r.is_some()
    }

    /// Cache a freshly loaded tile under `key`. The key must miss: the store
    /// never replaces a tile, matching the load-once cache behaviour.
    pub fn insert(&mut self, key: ChunkKey, tile: Tile)
        requires
            old(self).wf(),
            !old(self).spec_has_tile(key),
            tile@.wf(),
            tile@.res_x == old(self).res_x,
            tile@.res_z == old(self).res_z,
        ensures
            final(self).wf(),
            final(self).res_x == old(self).res_x,
            final(self).res_z == old(self).res_z,
            final(self).entries@.len() == old(self).entries@.len() + 1,
            final(self).spec_fetch(key) == Some(tile@),
            forall|k: ChunkKey| k != key ==> final(self).spec_fetch(k) == old(self).spec_fetch(k),
    {
        let ghost old_entries = self.entries@;
        self.entries.push(TileEntry { key, tile });
        proof {
            let entries = self.entries@;
            let n = old_entries.len() as int;
            assert(entries[n].key == key);
            assert(self.spec_has_tile(key));
            let i = choose|i: int|
                0 <= i < entries.len() && (#[trigger] entries[i]).key == key;
            assert(i == n);
            assert forall|k: ChunkKey| k != key implies final(self).spec_fetch(k) == old(
                self,
            ).spec_fetch(k) by {
                if old(self).spec_has_tile(k) {
                    let j = choose|j: int|
                        0 <= j < old_entries.len() && (#[trigger] old_entries[j]).key == k;
                    assert(entries[j].key == k);
                    assert(self.spec_has_tile(k));
                    let j2 = choose|j2: int|
                        0 <= j2 < entries.len() && (#[trigger] entries[j2]).key == k;
                    assert(j2 < n);
                    assert(old_entries[j2].key == k);
                    assert(j2 == j);
                } else {
                    assert forall|j: int| 0 <= j < entries.len() implies (#[trigger] entries[j]).key
                        != k by {
                        if j < n {
                            assert(old_entries[j].key != k);
                        }
                    }
                }
            }
        }
    }
}

} // verus!
