//! Streaming of a large heightfield landscape into a bounded set of renderable
//! chunks around a moving viewpoint.
//!
//! The crate holds the verified core: the tiled height-data cache, the
//! bilinear seam-aware height sampler, the level-of-detail selector, the
//! chunk mesh builder, and the per-frame streaming scheduler with its
//! budgeted, ordered integration of finished meshes.
//!
//! All world coordinates are integers in the caller's world unit; heights and
//! mesh positions are fixed-point values scaled by [`config::HEIGHT_ONE`].
//! The host application converts these to its floating-point types at the
//! boundary and performs all file and scene I/O.

pub mod config;
pub mod tile;
pub mod lod;
pub mod sample;
pub mod mesh;
pub mod scheduler;
