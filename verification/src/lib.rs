//! Verified core of a dice-mosaic pipeline: a grayscale source image is
//! partitioned into a grid of cells, each cell's average intensity is mapped
//! to one of six die faces, and the face tiles are composited onto an output
//! canvas while a per-face usage tally is kept.
//!
//! Image decoding and encoding, tile loading from disk, and all printing are
//! outside collaborators: they hand this library plain pixel values and take
//! plain pixel values back.

pub mod error;
pub mod face;
pub mod grid;
pub mod mosaic;
pub mod sample;
