//! Slice a raster image into fixed-size solid-color tiles.
//!
//! The pipeline decodes an image, computes the grid of fully contained
//! tile origins, and, for each origin, samples that one source pixel and
//! produces a tile-sized solid PNG named after its grid cell, counting
//! progress as it goes. A secondary routine counts exact pixel color
//! frequencies and reports the most common colors.
//!
//! The crate works on in-memory values throughout; reading the source
//! image and writing the tile files belong to the caller.

pub mod codec;
pub mod colors;
pub mod grid;
pub mod pixels;
pub mod text;
pub mod tiles;
