//! Procedural terrain rasters: value, Voronoi and aggregation noise fields,
//! and the operators that classify and composite them into a colour map.
//!
//! - `buffer`: the pixel grid and its model, a sequence of rows of colours.
//! - `value`, `voronoi`, `dla`: the noise generators.
//! - `transform`: normalize, smoothing, scaling, inversion, upscaling.
//! - `classify`: threshold, recolouring and overlay.
//! - `masks`: boolean operators and growth on black and white masks.
//! - `laws`: properties that relate these operations, proved.

pub mod buffer;
pub mod error;
mod pixelwise;
mod random;
pub mod transform;
pub mod classify;
pub mod masks;
pub mod value;
pub mod voronoi;
pub mod dla;
pub mod laws;
