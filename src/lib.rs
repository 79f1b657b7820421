//! Appends a strip of dominant-colour swatches below a raster image.
pub mod compose;
pub mod geometry;
pub mod palette;
pub mod raster;
pub mod source;
pub mod swatch;
