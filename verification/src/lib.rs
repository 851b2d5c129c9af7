//! A generative knot-pattern renderer: a low-resolution luminance feed is
//! quantized into overlapping per-cell activity bands, and active cells are
//! drawn as interlocking vector tiles chosen by which of their four grid
//! neighbors share the band, so that continuous knot-like lines run across
//! the output image.

pub mod atlas;
pub mod band;
pub mod composite;
pub mod draw;
pub mod grid;
pub mod quantize;

pub use band::Band;
pub use grid::Grid;
