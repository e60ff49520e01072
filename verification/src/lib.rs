//! A terminal renderer core: fixed-point geometry, flat shading with a glyph
//! ramp, scanline rasterization into a depth-tested character framebuffer,
//! and the per-frame state step. All numeric work is saturating fixed-point
//! arithmetic with 16 fractional bits, so every result is pinned exactly by
//! the contracts.

pub mod fixed;
pub mod geom;
pub mod frame;
pub mod laws;
pub mod math;
pub mod parse;
pub mod pipeline;
pub mod raster;
pub mod shade;
