//! A software rasterizer on integer screen coordinates: a color and depth
//! framebuffer, an edge-function triangle rasterizer with barycentric
//! interpolation, a stripe fragment shader and the per-frame composer.

pub mod color;
pub mod framebuffer;
pub mod arith;
pub mod vertex;
pub mod fragment;
pub mod triangle;
pub mod shaders;
pub mod render;
pub mod lines;
