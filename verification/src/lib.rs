//! A small software rasterizer in integer arithmetic.
//!
//! Triangles are filled column by column with a depth test; positions,
//! texture coordinates and light intensity are interpolated in 16.16
//! fixed point, so every result is exactly reproducible.
//!
//! `render` holds the renderer and `raster` the mathematical description of
//! what it paints; `tga` and `codec` hold the pixel grid and its byte
//! format; `model`, `mesh` and `number` hold a surface of triangles and its
//! text format; `math` and `fixed` hold vectors and fixed-point arithmetic.
//! The modules whose names end in `laws` state and prove what holds of
//! lines, of filled triangles, of the depth test and of the byte format.

pub mod codec;
pub mod codec_laws;
pub mod depth_laws;
pub mod fill_laws;
pub mod fixed;
pub mod line_laws;
pub mod math;
pub mod mesh;
pub mod model;
pub mod number;
pub mod raster;
pub mod render;
pub mod tga;
