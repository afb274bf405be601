//! A software rasterizer core, verified with Verus.
//!
//! The library holds the integer side of a CPU-only renderer: the framebuffer
//! with its depth buffer, clamping and bounding boxes, the partition of a box
//! into tiles, the coverage and depth tests, texel lookup, and the fragment
//! stage that draws a triangle tile by tile. Lines and circles are drawn with
//! the classic integer algorithms.
//!
//! Numbers that a renderer computes in floating point (depths, barycentric
//! weights, edge vectors) enter the library as the bit patterns of
//! single-precision numbers; the library orders and tests them exactly, by
//! their bits, and leaves the arithmetic to its caller.
//!
//! - `color`: colours and brightness ramps
//! - `single`: order and sign tests on bit patterns
//! - `geometry`: points, clamping, bounding boxes, pixel and offset mapping
//! - `tiles`: the tiles of a box and the lists that a draw sorts them into
//! - `screen`: the framebuffer
//! - `texture`: textures, also from decoded images
//! - `coverage`: the inside test with its top-left rule
//! - `raster`: the fragment stage of triangle drawing
//! - `line`, `circle`: outlines
//! - `mesh`: triangle meshes and the cube
//! - `vec2`, `vec3`: small vectors over any scalar

pub mod circle;
pub mod color;
pub mod coverage;
pub mod geometry;
pub mod line;
pub mod mesh;
pub mod raster;
pub mod screen;
pub mod single;
pub mod texture;
pub mod tiles;
pub mod vec2;
pub mod vec3;
