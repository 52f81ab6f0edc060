//! A small software rasteriser over exact fixed-point arithmetic.
//!
//! Triangles with a flat colour are composited into a frame buffer with
//! fixed-grid supersampling. Every number is a signed fixed-point value, so
//! the inside test is exact and the blending rules are stated and proved
//! over integers.
pub mod fixed;
pub mod color;
pub mod geometry;
pub mod buffer;
pub mod raster;
pub mod sink;
