//! A small software rasterizer: the integer half of a triangle renderer
//! (frame buffer, pixel addressing, triangle coverage, near-plane clipping
//! plans), a reader for the Wavefront OBJ mesh format and the unit cube's
//! topology, each verified against a mathematical specification.

pub mod clip;
pub mod mesh;
pub mod obj;
pub mod rasterizer;
pub mod triangle;
