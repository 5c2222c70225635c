//! The scene-handling core of a RenderMan RIB renderer.

pub mod accel;
pub mod arith;
pub mod cli;
pub mod double;
pub mod geometry;
pub mod math;
pub mod near;
pub mod output;
pub mod parser;
pub mod preview;
pub mod raytracer;
pub mod rounding;
pub mod text;
pub mod texture;
