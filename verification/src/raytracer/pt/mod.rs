//! The path tracer's bookkeeping: sampling, accumulation, nested media, and the course of a path.

pub mod bxdf;
pub mod hair;
pub mod light_laws;
pub mod medium;
pub mod path;
pub mod records;
pub mod sampler;
pub mod samples;
pub mod volume;
pub mod walk;
