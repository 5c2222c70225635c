//! Images and what is written of them.

pub mod accum;
pub mod denoise;
pub mod film;
pub mod filter_laws;
pub mod multilayer;
pub mod ppm;
pub mod tonemap;
