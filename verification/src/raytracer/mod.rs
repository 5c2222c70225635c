pub mod flatten;
pub mod intersection;
pub mod metal;
pub mod mlx;
pub mod picture_laws;
pub mod pt;
pub mod ray;
