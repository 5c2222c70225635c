//! Geometry as the scene description carries it.

pub mod cone;
pub mod curves;
pub mod cylinder;
pub mod displace;
pub mod earclip;
pub mod extra;
pub mod hits;
pub mod instance;
pub mod mesh;
pub mod normals;
pub mod patches;
pub mod placing;
pub mod quadric_laws;
pub mod shape_laws;
pub mod sphere;
pub mod spline_laws;
pub mod splines;
pub mod strands;
pub mod subdiv;
pub mod subdivision_laws;
pub mod traits;
