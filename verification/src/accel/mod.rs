//! Acceleration structures: a bounding volume hierarchy used at two levels, per
//! mesh over triangles and scene-wide over instances.

pub mod box_laws;
pub mod bvh;
pub mod sah;
pub mod tree_laws;

pub use crate::accel::bvh::{Aabb, Bvh};
