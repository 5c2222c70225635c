//! USD ingest: an importer for the .usda text format, covering the subset a
//! renderer needs: prim hierarchies with Xform ops, Mesh/Sphere/Cube geometry,
//! UsdPreviewSurface materials, the standard lights, and the camera.
//! Composition arcs (references, payloads, variants, inherits) are out of scope
//! and warn.
//!
//! A stage becomes a stream of RIB requests for the scene builder: USD is a front
//! end, not a second scene pipeline.

pub mod convert;
pub mod finish;
pub mod lexer;
pub mod op_laws;
pub mod prim_laws;
pub mod stage;
