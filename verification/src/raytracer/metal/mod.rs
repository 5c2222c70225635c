//! What the GPU backend is handed: scene buffers, the plan of its dispatches, and what is read back.

pub mod checkpoint;
pub mod gpu_scene;
pub mod pattern_codegen;
pub mod readback;
pub mod scene_buffers;
pub mod schedule;
