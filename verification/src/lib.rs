//! Core logic of a voxel viewer: loading `.vox` scenes into a voxel grid, the
//! input and start-up state machines, and GPU timing bookkeeping.
pub mod config;
pub mod vox;
pub mod pool;
pub mod render;
pub mod timing;
pub mod input;
pub mod harness;
