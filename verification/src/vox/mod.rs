//! The voxel world: `.vox` scenes, their transforms, and the voxel grid built from them.
pub mod text;
pub mod matrix;
pub mod scene;
pub mod model;
pub mod file;
pub mod palette;
