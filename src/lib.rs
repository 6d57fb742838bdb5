//! Visibility culling for a voxel world: a frustum/fog pass over a fixed
//! 256x256x256 section grid, a breadth-first occlusion walk from the camera
//! section, and a region-grouped render list assembled in first-touch order.

pub mod visibility;
pub mod local;
pub mod region;
pub mod queue;
pub mod octree;
pub mod graph;
