//! Core of a chunked voxel world: coordinate spaces, the bounded grid of
//! loaded chunks, the searches that pick the next chunk to load, mesh or
//! evict, the decisions of the background save and tick passes, and the
//! binary codec of per-voxel machine state.

pub mod bytes;
pub mod gui;
pub mod input_event;
pub mod recipes;
pub mod threads;
pub mod voxels;
pub mod world;
