//! The decisions of the two background passes over the world: the save pass
//! and the tick pass. The threads that run them, and what they wait for, are
//! the caller's.

pub mod save;
pub mod voxel_data_updater;
