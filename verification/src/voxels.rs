//! Chunks, the grid that holds them and the searches over it.

pub mod belts;
pub mod chunk;
pub mod chunks;
pub mod find_chunks;
pub mod spiral;
pub mod voxel_data;
