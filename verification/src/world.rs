//! The three coordinate spaces and the conversions between them.

pub mod chunk_coords;
pub mod global_coords;
pub mod local_coords;
