//! Items, the slots that hold them, and the recipes that turn some into
//! others.

pub mod item;
pub mod recipe;
pub mod storage;
