use vstd::prelude::*;

verus! {

/// Absolute position of a voxel in world space.
#[derive(Debug, PartialEq, Eq, Clone, Copy, Structural)]
pub struct GlobalCoords(pub i32, pub i32, pub i32);

impl GlobalCoords {
    /// The three axes as mathematical integers.
    pub open spec fn triple(self) -> (int, int, int) {
        (self.0 as int, self.1 as int, self.2 as int)
    }
}

} // verus!
