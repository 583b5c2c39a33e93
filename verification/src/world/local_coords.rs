use vstd::prelude::*;
use vstd::std_specs::convert::FromSpecImpl;
use crate::world::global_coords::GlobalCoords;
use crate::world::chunk_coords::{CHUNK_SIZE, local_of};

verus! {

/// Offset of a voxel inside its chunk; every axis is below [`CHUNK_SIZE`].
#[derive(Debug, PartialEq, Eq, Clone, Copy, Structural)]
pub struct LocalCoords(pub u8, pub u8, pub u8);

impl LocalCoords {
    /// Every axis lies inside the chunk.
    pub open spec fn wf(self) -> bool {
        self.0 < CHUNK_SIZE && self.1 < CHUNK_SIZE && self.2 < CHUNK_SIZE
    }

    /// The offset of a global position inside the chunk that holds it.
    pub open spec fn of_global(coords: GlobalCoords) -> Self {
        LocalCoords(
            local_of(coords.0 as int) as u8,
            local_of(coords.1 as int) as u8,
            local_of(coords.2 as int) as u8,
        )
    }

    /// Position of the voxel in a chunk's dense voxel array: y-major, then z,
    /// then x.
    pub open spec fn spec_index(self) -> int {
        (self.1 as int * CHUNK_SIZE as int + self.2 as int) * CHUNK_SIZE as int + self.0 as int
    }

    /// Position of the voxel in a chunk's dense voxel array.
    pub fn index(&self) -> (i: usize)
        requires
            self.wf(),
        ensures
            i == self.spec_index(),
            i < CHUNK_SIZE * CHUNK_SIZE * CHUNK_SIZE,
    {
        let x: usize = self.0 as usize;
        let y: usize = self.1 as usize;
        let z: usize = self.2 as usize;
        (y * CHUNK_SIZE + z) * CHUNK_SIZE + x
    }
}

impl FromSpecImpl<GlobalCoords> for LocalCoords {
    open spec fn obeys_from_spec() -> bool {
        true
    }

    open spec fn from_spec(coords: GlobalCoords) -> Self {
        LocalCoords::of_global(coords)
    }
}

impl From<GlobalCoords> for LocalCoords {
    /// The offset of a global position inside the chunk that holds it.
    fn from(coords: GlobalCoords) -> (local: Self)
        ensures
            local.wf(),
    {
        LocalCoords(local_axis(coords.0), local_axis(coords.1), local_axis(coords.2))
    }
}

/// One axis of a global position, reduced to its offset inside the chunk.
fn local_axis(g: i32) -> (l: u8)
    ensures
        l as int == local_of(g as int),
        l < CHUNK_SIZE,
{
    let m: i32 = g & 15;
    assert(0 <= m < 16 && m as int == g as int % 16) by (bit_vector)
        requires
            m == g & 15i32,
    ;
    m as u8
}

} // verus!
