use vstd::prelude::*;
use crate::recipes::recipe::Recipes;
use crate::voxels::voxel_data::VoxelData;
use crate::world::chunk_coords::ChunkCoords;
use crate::world::global_coords::GlobalCoords;
use crate::world::local_coords::LocalCoords;

verus! {

/// Number of voxels in a chunk.
pub const CHUNK_VOLUME: usize = 4096;

/// A cube of voxels with the flags that drive meshing and saving.
#[derive(Debug)]
pub struct Chunk {
    /// Where the chunk stands in the world.
    pub xyz: ChunkCoords,
    /// The voxel ids, dense, ordered as `LocalCoords::index` says.
    pub voxels: Vec<u32>,
    /// The special voxels of the chunk, by their positions: at most one
    /// for a position.
    pub voxels_data: Vec<VoxelData>,
    /// Set by every change that the mesh does not show yet.
    pub modified: bool,
    /// Set by every change that the region store does not hold yet.
    pub unsaved: bool,
}

impl Chunk {
    /// The voxel array is complete, and no two special voxels stand at one
    /// position.
    pub open spec fn wf(&self) -> bool {
        &&& self.voxels@.len() == CHUNK_VOLUME
        &&& Self::distinct_positions(self.voxels_data@)
    }

    /// No two special voxels of the list stand at one position.
    pub open spec fn distinct_positions(list: Seq<VoxelData>) -> bool {
        forall|i: int, j: int|
            0 <= i < j < list.len() ==> (#[trigger] list[i]).global_coords
                != (#[trigger] list[j]).global_coords
    }

    /// Where the search for a position finds nothing from `from` on, no
    /// special voxel from there on stands at the position; where it finds a
    /// place, the special voxel there is the first that does.
    pub proof fn lemma_data_place(list: Seq<VoxelData>, coords: GlobalCoords, from: int)
        requires
            0 <= from,
        ensures
            match Self::data_place(list, coords, from) {
                Some(place) => {
                    &&& from <= place < list.len()
                    &&& list[place].global_coords == coords
                    &&& forall|k: int| from <= k < place ==> (#[trigger] list[k]).global_coords != coords
                },
                None => forall|k: int|
                    from <= k < list.len() ==> (#[trigger] list[k]).global_coords != coords,
            },
        decreases list.len() - from,
    {
        if from < list.len() && list[from].global_coords != coords {
            Self::lemma_data_place(list, coords, from + 1);
        }
    }

    /// A chunk of empty voxels (id 0) at `xyz`; it has no mesh yet and
    /// nothing to save.
    pub fn new(xyz: ChunkCoords) -> (chunk: Self)
        ensures
            chunk.wf(),
            chunk.xyz == xyz,
            chunk.modified,
            !chunk.unsaved,
            forall|i: int| 0 <= i < CHUNK_VOLUME ==> chunk.voxels@[i] == 0,
            chunk.voxels_data@.len() == 0,
    {
        let mut voxels: Vec<u32> = Vec::new();
        let mut i: usize = 0;
        while i < CHUNK_VOLUME
            invariant
                i <= CHUNK_VOLUME,
                voxels@.len() == i,
                forall|k: int| 0 <= k < i ==> voxels@[k] == 0,
            decreases CHUNK_VOLUME - i,
        {
            voxels.push(0);
            i += 1;
        }
        Chunk { xyz, voxels, voxels_data: Vec::new(), modified: true, unsaved: false }
    }

    /// The id of the voxel at `local`.
    pub fn voxel(&self, local: LocalCoords) -> (id: u32)
        requires
            self.wf(),
            local.wf(),
        ensures
            id == self.voxels@[local.spec_index()],
    {
        self.voxels[local.index()]
    }

    /// Puts voxel `id` at `local`; the chunk is then stale and unsaved.
    pub fn set_voxel(&mut self, local: LocalCoords, id: u32)
        requires
            old(self).wf(),
            local.wf(),
        ensures
            final(self).wf(),
            final(self).voxels@ == old(self).voxels@.update(local.spec_index(), id),
            final(self).xyz == old(self).xyz,
            final(self).voxels_data == old(self).voxels_data,
            final(self).modified,
            final(self).unsaved,
    {
        let index = local.index();
        self.voxels[index] = id;
        self.modified = true;
        self.unsaved = true;
    }

    /// Every machine of the chunk names only recipes of the catalog.
    pub open spec fn data_wf(&self, recipes: &Recipes) -> bool {
        forall|i: int| 0 <= i < self.voxels_data@.len() ==> (#[trigger] self.voxels_data@[i]).wf(recipes)
    }

    /// Whether the chunk is well formed.
    pub fn is_well_formed(&self) -> (ok: bool)
        ensures
            ok == self.wf(),
    {
        if self.voxels.len() != CHUNK_VOLUME {
            return false;
        }
        let mut j: usize = 0;
        while j < self.voxels_data.len()
            invariant
                0 <= j <= self.voxels_data@.len(),
                Self::distinct_positions(self.voxels_data@.subrange(0, j as int)),
            decreases self.voxels_data@.len() - j,
        {
            let mut i: usize = 0;
            while i < j
                invariant
                    0 <= i <= j < self.voxels_data@.len(),
                    forall|k: int|
                        0 <= k < i ==> (#[trigger] self.voxels_data@[k]).global_coords
                            != self.voxels_data@[j as int].global_coords,
                decreases j - i,
            {
                if self.voxels_data[i].global_coords == self.voxels_data[j].global_coords {
                    return false;
                }
                i += 1;
            }
            proof {
                let head = self.voxels_data@.subrange(0, j as int);
                let more = self.voxels_data@.subrange(0, j + 1);
                assert forall|a: int, b: int| 0 <= a < b < more.len() implies (
                #[trigger] more[a]).global_coords != (#[trigger] more[b]).global_coords by {
                    if b < j {
                        assert(head[a].global_coords != head[b].global_coords);
                    }
                }
            }
            j += 1;
        }
        assert(self.voxels_data@.subrange(0, self.voxels_data@.len() as int) =~= self.voxels_data@);
        true
    }

    /// Whether every machine of the chunk names only recipes of the
    /// catalog, which is well formed.
    pub fn is_data_well_formed(&self, recipes: &Recipes) -> (ok: bool)
        requires
            recipes.wf(),
        ensures
            ok == self.data_wf(recipes),
    {
        let mut i: usize = 0;
        while i < self.voxels_data.len()
            invariant
                recipes.wf(),
                0 <= i <= self.voxels_data@.len(),
                forall|k: int| 0 <= k < i ==> (#[trigger] self.voxels_data@[k]).wf(recipes),
            decreases self.voxels_data@.len() - i,
        {
            let ok = match self.voxels_data[i].additionally.assembling_machine() {
                Some(machine) => machine.is_well_formed(recipes),
                None => true,
            };
            if !ok {
                assert(!self.voxels_data@[i as int].wf(recipes));
                return false;
            }
            i += 1;
        }
        true
    }

    /// Place among the special voxels of the first one at `coords`, from
    /// place `from` on.
    pub open spec fn data_place(list: Seq<VoxelData>, coords: GlobalCoords, from: int) -> Option<int>
        decreases list.len() - from,
    {
        if from >= list.len() {
            None
        } else if list[from].global_coords == coords {
            Some(from)
        } else {
            Self::data_place(list, coords, from + 1)
        }
    }

    /// Place among the special voxels of the one at `coords`.
    pub fn voxel_data_place(&self, coords: GlobalCoords) -> (place: Option<usize>)
        ensures
            match place {
                Some(i) => {
                    &&& Self::data_place(self.voxels_data@, coords, 0) == Some(i as int)
                    &&& i < self.voxels_data@.len()
                    &&& self.voxels_data@[i as int].global_coords == coords
                },
                None => Self::data_place(self.voxels_data@, coords, 0) is None,
            },
    {
        let mut i: usize = 0;
        while i < self.voxels_data.len()
            invariant
                0 <= i <= self.voxels_data@.len(),
                Self::data_place(self.voxels_data@, coords, 0) == Self::data_place(
                    self.voxels_data@,
                    coords,
                    i as int,
                ),
            decreases self.voxels_data@.len() - i,
        {
            if self.voxels_data[i].global_coords == coords {
                return Some(i);
            }
            i += 1;
        }
        None
    }

    /// The special voxel at `coords`.
    pub fn voxel_data(&self, coords: GlobalCoords) -> (data: Option<&VoxelData>)
        ensures
            data == (match Self::data_place(self.voxels_data@, coords, 0) {
                Some(i) => Some(&self.voxels_data@[i]),
                None => None,
            }),
    {
        match self.voxel_data_place(coords) {
            Some(i) => Some(&self.voxels_data[i]),
            None => None,
        }
    }

    /// Puts a special voxel into the chunk, in place of the one that stands
    /// at its position if there is one, else behind the others; so a
    /// position keeps at most one. The chunk is then stale and unsaved.
    pub fn add_voxel_data(&mut self, data: VoxelData)
        ensures
            old(self).wf() ==> final(self).wf(),
            final(self).xyz == old(self).xyz,
            final(self).voxels == old(self).voxels,
            final(self).modified,
            final(self).unsaved,
            final(self).voxels_data@ == (match Self::data_place(
                old(self).voxels_data@,
                data.global_coords,
                0,
            ) {
                Some(i) => old(self).voxels_data@.update(i, data),
                None => old(self).voxels_data@.push(data),
            }),
    {
        proof {
            Self::lemma_data_place(self.voxels_data@, data.global_coords, 0);
        }
        match self.voxel_data_place(data.global_coords) {
            Some(i) => {
                self.voxels_data[i] = data;
            },
            None => {
                self.voxels_data.push(data);
            },
        }
        self.modified = true;
        self.unsaved = true;
        proof {
            if old(self).wf() {
                let before = old(self).voxels_data@;
                let list = self.voxels_data@;
                assert forall|i: int, j: int| 0 <= i < j < list.len() implies (
                #[trigger] list[i]).global_coords != (#[trigger] list[j]).global_coords by {
                    if i < before.len() && j < before.len() {
                        assert(before[i].global_coords != before[j].global_coords);
                    }
                }
            }
        }
    }
}

} // verus!
