use vstd::prelude::*;
use crate::voxels::chunk::Chunk;
use crate::voxels::chunks::Chunks;
use crate::voxels::voxel_data::transport_belt::{belt_ticked, TransportBelt};
use crate::voxels::voxel_data::{VoxelAdditionalData, VoxelData};
use crate::world::chunk_coords::ChunkCoords;
use crate::world::global_coords::GlobalCoords;

verus! {

/// The position that a belt at `coords` runs into: one step along x and z
/// as its direction says, at the same height; none where that step leaves
/// the positions that an `i32` can name.
pub open spec fn next_coords(coords: GlobalCoords, direction: Seq<i8>) -> Option<GlobalCoords> {
    let x = coords.0 + direction[0];
    let z = coords.2 + direction[2];
    if i32::MIN <= x <= i32::MAX && i32::MIN <= z <= i32::MAX {
        Some(GlobalCoords(x as i32, coords.1, z as i32))
    } else {
        None
    }
}

/// The special voxel at place `place` of the chunk in slot `slot`.
pub open spec fn entry_at(chunks: Seq<Option<Chunk>>, slot: int, place: int) -> VoxelData {
    chunks[slot]->Some_0.voxels_data@[place]
}

/// The belt at place `place` of the chunk in slot `slot`.
pub open spec fn belt_in(chunks: Seq<Option<Chunk>>, slot: int, place: int) -> TransportBelt {
    entry_at(chunks, slot, place).additionally->TransportBelt_0
}

/// `after` is the chunk `before` with nothing changed but what the special
/// voxels at the places `first` and `second` carry, and unsaved if it was or
/// if one of these voxels has changed.
pub open spec fn chunk_kept(before: Chunk, after: Chunk, first: Option<int>, second: Option<int>) -> bool {
    &&& after.xyz == before.xyz
    &&& after.voxels == before.voxels
    &&& after.modified == before.modified
    &&& after.voxels_data@.len() == before.voxels_data@.len()
    &&& forall|q: int|
        0 <= q < before.voxels_data@.len() ==> {
            let old_entry = #[trigger] before.voxels_data@[q];
            let new_entry = after.voxels_data@[q];
            if first == Some(q) || second == Some(q) {
                &&& new_entry.id == old_entry.id
                &&& new_entry.global_coords == old_entry.global_coords
            } else {
                new_entry == old_entry
            }
        }
    &&& after.unsaved == (before.unsaved || (first matches Some(q) && after.voxels_data@[q]
        != before.voxels_data@[q]) || (second matches Some(q) && after.voxels_data@[q]
        != before.voxels_data@[q]))
}

/// A chunk that is well formed stays so where nothing changes but what
/// special voxels carry.
pub proof fn lemma_kept_wf(before: Chunk, after: Chunk, first: Option<int>, second: Option<int>)
    requires
        before.wf(),
        chunk_kept(before, after, first, second),
    ensures
        after.wf(),
{
    let old_list = before.voxels_data@;
    let list = after.voxels_data@;
    assert forall|i: int, j: int| 0 <= i < j < list.len() implies (#[trigger] list[i]).global_coords
        != (#[trigger] list[j]).global_coords by {
        assert(old_list[i].global_coords != old_list[j].global_coords);
    }
}

/// Every loaded chunk is well formed.
pub open spec fn chunks_wf(chunks: Seq<Option<Chunk>>) -> bool {
    forall|i: int| 0 <= i < chunks.len() ==> (#[trigger] chunks[i] matches Some(c) ==> c.wf())
}

/// Loaded chunks that are well formed stay so where nothing changes but
/// what special voxels carry.
pub proof fn lemma_grid_kept_wf(
    before: Seq<Option<Chunk>>,
    after: Seq<Option<Chunk>>,
    first: Option<(int, int)>,
    second: Option<(int, int)>,
)
    requires
        chunks_wf(before),
        grid_kept(before, after, first, second),
    ensures
        chunks_wf(after),
{
    assert forall|i: int| 0 <= i < after.len() implies (#[trigger] after[i] matches Some(c)
        ==> c.wf()) by {
        match before[i] {
            Some(chunk) => {
                lemma_kept_wf(chunk, after[i]->Some_0, place_in(i, first), place_in(i, second));
            },
            None => {},
        }
    }
}

/// The place, if it is in slot `slot`.
pub open spec fn place_in(slot: int, place: Option<(int, int)>) -> Option<int> {
    match place {
        Some((s, p)) => if s == slot {
            Some(p)
        } else {
            None
        },
        None => None,
    }
}

/// `after` are the slots `before` with nothing changed but what the special
/// voxels at the places `first` and `second` carry.
pub open spec fn grid_kept(
    before: Seq<Option<Chunk>>,
    after: Seq<Option<Chunk>>,
    first: Option<(int, int)>,
    second: Option<(int, int)>,
) -> bool {
    &&& after.len() == before.len()
    &&& forall|i: int|
        0 <= i < before.len() ==> match #[trigger] before[i] {
            Some(chunk) => after[i] matches Some(kept) && chunk_kept(
                chunk,
                kept,
                place_in(i, first),
                place_in(i, second),
            ),
            None => after[i] is None,
        }
}

impl Chunks {
    /// Slot and place of the belt at `coords`: the chunk of `coords` lies
    /// inside the window and is loaded, and its special voxel at `coords` is
    /// a belt.
    pub open spec fn belt_place(&self, coords: GlobalCoords) -> Option<(int, int)> {
        let c = ChunkCoords::of_global(coords);
        if self.in_area(c.0 as int, c.1 as int, c.2 as int) {
            let slot = self.slot_of(c.0 as int, c.1 as int, c.2 as int);
            match self.chunks@[slot] {
                Some(chunk) => match Chunk::data_place(chunk.voxels_data@, coords, 0) {
                    Some(place) => if chunk.voxels_data@[place].additionally is TransportBelt {
                        Some((slot, place))
                    } else {
                        None
                    },
                    None => None,
                },
                None => None,
            }
        } else {
            None
        }
    }

    /// The special voxel at `place` is there and is a belt.
    pub open spec fn has_belt(&self, place: (int, int)) -> bool {
        &&& 0 <= place.0 < self.chunks@.len()
        &&& self.chunks@[place.0] matches Some(chunk) && 0 <= place.1 < chunk.voxels_data@.len()
            && chunk.voxels_data@[place.1].additionally is TransportBelt
    }

    /// Slot and place of the belt that the belt at `place` runs into; a belt
    /// does not run into itself.
    pub open spec fn next_belt_place(&self, place: (int, int)) -> Option<(int, int)> {
        let coords = entry_at(self.chunks@, place.0, place.1).global_coords;
        match next_coords(coords, belt_in(self.chunks@, place.0, place.1).direction@) {
            Some(target) => if target == coords {
                None
            } else {
                self.belt_place(target)
            },
            None => None,
        }
    }

    /// `after` is this grid after one tick of the belt at `place`: that belt
    /// and the belt that it runs into, if there is one, have changed as a
    /// tick of the belt says, their chunks are unsaved where they have
    /// changed, and nothing else has changed.
    pub open spec fn belt_ticked_at<A: Fn(u32, u32) -> u32, S: Fn(u32, u32) -> u32, G: Fn(u32, u32) -> bool>(
        &self,
        after: &Chunks,
        plus: &A,
        minus: &S,
        greater: &G,
        place: (int, int),
    ) -> bool {
        let next_place = self.next_belt_place(place);
        &&& grid_kept(self.chunks@, after.chunks@, Some(place), next_place)
        &&& after.has_belt(place)
        &&& next_place matches Some(into) ==> after.has_belt(into)
        &&& belt_ticked(
            plus,
            minus,
            greater,
            belt_in(self.chunks@, place.0, place.1)@,
            match next_place {
                Some((slot, at)) => Some(belt_in(self.chunks@, slot, at)@),
                None => None,
            },
            belt_in(after.chunks@, place.0, place.1)@,
            match next_place {
                Some((slot, at)) => Some(belt_in(after.chunks@, slot, at)@),
                None => None,
            },
        )
    }

    /// Slot and place of the belt at `coords`.
    pub fn find_belt(&self, coords: GlobalCoords) -> (place: Option<(usize, usize)>)
        requires
            self.wf(),
        ensures
            match place {
                Some((slot, at)) => {
                    &&& self.belt_place(coords) == Some((slot as int, at as int))
                    &&& slot < self.chunks@.len()
                    &&& self.chunks@[slot as int] matches Some(chunk) && at
                        < chunk.voxels_data@.len() && chunk.voxels_data@[at as int].global_coords
                        == coords && chunk.voxels_data@[at as int].additionally is TransportBelt
                },
                None => self.belt_place(coords) is None,
            },
    {
        let slot = match self.slot_index(ChunkCoords::from(coords)) {
            Some(slot) => slot,
            None => {
                return None;
            },
        };
        let chunk = match &self.chunks[slot] {
            Some(chunk) => chunk,
            None => {
                return None;
            },
        };
        let at = match chunk.voxel_data_place(coords) {
            Some(at) => at,
            None => {
                return None;
            },
        };
        match chunk.voxels_data[at].additionally.transport_belt() {
            Some(_) => Some((slot, at)),
            None => None,
        }
    }

    /// The position that a belt at `coords` with direction `direction` runs
    /// into.
    pub fn belt_target(coords: GlobalCoords, direction: &[i8; 3]) -> (target: Option<GlobalCoords>)
        ensures
            target == next_coords(coords, direction@),
    {
        let x: i64 = coords.0 as i64 + direction[0] as i64;
        let z: i64 = coords.2 as i64 + direction[2] as i64;
        if x < i32::MIN as i64 || x > i32::MAX as i64 || z < i32::MIN as i64 || z > i32::MAX as i64 {
            None
        } else {
            Some(GlobalCoords(x as i32, coords.1, z as i32))
        }
    }

    /// One tick of the belt at `coords`, with the arithmetic on progress
    /// that `TransportBelt::update` asks of its caller. The belt that this
    /// belt runs into is looked up in the grid, in the same chunk or in
    /// another one. Returns whether there is a belt at `coords`.
    pub fn update_belt<A, S, G>(
        &mut self,
        coords: GlobalCoords,
        plus: &A,
        minus: &S,
        greater: &G,
    ) -> (ran: bool) where A: Fn(u32, u32) -> u32, S: Fn(u32, u32) -> u32, G: Fn(u32, u32) -> bool
        requires
            old(self).wf(),
            forall|a: u32, b: u32| call_requires(*plus, (a, b)),
            forall|a: u32, b: u32| call_requires(*minus, (a, b)),
            forall|a: u32, b: u32| call_requires(*greater, (a, b)),
        ensures
            final(self).wf(),
            final(self).chunks_awaiting_deletion == old(self).chunks_awaiting_deletion,
            final(self).width == old(self).width,
            final(self).height == old(self).height,
            final(self).depth == old(self).depth,
            final(self).ox == old(self).ox,
            final(self).oz == old(self).oz,
            final(self).is_translate == old(self).is_translate,
            chunks_wf(old(self).chunks@) ==> chunks_wf(final(self).chunks@),
            match old(self).belt_place(coords) {
                Some(place) => ran && old(self).belt_ticked_at(
                    final(self),
                    plus,
                    minus,
                    greater,
                    place,
                ),
                None => !ran && final(self).chunks@ == old(self).chunks@,
            },
    {
        match self.find_belt(coords) {
            Some((slot, at)) => {
                self.update_belt_at(slot, at, plus, minus, greater);
                true
            },
            None => false,
        }
    }

    /// One tick of the belt at place `at` of the chunk in slot `slot`.
    pub fn update_belt_at<A, S, G>(
        &mut self,
        slot: usize,
        at: usize,
        plus: &A,
        minus: &S,
        greater: &G,
    ) where A: Fn(u32, u32) -> u32, S: Fn(u32, u32) -> u32, G: Fn(u32, u32) -> bool
        requires
            old(self).wf(),
            old(self).has_belt((slot as int, at as int)),
            forall|a: u32, b: u32| call_requires(*plus, (a, b)),
            forall|a: u32, b: u32| call_requires(*minus, (a, b)),
            forall|a: u32, b: u32| call_requires(*greater, (a, b)),
        ensures
            final(self).wf(),
            final(self).chunks_awaiting_deletion == old(self).chunks_awaiting_deletion,
            final(self).width == old(self).width,
            final(self).height == old(self).height,
            final(self).depth == old(self).depth,
            final(self).ox == old(self).ox,
            final(self).oz == old(self).oz,
            final(self).is_translate == old(self).is_translate,
            chunks_wf(old(self).chunks@) ==> chunks_wf(final(self).chunks@),
            old(self).belt_ticked_at(
                final(self),
                plus,
                minus,
                greater,
                (slot as int, at as int),
            ),
    {
        let ghost before = self.chunks@;
        let ghost place = (slot as int, at as int);
        let (mut belt, coords) = match &self.chunks[slot] {
            Some(chunk) => match chunk.voxels_data[at].additionally.transport_belt() {
                Some(belt) => (belt.copy(), chunk.voxels_data[at].global_coords),
                None => {
                    return ;
                },
            },
            None => {
                return ;
            },
        };
        let belt_before = belt.copy();
        let next_place = match Self::belt_target(coords, &belt.direction) {
            Some(target) => if target == coords {
                None
            } else {
                self.find_belt(target)
            },
            None => None,
        };
        let ghost next_spec: Option<(int, int)> = match next_place {
            Some((s, p)) => Some((s as int, p as int)),
            None => None,
        };
        assert(next_spec == self.next_belt_place(place));
        assert(next_spec != Some(place));
        match next_place {
            Some((next_slot, next_at)) => {
                let ghost chunk_before = before[next_slot as int]->Some_0;
                if let Some(chunk) = &mut self.chunks[next_slot] {
                    let mut changed = false;
                    if let VoxelAdditionalData::TransportBelt(next) =
                        &mut chunk.voxels_data[next_at].additionally {
                        let next_before = next.copy();
                        belt.update(Some(next), plus, minus, greater);
                        changed = !next.same_as(&next_before);
                    }
                    if changed {
                        chunk.unsaved = true;
                    }
                    proof {
                        assert(chunk.voxels_data@ =~= chunk_before.voxels_data@.update(
                            next_at as int,
                            chunk.voxels_data@[next_at as int],
                        ));
                        assert(chunk_kept(chunk_before, *chunk, None, Some(next_at as int)));
                    }
                }
            },
            None => {
                belt.update(None, plus, minus, greater);
            },
        }
        let ghost between = self.chunks@;
        proof {
            assert(between.len() == before.len());
            assert(grid_kept(before, between, None, next_spec)) by {
                assert forall|i: int| 0 <= i < before.len() implies match #[trigger] before[i] {
                    Some(chunk) => between[i] matches Some(kept) && chunk_kept(
                        chunk,
                        kept,
                        place_in(i, None),
                        place_in(i, next_spec),
                    ),
                    None => between[i] is None,
                } by {}
            }
        }
        let changed = !belt.same_as(&belt_before);
        let ghost chunk_between = between[slot as int]->Some_0;
        if let Some(chunk) = &mut self.chunks[slot] {
            chunk.voxels_data[at].additionally = VoxelAdditionalData::TransportBelt(belt);
            if changed {
                chunk.unsaved = true;
            }
            proof {
                assert(chunk.voxels_data@ =~= chunk_between.voxels_data@.update(
                    at as int,
                    chunk.voxels_data@[at as int],
                ));
            }
        }
        proof {
            let after = self.chunks@;
            assert(grid_kept(before, after, Some(place), next_spec)) by {
                assert forall|i: int| 0 <= i < before.len() implies match #[trigger] before[i] {
                    Some(chunk) => after[i] matches Some(kept) && chunk_kept(
                        chunk,
                        kept,
                        place_in(i, Some(place)),
                        place_in(i, next_spec),
                    ),
                    None => after[i] is None,
                } by {
                    assert(match before[i] {
                        Some(chunk) => between[i] matches Some(kept) && chunk_kept(
                            chunk,
                            kept,
                            place_in(i, None),
                            place_in(i, next_spec),
                        ),
                        None => between[i] is None,
                    });
                }
            }
            if chunks_wf(before) {
                lemma_grid_kept_wf(before, after, Some(place), next_spec);
            }
        }
    }
}

} // verus!
