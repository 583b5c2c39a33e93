use vstd::prelude::*;
use crate::recipes::recipe::Recipes;
use crate::voxels::belts::{
    chunk_kept, chunks_wf, entry_at, grid_kept, lemma_grid_kept_wf, place_in,
};
use crate::voxels::chunk::Chunk;
use crate::voxels::chunks::Chunks;
use crate::voxels::voxel_data::VoxelAdditionalData;

verus! {

/// Time from the start of one tick pass to the start of the next, in
/// milliseconds.
pub const TICK_PERIOD: u64 = 100;

/// How long to sleep after a tick pass that took `elapsed` milliseconds, so
/// that passes start one period apart: what is left of the period, and
/// nothing after a pass that overran it.
pub fn sleep_millis(elapsed: u64) -> (millis: u64)
    ensures
        millis == (if elapsed <= TICK_PERIOD {
            TICK_PERIOD - elapsed
        } else {
            0
        }),
{
    match TICK_PERIOD.checked_sub(elapsed) {
        Some(rest) => rest,
        None => 0,
    }
}

/// `place` names a special voxel: a place of a loaded chunk.
pub open spec fn is_entry(chunks: Seq<Option<Chunk>>, place: (int, int)) -> bool {
    &&& 0 <= place.0 < chunks.len()
    &&& chunks[place.0] matches Some(chunk) && 0 <= place.1 < chunk.voxels_data@.len()
}

/// `a` takes its tick before `b`: its slot comes first, or its place in the
/// same slot.
pub open spec fn ticks_before(a: (int, int), b: (int, int)) -> bool {
    a.0 < b.0 || (a.0 == b.0 && a.1 < b.1)
}

/// `places` names every special voxel of the grid once, slot by slot and
/// place by place.
pub open spec fn in_tick_order(places: Seq<(int, int)>, chunks: Seq<Option<Chunk>>) -> bool {
    &&& forall|k: int| 0 <= k < places.len() ==> is_entry(chunks, #[trigger] places[k])
    &&& forall|j: int, k: int|
        0 <= j < k < places.len() ==> ticks_before(#[trigger] places[j], #[trigger] places[k])
    &&& forall|slot: int, place: int| #[trigger]
        is_entry(chunks, (slot, place)) ==> places.contains((slot, place))
}

/// Two grids stand at the same place, with the same extents, deletion
/// queue and flag.
pub open spec fn same_frame(before: &Chunks, after: &Chunks) -> bool {
    &&& after.chunks_awaiting_deletion == before.chunks_awaiting_deletion
    &&& after.width == before.width
    &&& after.height == before.height
    &&& after.depth == before.depth
    &&& after.ox == before.ox
    &&& after.oz == before.oz
    &&& after.is_translate == before.is_translate
}

/// `after` is the grid `before` after the special voxel at `place` took its
/// tick at `now`. A belt moves as `Chunks::update_belt_at` says, and the
/// belt that it runs into may change with it. A machine takes its own tick,
/// and nothing but the machine changes. The chunk of a voxel that has
/// changed is unsaved.
pub open spec fn entry_ticked<A: Fn(u32, u32) -> u32, S: Fn(u32, u32) -> u32, G: Fn(u32, u32) -> bool>(
    before: &Chunks,
    after: &Chunks,
    place: (int, int),
    recipes: &Recipes,
    now: u64,
    plus: &A,
    minus: &S,
    greater: &G,
) -> bool {
    &&& same_frame(before, after)
    &&& match entry_at(before.chunks@, place.0, place.1).additionally {
        VoxelAdditionalData::TransportBelt(_) => before.belt_ticked_at(
            after,
            plus,
            minus,
            greater,
            place,
        ),
        _ => {
            &&& grid_kept(before.chunks@, after.chunks@, Some(place), None)
            &&& entry_at(before.chunks@, place.0, place.1).ticked(
                recipes,
                now,
                &entry_at(after.chunks@, place.0, place.1),
            )
        },
    }
}

/// `after` is the grid `before` after one tick pass at `now`: the special
/// voxels named by `places` took their ticks one after the other, each on
/// the grid that the one before it left; `steps` holds the grid before the
/// first tick and after each tick.
pub open spec fn pass_ticked<A: Fn(u32, u32) -> u32, S: Fn(u32, u32) -> u32, G: Fn(u32, u32) -> bool>(
    before: &Chunks,
    after: &Chunks,
    places: Seq<(int, int)>,
    steps: Seq<Chunks>,
    recipes: &Recipes,
    now: u64,
    plus: &A,
    minus: &S,
    greater: &G,
) -> bool {
    &&& in_tick_order(places, before.chunks@)
    &&& steps.len() == places.len() + 1
    &&& steps[0] == *before
    &&& steps[places.len() as int] == *after
    &&& forall|k: int|
        0 <= k < places.len() ==> entry_ticked(
            &#[trigger] steps[k],
            &steps[k + 1],
            places[k],
            recipes,
            now,
            plus,
            minus,
            greater,
        )
}

/// Two grids have special voxels at the same places.
pub open spec fn same_places(before: Seq<Option<Chunk>>, after: Seq<Option<Chunk>>) -> bool {
    &&& after.len() == before.len()
    &&& forall|i: int|
        0 <= i < before.len() ==> match #[trigger] before[i] {
            Some(chunk) => after[i] matches Some(kept) && kept.voxels_data@.len()
                == chunk.voxels_data@.len(),
            None => after[i] is None,
        }
}

/// One pass of the tick thread at `now`, a time in milliseconds: every
/// special voxel of every loaded chunk takes its tick, slot by slot and
/// place by place. While the window is being moved the whole pass is left
/// out. Returns whether the pass ran.
///
/// The arithmetic on the progress of belts is the caller's, as
/// `TransportBelt::update` says.
pub fn tick<A, S, G>(
    chunks: &mut Chunks,
    recipes: &Recipes,
    now: u64,
    plus: &A,
    minus: &S,
    greater: &G,
) -> (ran: bool) where A: Fn(u32, u32) -> u32, S: Fn(u32, u32) -> u32, G: Fn(u32, u32) -> bool
    requires
        recipes.wf(),
        old(chunks).wf(),
        old(chunks).data_wf(recipes),
        forall|a: u32, b: u32| call_requires(*plus, (a, b)),
        forall|a: u32, b: u32| call_requires(*minus, (a, b)),
        forall|a: u32, b: u32| call_requires(*greater, (a, b)),
    ensures
        final(chunks).wf(),
        final(chunks).data_wf(recipes),
        same_frame(old(chunks), final(chunks)),
        same_places(old(chunks).chunks@, final(chunks).chunks@),
        chunks_wf(old(chunks).chunks@) ==> chunks_wf(final(chunks).chunks@),
        ran == !old(chunks).is_translate,
        !ran ==> final(chunks).chunks@ == old(chunks).chunks@,
        ran ==> exists|places: Seq<(int, int)>, steps: Seq<Chunks>| #[trigger]
            pass_ticked(
                old(chunks),
                final(chunks),
                places,
                steps,
                recipes,
                now,
                plus,
                minus,
                greater,
            ),
{
    if chunks.is_translate {
        return false;
    }
    let ghost mut places: Seq<(int, int)> = Seq::empty();
    let ghost mut steps: Seq<Chunks> = seq![*chunks];
    let mut i: usize = 0;
    while i < chunks.chunks.len()
        invariant
            recipes.wf(),
            chunks.wf(),
            chunks.data_wf(recipes),
            forall|a: u32, b: u32| call_requires(*plus, (a, b)),
            forall|a: u32, b: u32| call_requires(*minus, (a, b)),
            forall|a: u32, b: u32| call_requires(*greater, (a, b)),
            same_frame(old(chunks), chunks),
            same_places(old(chunks).chunks@, chunks.chunks@),
            chunks_wf(old(chunks).chunks@) ==> chunks_wf(chunks.chunks@),
            0 <= i <= chunks.chunks@.len(),
            steps.len() == places.len() + 1,
            steps[0] == *old(chunks),
            steps[places.len() as int] == *chunks,
            forall|k: int|
                0 <= k < places.len() ==> entry_ticked(
                    &#[trigger] steps[k],
                    &steps[k + 1],
                    places[k],
                    recipes,
                    now,
                    plus,
                    minus,
                    greater,
                ),
            forall|k: int|
                0 <= k < places.len() ==> is_entry(old(chunks).chunks@, #[trigger] places[k])
                    && ticks_before(places[k], (i as int, 0)),
            forall|j: int, k: int|
                0 <= j < k < places.len() ==> ticks_before(
                    #[trigger] places[j],
                    #[trigger] places[k],
                ),
            forall|slot: int, place: int| #[trigger]
                is_entry(old(chunks).chunks@, (slot, place)) && slot < i ==> places.contains(
                    (slot, place),
                ),
        decreases chunks.chunks@.len() - i,
    {
        let count: usize = match &chunks.chunks[i] {
            Some(chunk) => chunk.voxels_data.len(),
            None => 0,
        };
        let mut q: usize = 0;
        while q < count
            invariant
                recipes.wf(),
                chunks.wf(),
                chunks.data_wf(recipes),
                forall|a: u32, b: u32| call_requires(*plus, (a, b)),
                forall|a: u32, b: u32| call_requires(*minus, (a, b)),
                forall|a: u32, b: u32| call_requires(*greater, (a, b)),
                same_frame(old(chunks), chunks),
                same_places(old(chunks).chunks@, chunks.chunks@),
                chunks_wf(old(chunks).chunks@) ==> chunks_wf(chunks.chunks@),
                0 <= i < chunks.chunks@.len(),
                0 <= q <= count,
                chunks.chunks@[i as int] matches Some(chunk) ==> count == chunk.voxels_data@.len(),
                chunks.chunks@[i as int] is None ==> count == 0,
                steps.len() == places.len() + 1,
                steps[0] == *old(chunks),
                steps[places.len() as int] == *chunks,
                forall|k: int|
                    0 <= k < places.len() ==> entry_ticked(
                        &#[trigger] steps[k],
                        &steps[k + 1],
                        places[k],
                        recipes,
                        now,
                        plus,
                        minus,
                        greater,
                    ),
                forall|k: int|
                    0 <= k < places.len() ==> is_entry(old(chunks).chunks@, #[trigger] places[k])
                        && ticks_before(places[k], (i as int, q as int)),
                forall|j: int, k: int|
                    0 <= j < k < places.len() ==> ticks_before(
                        #[trigger] places[j],
                        #[trigger] places[k],
                    ),
                forall|slot: int, place: int| #[trigger]
                    is_entry(old(chunks).chunks@, (slot, place)) && ticks_before(
                        (slot, place),
                        (i as int, q as int),
                    ) ==> places.contains((slot, place)),
            decreases count - q,
        {
            let ghost before = *chunks;
            let ghost here = (i as int, q as int);
            let is_belt = match &chunks.chunks[i] {
                Some(chunk) => chunk.voxels_data[q].additionally.transport_belt().is_some(),
                None => false,
            };
            if is_belt {
                chunks.update_belt_at(i, q, plus, minus, greater);
                proof {
                    lemma_kept_data_wf(
                        before.chunks@,
                        chunks.chunks@,
                        Some(here),
                        before.next_belt_place(here),
                        recipes,
                    );
                }
            } else {
                assert(before.chunks@[i as int]->Some_0.data_wf(recipes));
                if let Some(chunk) = &mut chunks.chunks[i] {
                    let ghost chunk_before = *chunk;
                    let changed = chunk.voxels_data[q].update(recipes, now);
                    if changed {
                        chunk.unsaved = true;
                    }
                    proof {
                        assert(chunk.voxels_data@ =~= chunk_before.voxels_data@.update(
                            q as int,
                            chunk.voxels_data@[q as int],
                        ));
                        assert(chunk_kept(
                            chunk_before,
                            *chunk,
                            Some(q as int),
                            None,
                        ));
                    }
                }
                proof {
                    assert(grid_kept(before.chunks@, chunks.chunks@, Some(here), None)) by {
                        assert forall|s: int| 0 <= s < before.chunks@.len() implies match #[trigger] before.chunks@[s] {
                            Some(chunk) => chunks.chunks@[s] matches Some(kept)
                                && chunk_kept(
                                chunk,
                                kept,
                                place_in(s, Some(here)),
                                place_in(s, None),
                            ),
                            None => chunks.chunks@[s] is None,
                        } by {}
                    }
                    lemma_kept_data_wf(before.chunks@, chunks.chunks@, Some(here), None, recipes);
                    if chunks_wf(before.chunks@) {
                        lemma_grid_kept_wf(before.chunks@, chunks.chunks@, Some(here), None);
                    }
                    assert(chunks.wf()) by {
                        assert forall|s: int| 0 <= s < chunks.chunks@.len() implies (
                        #[trigger] chunks.chunks@[s] matches Some(c) ==> c.xyz.triple()
                            == chunks.coords_at(s)) by {
                            assert(before.chunks@[s] matches Some(c) ==> c.xyz.triple()
                                == before.coords_at(s));
                        }
                    }
                }
            }
            proof {
                assert(entry_ticked(
                    &before,
                    chunks,
                    here,
                    recipes,
                    now,
                    plus,
                    minus,
                    greater,
                ));
                lemma_kept_same_places(before.chunks@, chunks.chunks@, Some(here));
                let ghost old_places = places;
                let ghost old_steps = steps;
                places = places.push(here);
                steps = steps.push(*chunks);
                assert forall|k: int| 0 <= k < places.len() implies entry_ticked(
                    &#[trigger] steps[k],
                    &steps[k + 1],
                    places[k],
                    recipes,
                    now,
                    plus,
                    minus,
                    greater,
                ) by {
                    if k < old_places.len() {
                        assert(entry_ticked(
                            &old_steps[k],
                            &old_steps[k + 1],
                            old_places[k],
                            recipes,
                            now,
                            plus,
                            minus,
                            greater,
                        ));
                    }
                }
                assert forall|slot: int, place: int| #[trigger]
                    is_entry(old(chunks).chunks@, (slot, place)) && ticks_before(
                        (slot, place),
                        (i as int, q + 1),
                    ) implies places.contains((slot, place)) by {
                    if (slot, place) == here {
                        assert(places[old_places.len() as int] == here);
                    } else {
                        assert(old_places.contains((slot, place)));
                        let k = choose|k: int|
                            0 <= k < old_places.len() && old_places[k] == (slot, place);
                        assert(places[k] == (slot, place));
                    }
                }
            }
            q += 1;
        }
        i += 1;
    }
    proof {
        assert(pass_ticked(
            old(chunks),
            chunks,
            places,
            steps,
            recipes,
            now,
            plus,
            minus,
            greater,
        ));
    }
    true
}

/// A grid whose special voxels have changed at two places only has its
/// special voxels at the places where they were.
pub proof fn lemma_kept_same_places(
    before: Seq<Option<Chunk>>,
    after: Seq<Option<Chunk>>,
    first: Option<(int, int)>,
)
    requires
        exists|second: Option<(int, int)>| grid_kept(before, after, first, second),
    ensures
        same_places(before, after),
{
    let second = choose|second: Option<(int, int)>| grid_kept(before, after, first, second);
    assert forall|i: int| 0 <= i < before.len() implies match #[trigger] before[i] {
        Some(chunk) => after[i] matches Some(kept) && kept.voxels_data@.len()
            == chunk.voxels_data@.len(),
        None => after[i] is None,
    } by {}
}

/// Where nothing has changed but what two special voxels carry, and
/// neither of them has become a machine that names an unknown recipe, every
/// machine still names only recipes of the catalog.
pub proof fn lemma_kept_data_wf(
    before: Seq<Option<Chunk>>,
    after: Seq<Option<Chunk>>,
    first: Option<(int, int)>,
    second: Option<(int, int)>,
    recipes: &Recipes,
)
    requires
        grid_kept(before, after, first, second),
        forall|i: int|
            0 <= i < before.len() ==> (#[trigger] before[i] matches Some(c) ==> c.data_wf(recipes)),
        first matches Some(place) ==> entry_at(after, place.0, place.1).wf(recipes),
        second matches Some(place) ==> entry_at(after, place.0, place.1).wf(recipes),
    ensures
        forall|i: int|
            0 <= i < after.len() ==> (#[trigger] after[i] matches Some(c) ==> c.data_wf(recipes)),
{
    assert forall|i: int| 0 <= i < after.len() implies (#[trigger] after[i] matches Some(c)
        ==> c.data_wf(recipes)) by {
        match before[i] {
            Some(chunk) => {
                let kept = after[i]->Some_0;
                assert(chunk.data_wf(recipes));
                assert forall|q: int| 0 <= q < kept.voxels_data@.len() implies (
                #[trigger] kept.voxels_data@[q]).wf(recipes) by {
                    let old_entry = chunk.voxels_data@[q];
                    assert(old_entry.wf(recipes));
                    if place_in(i, first) == Some(q) {
                        assert(first == Some((i, q)));
                    } else if place_in(i, second) == Some(q) {
                        assert(second == Some((i, q)));
                    }
                }
            },
            None => {},
        }
    }
}

} // verus!
