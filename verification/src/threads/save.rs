use vstd::prelude::*;
use crate::voxels::chunk::Chunk;
use crate::voxels::chunks::Chunks;

verus! {

/// What the save thread was last told, or has last done.
#[derive(Debug, Clone, Copy, PartialEq, Eq, PartialOrd, Ord, Structural)]
pub enum SaveState {
    /// The world has changes that are not saved.
    Unsaved,
    /// A save pass has run since the last signal.
    Saved,
    /// The world is closing: run one last pass and end.
    WorldExit,
}

impl SaveState {
    /// The state after a save pass that was woken in this state: nothing
    /// after `WorldExit`, where the save thread ends, else `Saved`.
    pub fn after_pass(self) -> (next: Option<SaveState>)
        ensures
            next == (if self == SaveState::WorldExit {
                None
            } else {
                Some(SaveState::Saved)
            }),
    {
        match self {
            SaveState::WorldExit => None,
            _ => Some(SaveState::Saved),
        }
    }
}

/// What the save thread has to do next.
#[derive(Debug, Clone, Copy, PartialEq, Eq, Structural)]
pub enum SaveAction {
    /// Hand the chunk at this place of the deletion queue to the region
    /// store.
    SaveEvicted(usize),
    /// Hand the chunk in this slot of the grid to the region store.
    SaveLive(usize),
    /// Have the region store write out what it holds.
    FlushRegions,
    /// The pass is over.
    Done,
}

/// How far a save pass has come.
#[derive(Debug, Clone, Copy, PartialEq, Eq, Structural)]
pub enum SaveStage {
    /// The chunks of the deletion queue before place `next` were handed
    /// out.
    Evicted { next: usize },
    /// The deletion queue is done with. The slots before `next` were looked
    /// at, and the chunk in slot `saving`, if any, was handed out by the
    /// last step.
    Live { next: usize, saving: Option<usize> },
    /// The region store was told to write out.
    Finished,
}

/// The first slot from `from` on that holds a chunk with unsaved changes.
pub open spec fn first_unsaved(chunks: Seq<Option<Chunk>>, from: int) -> Option<int>
    decreases chunks.len() - from,
{
    if from >= chunks.len() {
        None
    } else if chunks[from] matches Some(c) && c.unsaved {
        Some(from)
    } else {
        first_unsaved(chunks, from + 1)
    }
}

/// The chunks after the chunk in slot `saving` was saved: its flag is
/// cleared. Nothing changes where the slot is empty or is no slot.
pub open spec fn saved_at(chunks: Seq<Option<Chunk>>, saving: Option<usize>) -> Seq<Option<Chunk>> {
    match saving {
        Some(index) => if index < chunks.len() {
            match chunks[index as int] {
                Some(c) => chunks.update(index as int, Some(Chunk { unsaved: false, ..c })),
                None => chunks,
            }
        } else {
            chunks
        },
        None => chunks,
    }
}

/// The step that the live sweep takes from slot `next` on: the next chunk
/// with unsaved changes is handed out, and after the last one the region
/// store is told to write out.
pub open spec fn live_step(chunks: Seq<Option<Chunk>>, next: int) -> (SaveStage, SaveAction) {
    match first_unsaved(chunks, next) {
        Some(index) => (
            SaveStage::Live { next: (index + 1) as usize, saving: Some(index as usize) },
            SaveAction::SaveLive(index as usize),
        ),
        None => (SaveStage::Finished, SaveAction::FlushRegions),
    }
}

/// One step of a save pass: the stage, the slots of the grid and the deletion
/// queue after the step, and the action that the step names.
///
/// While places of the deletion queue are left, the next one is handed out.
/// After the last, the queue is emptied and the sweep over the slots begins.
/// A step of the sweep first clears the flag of the chunk that the step
/// before it handed out. A finished pass names no more actions.
pub open spec fn next_step(stage: SaveStage, chunks: Seq<Option<Chunk>>, queue: Seq<Chunk>) -> (
    SaveStage,
    Seq<Option<Chunk>>,
    Seq<Chunk>,
    SaveAction,
) {
    match stage {
        SaveStage::Evicted { next } => if next < queue.len() {
            (
                SaveStage::Evicted { next: (next + 1) as usize },
                chunks,
                queue,
                SaveAction::SaveEvicted(next),
            )
        } else {
            let (stage, action) = live_step(chunks, 0);
            (stage, chunks, Seq::empty(), action)
        },
        SaveStage::Live { next, saving } => {
            let chunks = saved_at(chunks, saving);
            let (stage, action) = live_step(chunks, next as int);
            (stage, chunks, queue, action)
        },
        SaveStage::Finished => (stage, chunks, queue, SaveAction::Done),
    }
}

/// Slot `i` holds a chunk with unsaved changes.
pub open spec fn is_unsaved(chunks: Seq<Option<Chunk>>, i: int) -> bool {
    chunks[i] matches Some(c) && c.unsaved
}

/// What holds between the steps of a pass that nothing else disturbs. While
/// the deletion queue is handed out, no place beyond its end was. During the
/// sweep the queue is empty, and no slot behind the sweep holds unsaved
/// changes but the one handed out last. After the pass the queue is empty
/// and no slot holds unsaved changes.
pub open spec fn in_order(stage: SaveStage, chunks: Seq<Option<Chunk>>, queue: Seq<Chunk>) -> bool {
    match stage {
        SaveStage::Evicted { next } => next <= queue.len(),
        SaveStage::Live { next, saving } => {
            &&& queue.len() == 0
            &&& next <= chunks.len()
            &&& saving matches Some(index) ==> index < next
            &&& forall|i: int|
                0 <= i < next && saving != Some(i as usize) ==> !#[trigger] is_unsaved(chunks, i)
        },
        SaveStage::Finished => {
            &&& queue.len() == 0
            &&& forall|i: int| 0 <= i < chunks.len() ==> !#[trigger] is_unsaved(chunks, i)
        },
    }
}

/// Number of steps that a pass has yet to take, at most.
pub open spec fn steps_left(stage: SaveStage, chunks: Seq<Option<Chunk>>, queue: Seq<Chunk>) -> int {
    match stage {
        SaveStage::Evicted { next } => (if next <= queue.len() {
            queue.len() - next
        } else {
            0
        }) + chunks.len() + 2,
        SaveStage::Live { next, saving } => (if next <= chunks.len() {
            chunks.len() - next
        } else {
            0
        }) + 1,
        SaveStage::Finished => 0,
    }
}

/// The first slot with unsaved changes from `from` on is such a slot, and no
/// slot between `from` and it is; where there is none, no slot from `from`
/// on has unsaved changes.
pub proof fn lemma_first_unsaved(chunks: Seq<Option<Chunk>>, from: int)
    requires
        0 <= from,
    ensures
        match first_unsaved(chunks, from) {
            Some(index) => {
                &&& from <= index < chunks.len()
                &&& is_unsaved(chunks, index)
                &&& forall|i: int| from <= i < index ==> !#[trigger] is_unsaved(chunks, i)
            },
            None => forall|i: int| from <= i < chunks.len() ==> !#[trigger] is_unsaved(chunks, i),
        },
    decreases chunks.len() - from,
{
    if from < chunks.len() && !is_unsaved(chunks, from) {
        lemma_first_unsaved(chunks, from + 1);
    }
}

/// A step keeps the order of the pass: the deletion queue is emptied before
/// the first loaded chunk is handed out, and a pass that has finished has
/// left the queue empty and no chunk with unsaved changes.
pub proof fn lemma_step_keeps_order(stage: SaveStage, chunks: Seq<Option<Chunk>>, queue: Seq<Chunk>)
    requires
        chunks.len() <= usize::MAX,
        queue.len() <= usize::MAX,
        in_order(stage, chunks, queue),
    ensures
        ({
            let (stage2, chunks2, queue2, action) = next_step(stage, chunks, queue);
            &&& in_order(stage2, chunks2, queue2)
            &&& action is SaveLive ==> queue2.len() == 0
            &&& action is SaveEvicted ==> action->SaveEvicted_0 < queue.len() && queue2 == queue
        }),
{
    let (stage2, chunks2, queue2, action) = next_step(stage, chunks, queue);
    match stage {
        SaveStage::Evicted { next } => {
            lemma_first_unsaved(chunks, 0);
        },
        SaveStage::Live { next, saving } => {
            lemma_first_unsaved(chunks2, next as int);
            assert forall|i: int| 0 <= i < next implies !#[trigger] is_unsaved(chunks2, i) by {
                if saving != Some(i as usize) {
                    assert(!is_unsaved(chunks, i));
                }
            }
        },
        SaveStage::Finished => {},
    }
}

/// Every step of a pass that has not finished brings the pass nearer to its
/// end.
pub proof fn lemma_step_makes_progress(stage: SaveStage, chunks: Seq<Option<Chunk>>, queue: Seq<Chunk>)
    requires
        chunks.len() <= usize::MAX,
        queue.len() <= usize::MAX,
        stage != SaveStage::Finished,
    ensures
        ({
            let (stage2, chunks2, queue2, action) = next_step(stage, chunks, queue);
            0 <= steps_left(stage2, chunks2, queue2) < steps_left(stage, chunks, queue)
        }),
{
    let (stage2, chunks2, queue2, action) = next_step(stage, chunks, queue);
    match stage {
        SaveStage::Evicted { next } => {
            lemma_first_unsaved(chunks, 0);
        },
        SaveStage::Live { next, saving } => {
            lemma_first_unsaved(chunks2, next as int);
            assert(chunks2.len() == chunks.len());
        },
        SaveStage::Finished => {},
    }
}

/// A pass run step by step from `stage` until it has finished, or for
/// `fuel` steps at most: the actions that the steps name, in order, and the
/// stage, the slots and the deletion queue at the end. Every action is taken
/// as done before the next step.
pub open spec fn pass_run(
    stage: SaveStage,
    chunks: Seq<Option<Chunk>>,
    queue: Seq<Chunk>,
    fuel: nat,
) -> (Seq<SaveAction>, SaveStage, Seq<Option<Chunk>>, Seq<Chunk>)
    decreases fuel,
{
    if fuel == 0 || stage == SaveStage::Finished {
        (Seq::empty(), stage, chunks, queue)
    } else {
        let (stage2, chunks2, queue2, action) = next_step(stage, chunks, queue);
        let (actions, last, chunks3, queue3) = pass_run(stage2, chunks2, queue2, (fuel - 1) as nat);
        (seq![action] + actions, last, chunks3, queue3)
    }
}

/// No action hands out a chunk of the deletion queue.
pub open spec fn none_evicted(actions: Seq<SaveAction>) -> bool {
    forall|k: int| 0 <= k < actions.len() ==> !(#[trigger] actions[k] is SaveEvicted)
}

/// Every chunk of the deletion queue is handed out before the first loaded
/// chunk is.
pub open spec fn evicted_first(actions: Seq<SaveAction>) -> bool {
    forall|j: int, k: int|
        0 <= j < k < actions.len() && #[trigger] actions[j] is SaveLive ==> !(
        #[trigger] actions[k] is SaveEvicted)
}

/// A whole pass, given steps enough, ends: it has finished, the deletion
/// queue is empty, and no loaded chunk is left with unsaved changes.
pub proof fn lemma_pass_ends(
    stage: SaveStage,
    chunks: Seq<Option<Chunk>>,
    queue: Seq<Chunk>,
    fuel: nat,
)
    requires
        chunks.len() <= usize::MAX,
        queue.len() <= usize::MAX,
        in_order(stage, chunks, queue),
        fuel >= steps_left(stage, chunks, queue),
    ensures
        ({
            let (actions, last, left, rest) = pass_run(stage, chunks, queue, fuel);
            &&& last == SaveStage::Finished
            &&& rest.len() == 0
            &&& left.len() == chunks.len()
            &&& forall|i: int| 0 <= i < left.len() ==> !#[trigger] is_unsaved(left, i)
        }),
    decreases fuel,
{
    if stage != SaveStage::Finished {
        let (stage2, chunks2, queue2, action) = next_step(stage, chunks, queue);
        lemma_step_keeps_order(stage, chunks, queue);
        lemma_step_makes_progress(stage, chunks, queue);
        lemma_pass_ends(stage2, chunks2, queue2, (fuel - 1) as nat);
    }
}

/// Once the sweep over the loaded chunks has begun, no step hands out a
/// chunk of the deletion queue.
pub proof fn lemma_sweep_hands_out_no_evicted(
    stage: SaveStage,
    chunks: Seq<Option<Chunk>>,
    queue: Seq<Chunk>,
    fuel: nat,
)
    requires
        !(stage is Evicted),
    ensures
        none_evicted(pass_run(stage, chunks, queue, fuel).0),
    decreases fuel,
{
    if fuel > 0 && stage != SaveStage::Finished {
        let (stage2, chunks2, queue2, action) = next_step(stage, chunks, queue);
        lemma_sweep_hands_out_no_evicted(stage2, chunks2, queue2, (fuel - 1) as nat);
        let rest = pass_run(stage2, chunks2, queue2, (fuel - 1) as nat).0;
        let actions = pass_run(stage, chunks, queue, fuel).0;
        assert forall|k: int| 0 <= k < actions.len() implies !(#[trigger] actions[k] is SaveEvicted) by {
            if k > 0 {
                assert(actions[k] == rest[k - 1]);
            }
        }
    }
}

/// In a pass, whatever its length, the deletion queue is flushed before the
/// sweep over the loaded chunks: no chunk of the queue is handed out after a
/// loaded chunk was.
pub proof fn lemma_pass_flushes_queue_first(
    stage: SaveStage,
    chunks: Seq<Option<Chunk>>,
    queue: Seq<Chunk>,
    fuel: nat,
)
    ensures
        evicted_first(pass_run(stage, chunks, queue, fuel).0),
    decreases fuel,
{
    if fuel > 0 && stage != SaveStage::Finished {
        let (stage2, chunks2, queue2, action) = next_step(stage, chunks, queue);
        lemma_pass_flushes_queue_first(stage2, chunks2, queue2, (fuel - 1) as nat);
        let rest = pass_run(stage2, chunks2, queue2, (fuel - 1) as nat).0;
        let actions = pass_run(stage, chunks, queue, fuel).0;
        if action is SaveLive {
            lemma_sweep_hands_out_no_evicted(stage2, chunks2, queue2, (fuel - 1) as nat);
        }
        assert forall|j: int, k: int|
            0 <= j < k < actions.len() && #[trigger] actions[j] is SaveLive implies !(
        #[trigger] actions[k] is SaveEvicted) by {
            assert(actions[k] == rest[k - 1]);
            if j > 0 {
                assert(actions[j] == rest[j - 1]);
            }
        }
    }
}

/// One pass of the save thread over the world, as a sequence of steps. Each
/// step names one action; the caller performs it and, if it went well, asks
/// for the next step. The deletion queue comes first and is emptied once all
/// of it was handed out; the sweep over the loaded chunks comes second, so no
/// chunk is saved both as evicted and as loaded in one pass. The flag of a
/// loaded chunk is cleared by the step after the one that handed it out.
#[derive(Debug)]
pub struct SavePass {
    pub stage: SaveStage,
}

impl SavePass {
    /// A pass that has not begun.
    pub fn new() -> (pass: Self)
        ensures
            pass.stage == (SaveStage::Evicted { next: 0 }),
    {
        SavePass { stage: SaveStage::Evicted { next: 0 } }
    }

    /// Takes the last action as done and names the next one.
    #[verifier::loop_isolation(false)]
    pub fn step(&mut self, chunks: &mut Chunks) -> (action: SaveAction)
        requires
            old(chunks).wf(),
        ensures
            final(chunks).wf(),
            final(chunks).width == old(chunks).width,
            final(chunks).height == old(chunks).height,
            final(chunks).depth == old(chunks).depth,
            final(chunks).ox == old(chunks).ox,
            final(chunks).oz == old(chunks).oz,
            final(chunks).is_translate == old(chunks).is_translate,
            (
                final(self).stage,
                final(chunks).chunks@,
                final(chunks).chunks_awaiting_deletion@,
                action,
            ) == next_step(
                old(self).stage,
                old(chunks).chunks@,
                old(chunks).chunks_awaiting_deletion@,
            ),
    {
        let from: usize = match self.stage {
            SaveStage::Evicted { next } => {
                if next < chunks.chunks_awaiting_deletion.len() {
                    self.stage = SaveStage::Evicted { next: next + 1 };
                    return SaveAction::SaveEvicted(next);
                }
                chunks.chunks_awaiting_deletion.clear();
                0
            },
            SaveStage::Live { next, saving } => {
                if let Some(index) = saving {
                    chunks.mark_saved(index);
                }
                next
            },
            SaveStage::Finished => {
                return SaveAction::Done;
            },
        };
        let mut index: usize = from;
        while index < chunks.chunks.len()
            invariant
                from <= index,
                first_unsaved(chunks.chunks@, from as int) == first_unsaved(
                    chunks.chunks@,
                    index as int,
                ),
            decreases chunks.chunks@.len() - index,
        {
            let unsaved = match &chunks.chunks[index] {
                Some(chunk) => chunk.unsaved,
                None => false,
            };
            if unsaved {
                self.stage = SaveStage::Live { next: index + 1, saving: Some(index) };
                return SaveAction::SaveLive(index);
            }
            index += 1;
        }
        self.stage = SaveStage::Finished;
        SaveAction::FlushRegions
    }
}

} // verus!
