//! What a belt is, in mathematical terms, and the byte layout of a belt.

use vstd::prelude::*;
use crate::bytes::{
    i8_bits, i8_of_bits, lemma_i8_round_trip, lemma_slots_round_trip, lemma_u32_at_window,
    slots_at, slots_bytes, slots_ok, u32_at, u32_bytes, DecodeError,
};
use crate::recipes::item::{drawn, PossibleItem};

verus! {

/// Number of bytes of the header of an encoded belt: six progress numbers,
/// three direction bytes and one byte that fills the header to a multiple of
/// four.
pub const BELT_HEADER_SIZE: usize = 28;

/// Number of bytes of an encoded belt: the header and six slots.
pub const BELT_SIZE: usize = 82;

/// What a slot with room ahead gains in one tick: the bits of 0.1 in single
/// precision.
pub const STEP: u32 = 0x3dcc_cccd;

/// How far a slot stays behind the slot ahead of it: the bits of 0.33.
pub const SPACING: u32 = 0x3ea8_f5c3;

/// The progress beyond which a lead item leaves the belt: the bits of 1.0.
pub const END: u32 = 0x3f80_0000;

/// The middle of the belt, where items are taken from first: the bits of
/// 0.5.
pub const MIDDLE: u32 = 0x3f00_0000;

/// A belt as its three sequences.
pub struct BeltView {
    pub progress: Seq<u32>,
    pub direction: Seq<i8>,
    pub storage: Seq<PossibleItem>,
}

/// The first empty slot among the slots `from .. to`.
pub open spec fn first_empty(slots: Seq<PossibleItem>, from: int, to: int) -> Option<int>
    decreases to - from,
{
    if from >= to {
        None
    } else if slots[from].0 is None {
        Some(from)
    } else {
        first_empty(slots, from + 1, to)
    }
}

/// Whether slot `i` gives anything when up to `max_count` items are drawn
/// from it.
pub open spec fn gives(slots: Seq<PossibleItem>, max_count: u32, i: int) -> bool {
    drawn(slots[i].0, max_count).1 is Some
}

/// Slot `i` goes before slot `j`: it is nearer, or as near and lower in
/// index.
pub open spec fn precedes(distances: Seq<u32>, i: int, j: int) -> bool {
    distances[i] < distances[j] || (distances[i] == distances[j] && i < j)
}

/// Slot `i` stands somewhere in `order`.
pub open spec fn lists(order: Seq<usize>, i: int) -> bool {
    exists|p: int| 0 <= p < order.len() && #[trigger] order[p] == i
}

/// `order` lists every slot once, each before the slots that it precedes.
pub open spec fn nearest_first(distances: Seq<u32>, order: Seq<usize>) -> bool {
    &&& order.len() == distances.len()
    &&& forall|p: int| 0 <= p < order.len() ==> 0 <= #[trigger] order[p] < distances.len()
    &&& forall|i: int| 0 <= i < distances.len() ==> #[trigger] lists(order, i)
    &&& forall|p: int, q: int|
        0 <= p < q < order.len() ==> precedes(
            distances,
            #[trigger] order[p] as int,
            #[trigger] order[q] as int,
        )
}

/// Slot `index` gives something, and goes before every other slot that
/// does.
pub open spec fn nearest_giver(
    slots: Seq<PossibleItem>,
    distances: Seq<u32>,
    max_count: u32,
    index: int,
) -> bool {
    &&& 0 <= index < 6
    &&& gives(slots, max_count, index)
    &&& forall|j: int|
        0 <= j < 6 && j != index && #[trigger] gives(slots, max_count, j) ==> precedes(
            distances,
            index,
            j,
        )
}

/// The header of an encoded belt.
pub open spec fn belt_header(belt: BeltView) -> Seq<u8> {
    u32_bytes(belt.progress[0]) + u32_bytes(belt.progress[1]) + u32_bytes(belt.progress[2])
        + u32_bytes(belt.progress[3]) + u32_bytes(belt.progress[4]) + u32_bytes(belt.progress[5])
        + seq![
        i8_bits(belt.direction[0]),
        i8_bits(belt.direction[1]),
        i8_bits(belt.direction[2]),
        0u8,
    ]
}

/// The bytes of a belt: the header, then the six slots.
pub open spec fn belt_bytes(belt: BeltView) -> Seq<u8> {
    belt_header(belt) + slots_bytes(belt.storage)
}

/// The belt that `bytes` holds, or the first fault that stops the reading:
/// a buffer that ends before the last slot, then a slot without a tag. The
/// fill byte of the header and bytes after the slots are not looked at.
pub open spec fn decode_belt(bytes: Seq<u8>) -> Result<BeltView, DecodeError> {
    if bytes.len() < 82 {
        Err(DecodeError::UnexpectedEnd)
    } else if !slots_ok(bytes, 28, 6) {
        Err(DecodeError::BadSlotTag)
    } else {
        Ok(
            BeltView {
                progress: Seq::new(6, |i: int| u32_at(bytes, 4 * i)),
                direction: Seq::new(3, |i: int| i8_of_bits(bytes[24 + i])),
                storage: slots_at(bytes, 28, 6),
            },
        )
    }
}

/// A belt that is written and read again is the belt that was written.
pub proof fn lemma_belt_round_trip(belt: BeltView)
    requires
        belt.progress.len() == 6,
        belt.direction.len() == 3,
        belt.storage.len() == 6,
    ensures
        decode_belt(belt_bytes(belt)) == Ok::<BeltView, DecodeError>(belt),
{
    let bytes = belt_bytes(belt);
    assert(slots_bytes(belt.storage).len() == 54);
    assert(bytes.subrange(28, 82) =~= slots_bytes(belt.storage));
    lemma_slots_round_trip(bytes, 28, belt.storage);
    let read = decode_belt(bytes)->Ok_0;
    assert forall|i: int| 0 <= i < 6 implies read.progress[i] == belt.progress[i] by {
        assert(bytes.subrange(4 * i, 4 * i + 4) =~= u32_bytes(belt.progress[i]));
        lemma_u32_at_window(bytes, 4 * i, belt.progress[i]);
    }
    assert forall|i: int| 0 <= i < 3 implies read.direction[i] == belt.direction[i] by {
        lemma_i8_round_trip(belt.direction[i]);
        assert(bytes[24 + i] == i8_bits(belt.direction[i]));
    }
    assert(read.progress =~= belt.progress);
    assert(read.direction =~= belt.direction);
}

/// The byte of a direction step.
pub fn write_direction(step: i8) -> (byte: u8)
    ensures
        byte == i8_bits(step),
{
    let byte: u8 = step as u8;
    assert(byte == i8_bits(step)) by (bit_vector)
        requires
            byte == step as u8,
    ;
    byte
}

/// The direction step of a byte.
pub fn read_direction(byte: u8) -> (step: i8)
    ensures
        step == i8_of_bits(byte),
{
    let step: i8 = byte as i8;
    assert(step == i8_of_bits(byte)) by (bit_vector)
        requires
            step == byte as i8,
    ;
    step
}

} // verus!
