//! The byte layout shared by every kind of per-voxel state: fixed-width
//! fields in little-endian order, item slots of a fixed size, and the errors
//! that decoding can meet.

use vstd::prelude::*;
use crate::recipes::item::{Item, PossibleItem};
use crate::world::global_coords::GlobalCoords;

verus! {

/// Number of bytes of an encoded item slot: a tag, the item id, the count.
pub const SLOT_SIZE: usize = 9;

/// Why a buffer could not be decoded.
#[derive(Debug, Clone, Copy, PartialEq, Eq, Structural)]
pub enum DecodeError {
    /// The buffer ends before the header or before a section that the
    /// header declares.
    UnexpectedEnd,
    /// The storage section does not have the length of the slot array.
    BadStorageLength,
    /// The structure section is not a whole number of positions.
    BadStructureLength,
    /// A recipe id names no recipe of the catalog.
    UnknownRecipe,
    /// A slot starts with a tag that is neither "empty" nor "item".
    BadSlotTag,
}

/// The four bytes of `x`, lowest first.
pub open spec fn u32_bytes(x: u32) -> Seq<u8> {
    seq![
        (x % 256) as u8,
        ((x / 256) % 256) as u8,
        ((x / 65536) % 256) as u8,
        (x / 16777216) as u8,
    ]
}

/// The number whose four bytes, lowest first, stand at `at`.
pub open spec fn u32_at(bytes: Seq<u8>, at: int) -> u32 {
    (bytes[at] + 256 * bytes[at + 1] + 65536 * bytes[at + 2] + 16777216 * bytes[at + 3]) as u32
}

/// The 32 bits of `x` in two's complement, as an unsigned number.
pub open spec fn i32_bits(x: i32) -> u32 {
    if x >= 0 {
        x as u32
    } else {
        (x + 0x1_0000_0000) as u32
    }
}

/// The signed number whose 32 bits in two's complement are `bits`.
pub open spec fn i32_of_bits(bits: u32) -> i32 {
    if bits < 0x8000_0000 {
        bits as i32
    } else {
        (bits - 0x1_0000_0000) as i32
    }
}

/// The 8 bits of `x` in two's complement, as an unsigned number.
pub open spec fn i8_bits(x: i8) -> u8 {
    if x >= 0 {
        x as u8
    } else {
        (x + 256) as u8
    }
}

/// The signed number whose 8 bits in two's complement are `bits`.
pub open spec fn i8_of_bits(bits: u8) -> i8 {
    if bits < 128 {
        bits as i8
    } else {
        (bits - 256) as i8
    }
}

/// The nine bytes of a slot: tag 0 and eight zero bytes for an empty slot,
/// tag 1, the item id and the count for a slot with items.
pub open spec fn slot_bytes(slot: PossibleItem) -> Seq<u8> {
    match slot.0 {
        None => seq![0u8, 0u8, 0u8, 0u8, 0u8, 0u8, 0u8, 0u8, 0u8],
        Some(item) => seq![1u8] + u32_bytes(item.item_id) + u32_bytes(item.count),
    }
}

/// The bytes of a slot array: the slots one after the other.
pub open spec fn slots_bytes(slots: Seq<PossibleItem>) -> Seq<u8> {
    Seq::new(slots.len() * 9, |k: int| slot_bytes(slots[k / 9])[k % 9])
}

/// Whether a slot can be read at `at`: the tag there is 0 or 1.
pub open spec fn slot_tag_ok(bytes: Seq<u8>, at: int) -> bool {
    bytes[at] <= 1
}

/// The slot whose nine bytes stand at `at`. The bytes that follow the tag of
/// an empty slot are not looked at.
pub open spec fn slot_at(bytes: Seq<u8>, at: int) -> PossibleItem {
    if bytes[at] == 0 {
        PossibleItem(None)
    } else {
        PossibleItem(Some(Item { item_id: u32_at(bytes, at + 1), count: u32_at(bytes, at + 5) }))
    }
}

/// Whether `n` slots can be read from `at` on.
pub open spec fn slots_ok(bytes: Seq<u8>, at: int, n: int) -> bool {
    forall|i: int| 0 <= i < n ==> #[trigger] slot_tag_ok(bytes, at + 9 * i)
}

/// The `n` slots whose bytes stand from `at` on.
pub open spec fn slots_at(bytes: Seq<u8>, at: int, n: nat) -> Seq<PossibleItem> {
    Seq::new(n, |i: int| slot_at(bytes, at + 9 * i))
}

/// The twelve bytes of a position: x, y and z.
pub open spec fn coords_bytes(coords: GlobalCoords) -> Seq<u8> {
    u32_bytes(i32_bits(coords.0)) + u32_bytes(i32_bits(coords.1)) + u32_bytes(i32_bits(coords.2))
}

/// The bytes of a list of positions: the positions one after the other.
pub open spec fn coords_list_bytes(list: Seq<GlobalCoords>) -> Seq<u8> {
    Seq::new(list.len() * 12, |k: int| coords_bytes(list[k / 12])[k % 12])
}

/// The position whose twelve bytes stand at `at`.
pub open spec fn coords_at(bytes: Seq<u8>, at: int) -> GlobalCoords {
    GlobalCoords(
        i32_of_bits(u32_at(bytes, at)),
        i32_of_bits(u32_at(bytes, at + 4)),
        i32_of_bits(u32_at(bytes, at + 8)),
    )
}

/// The `n` positions whose bytes stand from `at` on.
pub open spec fn coords_list_at(bytes: Seq<u8>, at: int, n: nat) -> Seq<GlobalCoords> {
    Seq::new(n, |i: int| coords_at(bytes, at + 12 * i))
}

/// Reading the four bytes of a number gives the number back.
pub proof fn lemma_u32_round_trip(x: u32)
    ensures
        u32_bytes(x).len() == 4,
        u32_at(u32_bytes(x), 0) == x,
{
}

/// Reading a number depends on its four bytes alone.
pub proof fn lemma_u32_at_window(bytes: Seq<u8>, at: int, x: u32)
    requires
        0 <= at,
        at + 4 <= bytes.len(),
        bytes.subrange(at, at + 4) == u32_bytes(x),
    ensures
        u32_at(bytes, at) == x,
{
    let w = bytes.subrange(at, at + 4);
    assert(w[0] == bytes[at] && w[1] == bytes[at + 1] && w[2] == bytes[at + 2] && w[3] == bytes[at
        + 3]);
    lemma_u32_round_trip(x);
}

/// The bits of a signed byte lead back to it.
pub proof fn lemma_i8_round_trip(x: i8)
    ensures
        i8_of_bits(i8_bits(x)) == x,
{
}

/// Appends the four bytes of `x`, lowest first.
pub fn push_u32(out: &mut Vec<u8>, x: u32)
    ensures
        final(out)@ == old(out)@ + u32_bytes(x),
{
    out.push((x % 256) as u8);
    out.push(((x / 256) % 256) as u8);
    out.push(((x / 65536) % 256) as u8);
    out.push((x / 16777216) as u8);
    assert(out@ =~= old(out)@ + u32_bytes(x));
}

/// Appends the four bytes of `x` in two's complement, lowest first.
pub fn push_i32(out: &mut Vec<u8>, x: i32)
    ensures
        final(out)@ == old(out)@ + u32_bytes(i32_bits(x)),
{
    let bits: u32 = x as u32;
    assert(bits == i32_bits(x)) by (bit_vector)
        requires
            bits == x as u32,
    ;
    push_u32(out, bits);
}

/// Reads the number whose four bytes stand at `at`.
pub fn read_u32(bytes: &[u8], at: usize) -> (x: u32)
    requires
        at + 4 <= bytes.len(),
    ensures
        x == u32_at(bytes@, at as int),
{
    let b0: u32 = bytes[at] as u32;
    let b1: u32 = bytes[at + 1] as u32;
    let b2: u32 = bytes[at + 2] as u32;
    let b3: u32 = bytes[at + 3] as u32;
    b0 + 256 * b1 + 65536 * b2 + 16777216 * b3
}

/// Reads the signed number whose four bytes stand at `at`.
pub fn read_i32(bytes: &[u8], at: usize) -> (x: i32)
    requires
        at + 4 <= bytes.len(),
    ensures
        x == i32_of_bits(u32_at(bytes@, at as int)),
{
    let bits = read_u32(bytes, at);
    let x: i32 = bits as i32;
    assert(x == i32_of_bits(bits)) by (bit_vector)
        requires
            x == bits as i32,
    ;
    x
}

/// Appends the nine bytes of a slot.
pub fn push_slot(out: &mut Vec<u8>, slot: &PossibleItem)
    ensures
        final(out)@ == old(out)@ + slot_bytes(*slot),
{
    match slot.0 {
        None => {
            let mut i: usize = 0;
            while i < SLOT_SIZE
                invariant
                    0 <= i <= 9,
                    out@ == old(out)@ + Seq::new(i as nat, |k: int| 0u8),
                decreases 9 - i,
            {
                out.push(0);
                assert(out@ =~= old(out)@ + Seq::new((i + 1) as nat, |k: int| 0u8));
                i += 1;
            }
            assert(out@ =~= old(out)@ + slot_bytes(*slot));
        },
        Some(item) => {
            out.push(1);
            push_u32(out, item.item_id);
            push_u32(out, item.count);
            assert(out@ =~= old(out)@ + slot_bytes(*slot));
        },
    }
}

/// Appends the bytes of a slot array.
pub fn push_slots(out: &mut Vec<u8>, slots: &[PossibleItem])
    requires
        slots@.len() * 9 <= usize::MAX,
    ensures
        final(out)@ == old(out)@ + slots_bytes(slots@),
{
    let mut i: usize = 0;
    while i < slots.len()
        invariant
            0 <= i <= slots@.len(),
            out@ == old(out)@ + slots_bytes(slots@.subrange(0, i as int)),
        decreases slots@.len() - i,
    {
        let ghost before = out@;
        push_slot(out, &slots[i]);
        proof {
            let head = slots@.subrange(0, i as int);
            let more = slots@.subrange(0, i + 1);
            assert(slots_bytes(more) =~= slots_bytes(head) + slot_bytes(slots@[i as int]));
            assert(out@ =~= old(out)@ + slots_bytes(more));
        }
        i += 1;
    }
    assert(slots@.subrange(0, slots@.len() as int) =~= slots@);
}

/// Reads the slot whose nine bytes stand at `at`.
pub fn read_slot(bytes: &[u8], at: usize) -> (slot: Result<PossibleItem, DecodeError>)
    requires
        at + 9 <= bytes.len(),
    ensures
        slot == if slot_tag_ok(bytes@, at as int) {
            Ok::<PossibleItem, DecodeError>(slot_at(bytes@, at as int))
        } else {
            Err(DecodeError::BadSlotTag)
        },
{
    let tag = bytes[at];
    if tag == 0 {
        Ok(PossibleItem(None))
    } else if tag == 1 {
        Ok(PossibleItem(Some(Item::new(read_u32(bytes, at + 1), read_u32(bytes, at + 5)))))
    } else {
        Err(DecodeError::BadSlotTag)
    }
}

/// Appends the twelve bytes of a position.
pub fn push_coords(out: &mut Vec<u8>, coords: &GlobalCoords)
    ensures
        final(out)@ == old(out)@ + coords_bytes(*coords),
{
    push_i32(out, coords.0);
    push_i32(out, coords.1);
    push_i32(out, coords.2);
    assert(out@ =~= old(out)@ + coords_bytes(*coords));
}

/// Appends the bytes of a list of positions.
pub fn push_coords_list(out: &mut Vec<u8>, list: &[GlobalCoords])
    ensures
        final(out)@ == old(out)@ + coords_list_bytes(list@),
{
    let mut i: usize = 0;
    while i < list.len()
        invariant
            0 <= i <= list@.len(),
            out@ == old(out)@ + coords_list_bytes(list@.subrange(0, i as int)),
        decreases list@.len() - i,
    {
        push_coords(out, &list[i]);
        proof {
            let head = list@.subrange(0, i as int);
            let more = list@.subrange(0, i + 1);
            assert(coords_list_bytes(more) =~= coords_list_bytes(head) + coords_bytes(
                list@[i as int],
            ));
            assert(out@ =~= old(out)@ + coords_list_bytes(more));
        }
        i += 1;
    }
    assert(list@.subrange(0, list@.len() as int) =~= list@);
}

/// Reads the position whose twelve bytes stand at `at`.
pub fn read_coords(bytes: &[u8], at: usize) -> (coords: GlobalCoords)
    requires
        at + 12 <= bytes.len(),
    ensures
        coords == coords_at(bytes@, at as int),
{
    GlobalCoords(read_i32(bytes, at), read_i32(bytes, at + 4), read_i32(bytes, at + 8))
}

/// Reads the `n` positions whose bytes stand from `at` on.
pub fn read_coords_list(bytes: &[u8], at: usize, n: usize) -> (list: Vec<GlobalCoords>)
    requires
        at + 12 * n <= bytes.len(),
    ensures
        list@ == coords_list_at(bytes@, at as int, n as nat),
{
    let mut list: Vec<GlobalCoords> = Vec::new();
    let mut i: usize = 0;
    while i < n
        invariant
            0 <= i <= n,
            at + 12 * n <= bytes.len(),
            list@ == coords_list_at(bytes@, at as int, i as nat),
        decreases n - i,
    {
        list.push(read_coords(bytes, at + 12 * i));
        assert(list@ =~= coords_list_at(bytes@, at as int, (i + 1) as nat));
        i += 1;
    }
    list
}

/// A slot whose nine bytes stand at `at` is read back from there.
pub proof fn lemma_slot_round_trip(bytes: Seq<u8>, at: int, slot: PossibleItem)
    requires
        0 <= at,
        at + 9 <= bytes.len(),
        bytes.subrange(at, at + 9) == slot_bytes(slot),
    ensures
        slot_tag_ok(bytes, at),
        slot_at(bytes, at) == slot,
{
    let w = bytes.subrange(at, at + 9);
    assert(w[0] == bytes[at]);
    match slot.0 {
        None => {},
        Some(item) => {
            assert(bytes.subrange(at + 1, at + 5) =~= w.subrange(1, 5));
            assert(w.subrange(1, 5) =~= u32_bytes(item.item_id));
            assert(bytes.subrange(at + 5, at + 9) =~= w.subrange(5, 9));
            assert(w.subrange(5, 9) =~= u32_bytes(item.count));
            lemma_u32_at_window(bytes, at + 1, item.item_id);
            lemma_u32_at_window(bytes, at + 5, item.count);
        },
    }
}

/// Slot `i` of a slot array whose bytes stand from `at` on is read back from
/// its place.
proof fn lemma_slot_in_array(bytes: Seq<u8>, at: int, slots: Seq<PossibleItem>, i: int)
    requires
        0 <= at,
        at + 9 * slots.len() <= bytes.len(),
        bytes.subrange(at, at + 9 * slots.len()) == slots_bytes(slots),
        0 <= i < slots.len(),
    ensures
        slot_tag_ok(bytes, at + 9 * i),
        slot_at(bytes, at + 9 * i) == slots[i],
{
    let all = bytes.subrange(at, at + 9 * slots.len());
    assert forall|j: int| 0 <= j < 9 implies bytes.subrange(at + 9 * i, at + 9 * i + 9)[j]
        == slot_bytes(slots[i])[j] by {
        assert(bytes[at + 9 * i + j] == all[9 * i + j]);
        assert((9 * i + j) / 9 == i && (9 * i + j) % 9 == j);
    }
    assert(slot_bytes(slots[i]).len() == 9);
    assert(bytes.subrange(at + 9 * i, at + 9 * i + 9) =~= slot_bytes(slots[i]));
    lemma_slot_round_trip(bytes, at + 9 * i, slots[i]);
}

/// A slot array whose bytes stand from `at` on is read back from there.
pub proof fn lemma_slots_round_trip(bytes: Seq<u8>, at: int, slots: Seq<PossibleItem>)
    requires
        0 <= at,
        at + 9 * slots.len() <= bytes.len(),
        bytes.subrange(at, at + 9 * slots.len()) == slots_bytes(slots),
    ensures
        slots_ok(bytes, at, slots.len() as int),
        slots_at(bytes, at, slots.len()) == slots,
{
    assert forall|i: int| 0 <= i < slots.len() implies #[trigger] slot_tag_ok(bytes, at + 9 * i) by {
        lemma_slot_in_array(bytes, at, slots, i);
    }
    assert forall|i: int| 0 <= i < slots.len() implies slots_at(bytes, at, slots.len())[i]
        == slots[i] by {
        lemma_slot_in_array(bytes, at, slots, i);
    }
    assert(slots_at(bytes, at, slots.len()) =~= slots);
}

/// A position whose twelve bytes stand at `at` is read back from there.
pub proof fn lemma_coords_round_trip(bytes: Seq<u8>, at: int, coords: GlobalCoords)
    requires
        0 <= at,
        at + 12 <= bytes.len(),
        bytes.subrange(at, at + 12) == coords_bytes(coords),
    ensures
        coords_at(bytes, at) == coords,
{
    let w = bytes.subrange(at, at + 12);
    assert(bytes.subrange(at, at + 4) =~= w.subrange(0, 4));
    assert(w.subrange(0, 4) =~= u32_bytes(i32_bits(coords.0)));
    assert(bytes.subrange(at + 4, at + 8) =~= w.subrange(4, 8));
    assert(w.subrange(4, 8) =~= u32_bytes(i32_bits(coords.1)));
    assert(bytes.subrange(at + 8, at + 12) =~= w.subrange(8, 12));
    assert(w.subrange(8, 12) =~= u32_bytes(i32_bits(coords.2)));
    lemma_u32_at_window(bytes, at, i32_bits(coords.0));
    lemma_u32_at_window(bytes, at + 4, i32_bits(coords.1));
    lemma_u32_at_window(bytes, at + 8, i32_bits(coords.2));
}

/// A list of positions whose bytes stand from `at` on is read back from
/// there.
pub proof fn lemma_coords_list_round_trip(bytes: Seq<u8>, at: int, list: Seq<GlobalCoords>)
    requires
        0 <= at,
        at + 12 * list.len() <= bytes.len(),
        bytes.subrange(at, at + 12 * list.len()) == coords_list_bytes(list),
    ensures
        coords_list_at(bytes, at, list.len()) == list,
{
    let all = bytes.subrange(at, at + 12 * list.len());
    assert forall|i: int| 0 <= i < list.len() implies coords_list_at(bytes, at, list.len())[i]
        == list[i] by {
        assert forall|j: int| 0 <= j < 12 implies bytes.subrange(at + 12 * i, at + 12 * i + 12)[j]
            == coords_bytes(list[i])[j] by {
            assert(bytes[at + 12 * i + j] == all[12 * i + j]);
            assert((12 * i + j) / 12 == i && (12 * i + j) % 12 == j);
        }
        assert(coords_bytes(list[i]).len() == 12);
        assert(bytes.subrange(at + 12 * i, at + 12 * i + 12) =~= coords_bytes(list[i]));
        lemma_coords_round_trip(bytes, at + 12 * i, list[i]);
    }
    assert(coords_list_at(bytes, at, list.len()) =~= list);
}

} // verus!
