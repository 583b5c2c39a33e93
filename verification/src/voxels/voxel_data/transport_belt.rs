use vstd::prelude::*;
use itertools::Itertools;
use std::cmp::Ordering;
use crate::bytes::{
    push_slots, push_u32, read_slot, read_u32, slot_at, slot_tag_ok, u32_at, DecodeError,
};
use crate::recipes::item::{drawn, held_in, take_across, Item, PossibleItem};
use crate::recipes::storage;
use crate::voxels::voxel_data::belt_model::{
    belt_bytes, belt_header, decode_belt, first_empty, gives, lists, nearest_first,
    nearest_giver, precedes, read_direction, write_direction, BeltView, BELT_HEADER_SIZE,
    BELT_SIZE, END, MIDDLE, SPACING, STEP,
};

verus! {

/// One of the two lanes of a belt.
#[derive(Debug, Clone, Copy, PartialEq, Eq, Structural)]
pub enum TransportBeltSide {
    /// The lane of slots 0, 1 and 2.
    Left,
    /// The lane of slots 3, 4 and 5.
    Right,
}

/// A belt that carries items in two lanes of three slots towards the voxel
/// that its direction points to. Slot 0 leads the left lane and slot 3 the
/// right one.
#[derive(Debug)]
pub struct TransportBelt {
    /// How far each slot has come along the belt, as the 32 bits of a
    /// single-precision number; 0 stands for the start of the belt. The
    /// belt moves and stores these numbers and does no arithmetic on them.
    pub item_progress: [u32; 6],
    pub direction: [i8; 3],
    pub storage: [PossibleItem; 6],
}

impl View for TransportBelt {
    type V = BeltView;

    open spec fn view(&self) -> BeltView {
        BeltView {
            progress: self.item_progress@,
            direction: self.direction@,
            storage: self.storage@,
        }
    }
}

/// The order of two slots whose distances from the middle of the belt are
/// `a` and `b`.
pub fn by_distance(a: u32, b: u32) -> (order: Ordering)
    ensures
        order == (if a < b {
            Ordering::Less
        } else if a == b {
            Ordering::Equal
        } else {
            Ordering::Greater
        }),
{
    if a < b {
        Ordering::Less
    } else if a == b {
        Ordering::Equal
    } else {
        Ordering::Greater
    }
}

/// The six slots in the order of their distances, nearest first, slots of
/// one distance in slot order.
///
/// Calls `Itertools::sorted_by` on the numbered distances. Taken on trust:
/// that the call gives back every slot once, in rising order of distance,
/// and leaves slots of equal distance in the order in which they came.
#[verifier::external_body]
fn sorted_by_distance(distances: &[u32; 6]) -> (order: Vec<usize>)
    ensures
        nearest_first(distances@, order@),
{
    distances.iter().enumerate().sorted_by(|a, b| by_distance(*a.1, *b.1)).map(|entry| entry.0).collect()
}

impl TransportBelt {
    /// An empty belt that runs in `direction`, a step of -1, 0 or 1 on each
    /// axis.
    pub fn new(direction: [i8; 3]) -> (belt: Self)
        ensures
            belt.direction == direction,
            forall|i: int| 0 <= i < 6 ==> belt.storage@[i].0 is None,
            forall|i: int| 0 <= i < 6 ==> belt.item_progress@[i] == 0,
    {
        Self { storage: [PossibleItem::new_none(); 6], item_progress: [0; 6], direction }
    }

    /// The quarter turn that the belt is drawn with: 3 for falling x, else 0
    /// for rising z, 1 for falling z, and 2 for what is left.
    pub fn rotation_index(&self) -> (index: u32)
        ensures
            index == (if self.direction@[0] < 0 {
                3u32
            } else if self.direction@[2] > 0 {
                0u32
            } else if self.direction@[2] < 0 {
                1u32
            } else {
                2u32
            }),
    {
        if self.direction[0] < 0 {
            return 3;
        }
        if self.direction[2] > 0 {
            return 0;
        }
        if self.direction[2] < 0 {
            return 1;
        }
        2
    }

    /// Puts the whole of `item` into the first empty slot of a lane. Returns
    /// nothing if a slot took it, and the item if the lane is full.
    pub fn put(&mut self, item: &Item, side: TransportBeltSide) -> (remainder: Option<Item>)
        ensures
            final(self).item_progress == old(self).item_progress,
            final(self).direction == old(self).direction,
            match first_empty(old(self).storage@, lane_start(side), lane_start(side) + 3) {
                Some(k) => remainder is None && final(self).storage@ == (if item.count == 0 {
                    old(self).storage@
                } else {
                    old(self).storage@.update(k, PossibleItem(Some(*item)))
                }),
                None => remainder == Some(*item) && final(self).storage@ == old(self).storage@,
            },
    {
        let start: usize = match side {
            TransportBeltSide::Left => 0,
            TransportBeltSide::Right => 3,
        };
        let mut i: usize = start;
        while i < start + 3
            invariant
                start == lane_start(side),
                start <= 3,
                start <= i <= start + 3,
                *self == *old(self),
                first_empty(old(self).storage@, start as int, start + 3) == first_empty(
                    old(self).storage@,
                    i as int,
                    start + 3,
                ),
            decreases start + 3 - i,
        {
            if self.storage[i].0.is_none() {
                return self.storage[i].try_add_item(item);
            }
            i += 1;
        }
        Some(Item::from(item))
    }

    /// The six slots: the left lane, then the right one.
    pub fn storage(&self) -> (slots: &[PossibleItem])
        ensures
            slots@ == self.storage@,
    {
        &self.storage
    }

    /// The six slots, to change them.
    pub fn mut_storage(&mut self) -> (slots: &mut [PossibleItem])
        ensures
            slots@ == old(self).storage@,
            final(self).storage@ == final(slots)@,
            final(self).item_progress == old(self).item_progress,
            final(self).direction == old(self).direction,
    {
        &mut self.storage
    }

    /// Draws up to `max_count` items from the slot that is nearest to the
    /// middle of the belt among those that give any, and sets that slot back
    /// to the start of the belt. Returns the items with the index of the
    /// slot. Of two slots at one distance the one with the lower index goes
    /// first.
    ///
    /// `minus` gives the difference of two single-precision numbers, on their
    /// 32 bits.
    pub fn take_first_existing<S>(&mut self, max_count: u32, minus: &S) -> (taken: Option<
        (Item, usize),
    >) where S: Fn(u32, u32) -> u32
        requires
            forall|a: u32, b: u32| call_requires(*minus, (a, b)),
        ensures
            exists|distances: Seq<u32>| #[trigger]
                distance_keys(minus, old(self).item_progress@, distances) && taken_nearest(
                    old(self)@,
                    distances,
                    max_count,
                    final(self)@,
                    taken,
                ),
    {
        let mut distances = [0u32; 6];
        let mut i: usize = 0;
        while i < 6
            invariant
                0 <= i <= 6,
                *self == *old(self),
                forall|a: u32, b: u32| call_requires(*minus, (a, b)),
                forall|k: int|
                    0 <= k < i ==> distance_key(minus, self.item_progress@[k], #[trigger] distances@[k]),
            decreases 6 - i,
        {
            let difference = minus(self.item_progress[i], MIDDLE);
            distances[i] = difference & 0x7fff_ffff;
            i += 1;
        }
        assert(distance_keys(minus, old(self).item_progress@, distances@));
        self.take_nearest(max_count, &distances)
    }

    /// Draws up to `max_count` items from the slot that goes first by the
    /// distances given among those that give any, and sets that slot back to
    /// the start of the belt. `distances` holds for each slot a number that
    /// rises with its distance from the middle.
    pub fn take_nearest(&mut self, max_count: u32, distances: &[u32; 6]) -> (taken: Option<
        (Item, usize),
    >)
        ensures
            taken_nearest(old(self)@, distances@, max_count, final(self)@, taken),
    {
        let order = sorted_by_distance(distances);
        let mut position: usize = 0;
        while position < 6
            invariant
                0 <= position <= 6,
                nearest_first(distances@, order@),
                self.storage@ == old(self).storage@,
                self.item_progress@ == old(self).item_progress@,
                self.direction == old(self).direction,
                forall|p: int|
                    0 <= p < position ==> !gives(old(self).storage@, max_count, order@[p] as int),
            decreases 6 - position,
        {
            let index = order[position];
            if let Some(item) = self.storage[index].try_take(max_count) {
                self.item_progress[index] = 0;
                proof {
                    assert forall|j: int|
                        0 <= j < 6 && j != index && gives(
                            old(self).storage@,
                            max_count,
                            j,
                        ) implies precedes(
                        distances@,
                        index as int,
                        j,
                    ) by {
                        assert(lists(order@, j));
                        let q = choose|q: int| 0 <= q < 6 && #[trigger] order@[q] == j;
                        assert(q > position);
                    }
                }
                return Some((item, index));
            }
            position += 1;
        }
        proof {
            assert forall|i: int| 0 <= i < 6 implies !gives(old(self).storage@, max_count, i) by {
                assert(lists(order@, i));
                let q = choose|q: int| 0 <= q < 6 && #[trigger] order@[q] == i;
            }
        }
        None
    }

    /// Whether the six slots together hold at least `item.count` items of
    /// the kind of `item`.
    pub fn is_item_exist(&self, item: &Item) -> (exists: bool)
        ensures
            exists == (held_in(self.storage@, 0, 6, item.item_id) >= item.count),
    {
        storage::is_item_exist(&self.storage, item)
    }

    /// Takes `item` out of the six slots, in slot order. Returns what the
    /// slots could not give; nothing if they gave all.
    pub fn remove(&mut self, item: &Item) -> (remainder: Option<Item>)
        ensures
            (final(self).storage@, remainder) == take_across(old(self).storage@, 0, 6, *item),
            final(self).item_progress == old(self).item_progress,
            final(self).direction == old(self).direction,
    {
        storage::remove(&mut self.storage, item)
    }

    /// Puts one item of `item` into the first empty slot of the belt.
    /// Returns the items that are left, nothing if none is; a belt without
    /// an empty slot gives the whole item back.
    pub fn add(&mut self, item: &Item, _allow_partial: bool) -> (remainder: Option<Item>)
        ensures
            final(self).item_progress == old(self).item_progress,
            final(self).direction == old(self).direction,
            match first_empty(old(self).storage@, 0, 6) {
                Some(k) => {
                    &&& remainder == (if item.count > 1 {
                        Some(Item { item_id: item.item_id, count: (item.count - 1) as u32 })
                    } else {
                        None
                    })
                    &&& final(self).storage@ == (if item.count == 0 {
                        old(self).storage@
                    } else {
                        old(self).storage@.update(
                            k,
                            PossibleItem(Some(Item { item_id: item.item_id, count: 1 })),
                        )
                    })
                },
                None => remainder == Some(*item) && final(self).storage@ == old(self).storage@,
            },
    {
        let mut returned_item = Item::from(item);
        let mut added_item = Item::new(
            item.id(),
            if item.count < 1 {
                item.count
            } else {
                1
            },
        );
        returned_item.sub_count(1);
        let mut i: usize = 0;
        while i < 6
            invariant
                0 <= i <= 6,
                *self == *old(self),
                added_item.item_id == item.item_id,
                added_item.count == (if item.count < 1 {
                    item.count
                } else {
                    1
                }),
                returned_item.item_id == item.item_id,
                returned_item.count == (if item.count >= 1 {
                    (item.count - 1) as u32
                } else {
                    0
                }),
                first_empty(old(self).storage@, 0, 6) == first_empty(old(self).storage@, i as int, 6),
            decreases 6 - i,
        {
            if self.storage[i].0.is_none() {
                let remainder = self.storage[i].try_add_item(&added_item);
                match remainder {
                    None => {
                        if returned_item.count > 0 {
                            return Some(returned_item);
                        } else {
                            return None;
                        }
                    },
                    Some(rest) => {
                        added_item = rest;
                    },
                }
            }
            i += 1;
        }
        let _ = added_item.try_add(&returned_item);
        Some(added_item)
    }
}

impl TransportBelt {
    /// One tick of the belt. Every slot with items moves one step along the
    /// belt if the slot ahead of it is more than the spacing ahead, and the
    /// lead item of each lane goes over to the belt `next` that this belt
    /// runs into, if there is one, once the item is beyond the end of the
    /// belt and that belt has room.
    ///
    /// Progress is single-precision, and its arithmetic is the caller's:
    /// `plus` gives the sum of two numbers, `minus` their difference, and
    /// `greater` says whether the first is greater than the second, all on
    /// the 32 bits of the numbers.
    pub fn update<A, S, G>(
        &mut self,
        next: Option<&mut TransportBelt>,
        plus: &A,
        minus: &S,
        greater: &G,
    ) where A: Fn(u32, u32) -> u32, S: Fn(u32, u32) -> u32, G: Fn(u32, u32) -> bool
        requires
            forall|a: u32, b: u32| call_requires(*plus, (a, b)),
            forall|a: u32, b: u32| call_requires(*minus, (a, b)),
            forall|a: u32, b: u32| call_requires(*greater, (a, b)),
        ensures
            final(self).direction == old(self).direction,
            match next {
                Some(into) => belt_ticked(
                    plus,
                    minus,
                    greater,
                    old(self)@,
                    Some(into@),
                    final(self)@,
                    Some(final(into)@),
                ),
                None => belt_ticked(plus, minus, greater, old(self)@, None, final(self)@, None),
            },
    {
        self.advance_lanes(plus, minus, greater);
        let ghost moved = self@;
        assert(lanes_advanced(
            plus,
            minus,
            greater,
            old(self)@.storage,
            old(self)@.progress,
            moved.progress,
        ));
        assert(moved == (BeltView { progress: moved.progress, ..old(self)@ }));
        match next {
            Some(next) => {
                let ghost next_before = next@;
                let left = greater(self.item_progress[0], END);
                self.hand_over(next, TransportBeltSide::Left, left);
                let right = greater(self.item_progress[3], END);
                self.hand_over(next, TransportBeltSide::Right, right);
                assert(leads_asked(greater, moved, next_before, left, right));
            },
            None => {},
        }
    }

    /// Moves every slot with items along the belt as far as the slot ahead
    /// of it leaves room: the lead of each lane first, then the slots behind
    /// it, each after the slot ahead of it.
    pub fn advance_lanes<A, S, G>(&mut self, plus: &A, minus: &S, greater: &G) where
        A: Fn(u32, u32) -> u32,
        S: Fn(u32, u32) -> u32,
        G: Fn(u32, u32) -> bool,

        requires
            forall|a: u32, b: u32| call_requires(*plus, (a, b)),
            forall|a: u32, b: u32| call_requires(*minus, (a, b)),
            forall|a: u32, b: u32| call_requires(*greater, (a, b)),
        ensures
            final(self).direction == old(self).direction,
            final(self).storage == old(self).storage,
            lanes_advanced(
                plus,
                minus,
                greater,
                old(self).storage@,
                old(self).item_progress@,
                final(self).item_progress@,
            ),
    {
        if self.storage[0].0.is_some() {
            self.item_progress[0] = plus(self.item_progress[0], STEP);
        }
        if self.storage[3].0.is_some() {
            self.item_progress[3] = plus(self.item_progress[3], STEP);
        }
        let mut index: usize = 1;
        while index < 6
            invariant
                1 <= index <= 6,
                forall|a: u32, b: u32| call_requires(*plus, (a, b)),
                forall|a: u32, b: u32| call_requires(*minus, (a, b)),
                forall|a: u32, b: u32| call_requires(*greater, (a, b)),
                self.storage == old(self).storage,
                self.direction == old(self).direction,
                stepped(
                    plus,
                    old(self).storage@[0].0 is Some,
                    old(self).item_progress@[0],
                    self.item_progress@[0],
                ),
                stepped(
                    plus,
                    old(self).storage@[3].0 is Some,
                    old(self).item_progress@[3],
                    self.item_progress@[3],
                ),
                forall|k: int|
                    1 <= k < index && k != 3 ==> #[trigger] followed(
                        plus,
                        minus,
                        greater,
                        old(self).storage@,
                        old(self).item_progress@,
                        self.item_progress@,
                        k,
                    ),
                forall|k: int|
                    index <= k < 6 && k != 3 ==> self.item_progress@[k] == old(
                        self,
                    ).item_progress@[k],
            decreases 6 - index,
        {
            let ghost resting = self.item_progress@;
            if index != 3 {
                if self.storage[index].0.is_some() {
                    let gap = minus(self.item_progress[index - 1], SPACING);
                    if greater(gap, self.item_progress[index]) {
                        self.item_progress[index] = plus(self.item_progress[index], STEP);
                    }
                    assert(kept_behind(
                        plus,
                        greater,
                        gap,
                        resting[index as int],
                        self.item_progress@[index as int],
                    ));
                }
                proof {
                    assert forall|k: int| 1 <= k < index + 1 && k != 3 implies #[trigger] followed(
                        plus,
                        minus,
                        greater,
                        old(self).storage@,
                        old(self).item_progress@,
                        self.item_progress@,
                        k,
                    ) by {
                        if k < index {
                            assert(followed(
                                plus,
                                minus,
                                greater,
                                old(self).storage@,
                                old(self).item_progress@,
                                resting,
                                k,
                            ));
                        }
                    }
                }
            }
            index += 1;
        }
    }

    /// A copy of the belt.
    pub fn copy(&self) -> (copy: Self)
        ensures
            copy == *self,
    {
        TransportBelt {
            item_progress: self.item_progress,
            direction: self.direction,
            storage: self.storage,
        }
    }

    /// Whether two belts are the same in progress, direction and slots.
    pub fn same_as(&self, other: &TransportBelt) -> (same: bool)
        ensures
            same == (*self == *other),
    {
        let mut same = self.direction[0] == other.direction[0] && self.direction[1]
            == other.direction[1] && self.direction[2] == other.direction[2];
        let mut i: usize = 0;
        while i < 6
            invariant
                0 <= i <= 6,
                same == (self.direction@ =~= other.direction@ && forall|k: int|
                    0 <= k < i ==> self.item_progress@[k] == other.item_progress@[k]
                        && self.storage@[k] == other.storage@[k]),
            decreases 6 - i,
        {
            if self.item_progress[i] != other.item_progress[i] || self.storage[i]
                != other.storage[i] {
                same = false;
            }
            i += 1;
        }
        proof {
            if same {
                assert(self.item_progress =~= other.item_progress);
                assert(self.storage =~= other.storage);
                assert(self.direction =~= other.direction);
            } else if self.direction@ =~= other.direction@ {
                assert(self.item_progress@ != other.item_progress@ || self.storage@
                    != other.storage@);
            } else {
                assert(self.direction@ != other.direction@);
            }
        }
        same
    }

    /// Moves the items of a lane one slot towards its lead, together with
    /// their progress; the lead slot is overwritten, and the last slot of the
    /// lane is left empty at the start of the belt.
    pub fn shift_lane(&mut self, side: TransportBeltSide)
        ensures
            final(self).direction == old(self).direction,
            final(self).storage@ == lane_shifted(
                old(self).storage@,
                lane_start(side),
                PossibleItem(None),
            ),
            final(self).item_progress@ == lane_shifted(
                old(self).item_progress@,
                lane_start(side),
                0u32,
            ),
    {
        let start: usize = match side {
            TransportBeltSide::Left => 0,
            TransportBeltSide::Right => 3,
        };
        self.item_progress[start] = self.item_progress[start + 1];
        self.item_progress[start + 1] = self.item_progress[start + 2];
        self.item_progress[start + 2] = 0;

        self.storage[start] = self.storage[start + 1];
        self.storage[start + 1] = self.storage[start + 2];
        self.storage[start + 2] = PossibleItem::new_none();
        assert(self.storage@ =~= lane_shifted(
            old(self).storage@,
            lane_start(side),
            PossibleItem(None),
        ));
        assert(self.item_progress@ =~= lane_shifted(
            old(self).item_progress@,
            lane_start(side),
            0u32,
        ));
    }

    /// Hands the lead item of a lane over to the belt `next` that this
    /// belt runs into, if the item has reached the end (`lead_arrived`) and
    /// the same lane of `next` has an empty slot; the lane then closes up.
    /// Returns whether the item went over. A lane without a lead item hands
    /// nothing over.
    pub fn hand_over(&mut self, next: &mut TransportBelt, side: TransportBeltSide, lead_arrived: bool) -> (moved:
        bool)
        ensures
            moved == hands_over(old(self).storage@, old(next).storage@, side, lead_arrived),
            (final(self)@, final(next)@) == handed_over(
                old(self)@,
                old(next)@,
                side,
                lead_arrived,
            ),
    {
        if !lead_arrived {
            return false;
        }
        let start: usize = match side {
            TransportBeltSide::Left => 0,
            TransportBeltSide::Right => 3,
        };
        let lead = match self.storage[start].0 {
            Some(lead) => lead,
            None => {
                return false;
            },
        };
        if next.put(&lead, side).is_none() {
            self.shift_lane(side);
            true
        } else {
            false
        }
    }

    /// The bytes of the belt: the header, then the six slots.
    pub fn encode_bytes(&self) -> (bytes: Vec<u8>)
        ensures
            bytes@ == belt_bytes(self@),
    {
        let mut bytes: Vec<u8> = Vec::new();
        push_u32(&mut bytes, self.item_progress[0]);
        push_u32(&mut bytes, self.item_progress[1]);
        push_u32(&mut bytes, self.item_progress[2]);
        push_u32(&mut bytes, self.item_progress[3]);
        push_u32(&mut bytes, self.item_progress[4]);
        push_u32(&mut bytes, self.item_progress[5]);
        bytes.push(write_direction(self.direction[0]));
        bytes.push(write_direction(self.direction[1]));
        bytes.push(write_direction(self.direction[2]));
        bytes.push(0);
        assert(bytes@ =~= belt_header(self@));
        push_slots(&mut bytes, &self.storage);
        bytes
    }

    /// Reads a belt from `bytes`.
    #[verifier::loop_isolation(false)]
    pub fn decode_bytes(bytes: &[u8]) -> (belt: Result<Self, DecodeError>)
        ensures
            match belt {
                Ok(belt) => decode_belt(bytes@) == Ok::<BeltView, DecodeError>(belt@),
                Err(fault) => decode_belt(bytes@) == Err::<BeltView, DecodeError>(fault),
            },
    {
        if bytes.len() < BELT_SIZE {
            return Err(DecodeError::UnexpectedEnd);
        }
        let mut item_progress = [0u32; 6];
        let mut i: usize = 0;
        while i < 6
            invariant
                0 <= i <= 6,
                forall|k: int| 0 <= k < i ==> item_progress@[k] == u32_at(bytes@, 4 * k),
            decreases 6 - i,
        {
            item_progress[i] = read_u32(bytes, 4 * i);
            i += 1;
        }
        let direction = [
            read_direction(bytes[24]),
            read_direction(bytes[25]),
            read_direction(bytes[26]),
        ];
        let mut storage = [PossibleItem::new_none(); 6];
        let mut i: usize = 0;
        while i < 6
            invariant
                0 <= i <= 6,
                forall|k: int|
                    0 <= k < i ==> #[trigger] slot_tag_ok(bytes@, 28 + 9 * k),
                forall|k: int|
                    0 <= k < i ==> storage@[k] == slot_at(bytes@, 28 + 9 * k),
            decreases 6 - i,
        {
            match read_slot(bytes, BELT_HEADER_SIZE + 9 * i) {
                Ok(slot) => {
                    storage[i] = slot;
                },
                Err(fault) => {
                    assert(!slot_tag_ok(bytes@, 28 + 9 * i));
                    return Err(fault);
                },
            }
            i += 1;
        }
        let belt = Self { item_progress, direction, storage };
        proof {
            let read = decode_belt(bytes@)->Ok_0;
            assert(belt@.progress =~= read.progress);
            assert(belt@.direction =~= read.direction);
            assert(belt@.storage =~= read.storage);
        }
        Ok(belt)
    }
}

/// A lane after it closed up: the two slots behind the lead of the lane
/// that starts at `start` move one place towards it, and `last` takes the
/// last place.
pub open spec fn lane_shifted<T>(slots: Seq<T>, start: int, last: T) -> Seq<T> {
    slots.update(start, slots[start + 1]).update(start + 1, slots[start + 2]).update(
        start + 2,
        last,
    )
}

/// Whether the lead item of a lane goes over to the next belt: it has
/// arrived, it is there, and the same lane of the next belt has an empty
/// slot.
pub open spec fn hands_over(
    slots: Seq<PossibleItem>,
    next: Seq<PossibleItem>,
    side: TransportBeltSide,
    lead_arrived: bool,
) -> bool {
    &&& lead_arrived
    &&& slots[lane_start(side)].0 is Some
    &&& first_empty(next, lane_start(side), lane_start(side) + 3) is Some
}

/// The belt and the belt that it runs into, after the lead item of a lane
/// went over if it could: the item stands in the first empty slot of the same
/// lane of the next belt, and the lane that it left has closed up.
pub open spec fn handed_over(
    belt: BeltView,
    next: BeltView,
    side: TransportBeltSide,
    lead_arrived: bool,
) -> (BeltView, BeltView) {
    if hands_over(belt.storage, next.storage, side, lead_arrived) {
        let start = lane_start(side);
        let into = first_empty(next.storage, start, start + 3)->Some_0;
        let lead = belt.storage[start].0->Some_0;
        (
            BeltView {
                storage: lane_shifted(belt.storage, start, PossibleItem(None)),
                progress: lane_shifted(belt.progress, start, 0u32),
                direction: belt.direction,
            },
            BeltView {
                storage: if lead.count == 0 {
                    next.storage
                } else {
                    next.storage.update(into, PossibleItem(Some(lead)))
                },
                ..next
            },
        )
    } else {
        (belt, next)
    }
}

/// `after` is the progress of a slot whose progress was `before`: the sum of
/// `before` and one step where the slot moves, and `before` where it rests.
pub open spec fn stepped<A: Fn(u32, u32) -> u32>(plus: &A, moves: bool, before: u32, after: u32) -> bool {
    if moves {
        call_ensures(*plus, (before, STEP), after)
    } else {
        after == before
    }
}

/// `after` is the progress of a slot with items whose progress was `before`,
/// where `gap` is the progress of the slot ahead less the spacing: the slot
/// moves one step if `gap` is greater than its progress, else it rests.
pub open spec fn kept_behind<A: Fn(u32, u32) -> u32, G: Fn(u32, u32) -> bool>(
    plus: &A,
    greater: &G,
    gap: u32,
    before: u32,
    after: u32,
) -> bool {
    ||| call_ensures(*greater, (gap, before), true) && call_ensures(*plus, (before, STEP), after)
    ||| call_ensures(*greater, (gap, before), false) && after == before
}

/// `after` is the progress of slot `k`, which follows slot `k - 1` in its
/// lane: an empty slot rests, and a slot with items keeps the spacing behind
/// the new progress of the slot ahead.
pub open spec fn followed<A: Fn(u32, u32) -> u32, S: Fn(u32, u32) -> u32, G: Fn(u32, u32) -> bool>(
    plus: &A,
    minus: &S,
    greater: &G,
    slots: Seq<PossibleItem>,
    before: Seq<u32>,
    after: Seq<u32>,
    k: int,
) -> bool {
    if slots[k].0 is Some {
        exists|gap: u32| #[trigger]
            call_ensures(*minus, (after[k - 1], SPACING), gap) && kept_behind(
                plus,
                greater,
                gap,
                before[k],
                after[k],
            )
    } else {
        after[k] == before[k]
    }
}

/// `after` is the progress of the six slots after both lanes have moved:
/// a lead slot with items moves, and each slot behind it follows.
pub open spec fn lanes_advanced<A: Fn(u32, u32) -> u32, S: Fn(u32, u32) -> u32, G: Fn(u32, u32) -> bool>(
    plus: &A,
    minus: &S,
    greater: &G,
    slots: Seq<PossibleItem>,
    before: Seq<u32>,
    after: Seq<u32>,
) -> bool {
    &&& after.len() == 6
    &&& stepped(plus, slots[0].0 is Some, before[0], after[0])
    &&& followed(plus, minus, greater, slots, before, after, 1)
    &&& followed(plus, minus, greater, slots, before, after, 2)
    &&& stepped(plus, slots[3].0 is Some, before[3], after[3])
    &&& followed(plus, minus, greater, slots, before, after, 4)
    &&& followed(plus, minus, greater, slots, before, after, 5)
}

/// The belt and the belt that it runs into, after the leads of both lanes
/// went over if they had arrived and could: first the left lane, then the
/// right one.
pub open spec fn leads_handed_over(moved: BeltView, next: BeltView, left: bool, right: bool) -> (
    BeltView,
    BeltView,
) {
    let (belt, between) = handed_over(moved, next, TransportBeltSide::Left, left);
    handed_over(belt, between, TransportBeltSide::Right, right)
}

/// `left` says whether the progress of the left lead is greater than the end
/// of the belt, and `right` says the same of the right lead once the left
/// lane was done with.
pub open spec fn leads_asked<G: Fn(u32, u32) -> bool>(
    greater: &G,
    moved: BeltView,
    next: BeltView,
    left: bool,
    right: bool,
) -> bool {
    &&& call_ensures(*greater, (moved.progress[0], END), left)
    &&& call_ensures(
        *greater,
        (handed_over(moved, next, TransportBeltSide::Left, left).0.progress[3], END),
        right,
    )
}

/// `after` and `next_after` are the belt `moved`, whose slots have moved,
/// and the belt `next` that it runs into, after the leads that had arrived
/// went over.
pub open spec fn leads_settled<G: Fn(u32, u32) -> bool>(
    greater: &G,
    moved: BeltView,
    next: BeltView,
    after: BeltView,
    next_after: BeltView,
) -> bool {
    exists|left: bool, right: bool| #[trigger]
        leads_asked(greater, moved, next, left, right) && leads_handed_over(
            moved,
            next,
            left,
            right,
        ) == (after, next_after)
}

/// `after` and `next_after` are the belt `before` and the belt `next` that
/// it runs into, if there is one, after one tick of `before`: the slots have
/// moved, and then the leads that had arrived went over.
pub open spec fn belt_ticked<A: Fn(u32, u32) -> u32, S: Fn(u32, u32) -> u32, G: Fn(u32, u32) -> bool>(
    plus: &A,
    minus: &S,
    greater: &G,
    before: BeltView,
    next: Option<BeltView>,
    after: BeltView,
    next_after: Option<BeltView>,
) -> bool {
    exists|moved: Seq<u32>|
        {
            &&& #[trigger] lanes_advanced(plus, minus, greater, before.storage, before.progress, moved)
            &&& match next {
                Some(into) => next_after matches Some(into_after) && leads_settled(
                    greater,
                    BeltView { progress: moved, ..before },
                    into,
                    after,
                    into_after,
                ),
                None => next_after is None && after == (BeltView { progress: moved, ..before }),
            }
        }
}

/// `key` is the distance between progress `progress` and the middle of the
/// belt, as a number that rises with the distance: the difference of the two
/// without its sign bit.
pub open spec fn distance_key<S: Fn(u32, u32) -> u32>(minus: &S, progress: u32, key: u32) -> bool {
    exists|difference: u32| #[trigger]
        call_ensures(*minus, (progress, MIDDLE), difference) && key == difference & 0x7fff_ffff
}

/// `keys` are the distances of the six slots from the middle of the belt.
pub open spec fn distance_keys<S: Fn(u32, u32) -> u32>(
    minus: &S,
    progress: Seq<u32>,
    keys: Seq<u32>,
) -> bool {
    &&& keys.len() == 6
    &&& forall|i: int| 0 <= i < 6 ==> distance_key(minus, progress[i], #[trigger] keys[i])
}

/// `after` and `taken` are the belt and what was drawn from it when up to
/// `max_count` items were asked of the slot nearest to the middle: the slot
/// that gives something and goes before every other slot that does gives
/// its items and starts anew; where no slot gives anything, nothing changes.
pub open spec fn taken_nearest(
    before: BeltView,
    distances: Seq<u32>,
    max_count: u32,
    after: BeltView,
    taken: Option<(Item, usize)>,
) -> bool {
    &&& after.direction == before.direction
    &&& match taken {
        Some((item, index)) => {
            &&& nearest_giver(before.storage, distances, max_count, index as int)
            &&& Some(item) == drawn(before.storage[index as int].0, max_count).1
            &&& after.storage == before.storage.update(
                index as int,
                PossibleItem(drawn(before.storage[index as int].0, max_count).0),
            )
            &&& after.progress == before.progress.update(index as int, 0)
        },
        None => {
            &&& forall|i: int| 0 <= i < 6 ==> !gives(before.storage, max_count, i)
            &&& after.storage == before.storage
            &&& after.progress == before.progress
        },
    }
}

/// The first slot of a lane.
pub open spec fn lane_start(side: TransportBeltSide) -> int {
    match side {
        TransportBeltSide::Left => 0,
        TransportBeltSide::Right => 3,
    }
}

} // verus!
