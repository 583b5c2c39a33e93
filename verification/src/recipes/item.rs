use vstd::prelude::*;
use vstd::std_specs::convert::FromSpecImpl;

verus! {

/// A number of items of one kind.
#[derive(Debug, Clone, Copy, PartialEq, Eq, Structural)]
pub struct Item {
    pub item_id: u32,
    pub count: u32,
}

impl Item {
    pub fn new(item_id: u32, count: u32) -> (item: Self)
        ensures
            item == (Item { item_id, count }),
    {
        Item { item_id, count }
    }

    /// The kind of the items.
    pub fn id(&self) -> (item_id: u32)
        ensures
            item_id == self.item_id,
    {
        self.item_id
    }

    /// Takes `count` items away, as far as there are any.
    pub fn sub_count(&mut self, count: u32)
        ensures
            final(self).item_id == old(self).item_id,
            final(self).count == if old(self).count >= count {
                old(self).count - count
            } else {
                0
            },
    {
        self.count = if self.count >= count {
            self.count - count
        } else {
            0
        };
    }

    /// Adds the items of `other` to these if they are of the same kind, as far
    /// as the count can hold them. Returns what did not go in; nothing if all
    /// of it did.
    pub fn try_add(&mut self, other: &Item) -> (remainder: Option<Item>)
        ensures
            (Some(*final(self)), remainder) == put_in(Some(*old(self)), *other),
    {
        if other.count == 0 {
            return None;
        }
        if self.item_id != other.item_id {
            return Some(*other);
        }
        let room: u32 = u32::MAX - self.count;
        if other.count <= room {
            self.count = self.count + other.count;
            None
        } else {
            self.count = u32::MAX;
            Some(Item { item_id: other.item_id, count: other.count - room })
        }
    }
}

impl<'a> FromSpecImpl<&'a Item> for Item {
    open spec fn obeys_from_spec() -> bool {
        true
    }

    open spec fn from_spec(item: &'a Item) -> Self {
        *item
    }
}

impl<'a> From<&'a Item> for Item {
    fn from(item: &'a Item) -> (copy: Self) {
        *item
    }
}

/// What a slot holds after `item` was put in, and what did not go in.
///
/// Nothing is done for a count of zero. An empty slot takes the whole item. A
/// slot with items of the same kind takes as many as its count can hold, and
/// the rest is left over. A slot with items of another kind takes none.
pub open spec fn put_in(slot: Option<Item>, item: Item) -> (Option<Item>, Option<Item>) {
    if item.count == 0 {
        (slot, None)
    } else {
        match slot {
            None => (Some(item), None),
            Some(held) => if held.item_id != item.item_id {
                (slot, Some(item))
            } else if held.count + item.count <= u32::MAX {
                (
                    Some(Item { item_id: held.item_id, count: (held.count + item.count) as u32 }),
                    None,
                )
            } else {
                (
                    Some(Item { item_id: held.item_id, count: u32::MAX }),
                    Some(
                        Item {
                            item_id: item.item_id,
                            count: (held.count + item.count - u32::MAX) as u32,
                        },
                    ),
                )
            },
        }
    }
}

/// What a slot holds after `item` was taken out of it, and what it could not
/// give.
///
/// Nothing is done for a count of zero. A slot with items of the same kind
/// gives as many as it has; it is empty once it has given all. An empty slot
/// and a slot with items of another kind give none.
pub open spec fn taken_out(slot: Option<Item>, item: Item) -> (Option<Item>, Option<Item>) {
    if item.count == 0 {
        (slot, None)
    } else {
        match slot {
            None => (slot, Some(item)),
            Some(held) => if held.item_id != item.item_id {
                (slot, Some(item))
            } else if held.count > item.count {
                (
                    Some(Item { item_id: held.item_id, count: (held.count - item.count) as u32 }),
                    None,
                )
            } else if held.count == item.count {
                (None, None)
            } else {
                (
                    None,
                    Some(Item { item_id: item.item_id, count: (item.count - held.count) as u32 }),
                )
            },
        }
    }
}

/// What a slot holds after up to `max_count` of its items were drawn, and the
/// items drawn: at least one item and at most `max_count`. Nothing is drawn
/// from an empty slot, from a slot that holds a count of zero, nor for a
/// `max_count` of zero.
pub open spec fn drawn(slot: Option<Item>, max_count: u32) -> (Option<Item>, Option<Item>) {
    match slot {
        None => (None, None),
        Some(held) => if max_count == 0 || held.count == 0 {
            (slot, None)
        } else if held.count <= max_count {
            (None, Some(held))
        } else {
            (
                Some(Item { item_id: held.item_id, count: (held.count - max_count) as u32 }),
                Some(Item { item_id: held.item_id, count: max_count }),
            )
        },
    }
}

/// How many items of kind `item_id` a slot holds.
pub open spec fn held_of(slot: Option<Item>, item_id: u32) -> nat {
    match slot {
        Some(held) => if held.item_id == item_id {
            held.count as nat
        } else {
            0
        },
        None => 0,
    }
}

/// How many items of kind `item_id` the slots `from .. to` hold together.
pub open spec fn held_in(slots: Seq<PossibleItem>, from: int, to: int, item_id: u32) -> nat
    decreases to - from,
{
    if from >= to {
        0
    } else {
        held_of(slots[from].0, item_id) + held_in(slots, from + 1, to, item_id)
    }
}

/// The slots after `item` was taken out of the slots `from .. to`, one after
/// the other, each giving what the ones before it could not; and what none
/// of them could give.
pub open spec fn take_across(slots: Seq<PossibleItem>, from: int, to: int, item: Item) -> (
    Seq<PossibleItem>,
    Option<Item>,
)
    decreases to - from,
{
    if from >= to {
        (slots, Some(item))
    } else {
        let (slot, rest) = taken_out(slots[from].0, item);
        let slots = slots.update(from, PossibleItem(slot));
        match rest {
            None => (slots, None),
            Some(rest) => take_across(slots, from + 1, to, rest),
        }
    }
}

/// A slot of a storage: empty, or a number of items of one kind.
#[derive(Debug, Clone, Copy, PartialEq, Eq, Structural)]
pub struct PossibleItem(pub Option<Item>);

impl PossibleItem {
    /// An empty slot.
    pub fn new_none() -> (slot: Self)
        ensures
            slot.0 is None,
    {
        PossibleItem(None)
    }

    /// A slot that holds `item`.
    pub fn new(item: Item) -> (slot: Self)
        ensures
            slot.0 == Some(item),
    {
        PossibleItem(Some(item))
    }

    /// How many items of kind `item_id` the slot holds.
    pub fn contains(&self, item_id: u32) -> (count: u32)
        ensures
            count == held_of(self.0, item_id),
    {
        match self.0 {
            Some(held) => if held.item_id == item_id {
                held.count
            } else {
                0
            },
            None => 0,
        }
    }

    /// Whether the whole of `item` can go into the slot.
    pub fn is_possible_add(&self, item: &Item) -> (possible: bool)
        ensures
            possible == (put_in(self.0, *item).1 is None),
    {
        if item.count == 0 {
            return true;
        }
        match self.0 {
            None => true,
            Some(held) => held.item_id == item.item_id && item.count <= u32::MAX - held.count,
        }
    }

    /// Puts `item` into the slot and returns what did not go in; nothing if
    /// all of it did.
    pub fn try_add_item(&mut self, item: &Item) -> (remainder: Option<Item>)
        ensures
            (final(self).0, remainder) == put_in(old(self).0, *item),
    {
        if item.count == 0 {
            return None;
        }
        match self.0 {
            None => {
                self.0 = Some(*item);
                None
            },
            Some(held) => {
                let mut merged = held;
                let remainder = merged.try_add(item);
                self.0 = Some(merged);
                remainder
            },
        }
    }

    /// Takes `item` out of the slot and returns what the slot could not
    /// give; nothing if it gave all.
    pub fn try_sub_item(&mut self, item: &Item) -> (remainder: Option<Item>)
        ensures
            (final(self).0, remainder) == taken_out(old(self).0, *item),
    {
        if item.count == 0 {
            return None;
        }
        match self.0 {
            None => Some(*item),
            Some(held) => {
                if held.item_id != item.item_id {
                    Some(*item)
                } else if held.count > item.count {
                    self.0 = Some(Item { item_id: held.item_id, count: held.count - item.count });
                    None
                } else if held.count == item.count {
                    self.0 = None;
                    None
                } else {
                    self.0 = None;
                    Some(Item { item_id: item.item_id, count: item.count - held.count })
                }
            },
        }
    }

    /// Draws up to `max_count` items from the slot.
    pub fn try_take(&mut self, max_count: u32) -> (taken: Option<Item>)
        ensures
            (final(self).0, taken) == drawn(old(self).0, max_count),
    {
        match self.0 {
            None => None,
            Some(held) => {
                if max_count == 0 || held.count == 0 {
                    None
                } else if held.count <= max_count {
                    self.0 = None;
                    Some(held)
                } else {
                    self.0 = Some(Item { item_id: held.item_id, count: held.count - max_count });
                    Some(Item { item_id: held.item_id, count: max_count })
                }
            },
        }
    }
}

} // verus!
