use vstd::prelude::*;
use crate::recipes::item::{drawn, held_in, put_in, take_across, Item, PossibleItem};
use crate::recipes::recipe::{ActiveRecipe, Recipe};
use crate::voxels::voxel_data::belt_model::first_empty;

verus! {

/// The slots after `item` was put into the slots `from .. to`, one after the
/// other, each taking what the ones before it could not; and what none of
/// them took.
pub open spec fn fill_across(slots: Seq<PossibleItem>, from: int, to: int, item: Item) -> (
    Seq<PossibleItem>,
    Option<Item>,
)
    decreases to - from,
{
    if from >= to {
        (slots, Some(item))
    } else {
        let (slot, rest) = put_in(slots[from].0, item);
        let slots = slots.update(from, PossibleItem(slot));
        match rest {
            None => (slots, None),
            Some(rest) => fill_across(slots, from + 1, to, rest),
        }
    }
}

/// The first of the slots `from .. to` that gives anything when up to
/// `max_count` items are drawn from it.
pub open spec fn first_giving(slots: Seq<PossibleItem>, from: int, to: int, max_count: u32) -> Option<
    int,
>
    decreases to - from,
{
    if from >= to {
        None
    } else if drawn(slots[from].0, max_count).1 is Some {
        Some(from)
    } else {
        first_giving(slots, from + 1, to, max_count)
    }
}

/// Whether the slots together hold at least `item.count` items of the kind
/// of `item`.
pub fn is_item_exist(slots: &[PossibleItem], item: &Item) -> (exists: bool)
    ensures
        exists == (held_in(slots@, 0, slots@.len() as int, item.item_id) >= item.count),
{
    let mut enough = item.count == 0;
    let mut held: u32 = 0;
    let mut i: usize = slots.len();
    while i > 0
        invariant
            0 <= i <= slots@.len(),
            enough == (held_in(slots@, i as int, slots@.len() as int, item.item_id) >= item.count),
            !enough ==> held == held_in(slots@, i as int, slots@.len() as int, item.item_id),
        decreases i,
    {
        i -= 1;
        if !enough {
            let here = slots[i].contains(item.item_id);
            if here >= item.count - held {
                enough = true;
            } else {
                held = held + here;
            }
        }
    }
    enough
}

/// Takes `item` out of the slots, in slot order. Returns what the slots
/// could not give; nothing if they gave all.
pub fn remove(slots: &mut [PossibleItem], item: &Item) -> (remainder: Option<Item>)
    ensures
        (final(slots)@, remainder) == take_across(old(slots)@, 0, old(slots)@.len() as int, *item),
        final(slots)@.len() == old(slots)@.len(),
{
    let mut sub_item = Item::from(item);
    let mut i: usize = 0;
    while i < slots.len()
        invariant
            0 <= i <= slots@.len(),
            slots@.len() == old(slots)@.len(),
            take_across(old(slots)@, 0, old(slots)@.len() as int, *item) == take_across(
                slots@,
                i as int,
                slots@.len() as int,
                sub_item,
            ),
        decreases slots@.len() - i,
    {
        let remainder = slots[i].try_sub_item(&sub_item);
        match remainder {
            None => {
                return None;
            },
            Some(rest) => {
                sub_item = rest;
            },
        }
        i += 1;
    }
    Some(sub_item)
}

/// Puts `item` into the slots, in slot order: an empty slot takes all of it,
/// a slot with items of its kind takes what its count can hold. Returns what
/// the slots did not take; nothing if they took all.
pub fn add(slots: &mut [PossibleItem], item: &Item) -> (remainder: Option<Item>)
    ensures
        (final(slots)@, remainder) == fill_across(old(slots)@, 0, old(slots)@.len() as int, *item),
        final(slots)@.len() == old(slots)@.len(),
{
    let mut added_item = Item::from(item);
    let mut i: usize = 0;
    while i < slots.len()
        invariant
            0 <= i <= slots@.len(),
            slots@.len() == old(slots)@.len(),
            fill_across(old(slots)@, 0, old(slots)@.len() as int, *item) == fill_across(
                slots@,
                i as int,
                slots@.len() as int,
                added_item,
            ),
        decreases slots@.len() - i,
    {
        let remainder = slots[i].try_add_item(&added_item);
        match remainder {
            None => {
                return None;
            },
            Some(rest) => {
                added_item = rest;
            },
        }
        i += 1;
    }
    Some(added_item)
}

/// Draws up to `max_count` items from the first slot that gives any.
/// Returns them with the index of the slot.
pub fn take_first_existing(slots: &mut [PossibleItem], max_count: u32) -> (taken: Option<
    (Item, usize),
>)
    ensures
        match first_giving(old(slots)@, 0, old(slots)@.len() as int, max_count) {
            Some(index) => {
                let (left, item) = drawn(old(slots)@[index].0, max_count);
                &&& taken == Some((item->Some_0, index as usize))
                &&& final(slots)@ == old(slots)@.update(index, PossibleItem(left))
            },
            None => taken is None && final(slots)@ == old(slots)@,
        },
{
    let mut i: usize = 0;
    while i < slots.len()
        invariant
            0 <= i <= slots@.len(),
            slots@ == old(slots)@,
            first_giving(old(slots)@, 0, old(slots)@.len() as int, max_count) == first_giving(
                old(slots)@,
                i as int,
                old(slots)@.len() as int,
                max_count,
            ),
        decreases slots@.len() - i,
    {
        if let Some(item) = slots[i].try_take(max_count) {
            return Some((item, i));
        }
        assert(slots@ =~= old(slots)@);
        i += 1;
    }
    None
}

/// Moves what slot `index` holds to the first empty slot among the slots
/// `from .. to`. Returns whether it moved: an empty slot does not move, nor
/// does a slot where none of the others is empty.
pub fn move_to_first_empty(slots: &mut [PossibleItem], index: usize, from: usize, to: usize) -> (moved:
    bool)
    requires
        index < old(slots)@.len(),
        from <= to <= old(slots)@.len(),
    ensures
        match (old(slots)@[index as int].0, first_empty(old(slots)@, from as int, to as int)) {
            (Some(item), Some(free)) => moved && final(slots)@ == old(slots)@.update(
                free,
                PossibleItem(Some(item)),
            ).update(index as int, PossibleItem(None)),
            _ => !moved && final(slots)@ == old(slots)@,
        },
{
    let item = match slots[index].0 {
        Some(item) => item,
        None => {
            return false;
        },
    };
    let mut i: usize = from;
    while i < to
        invariant
            from <= i <= to <= slots@.len(),
            index < slots@.len(),
            slots@ == old(slots)@,
            old(slots)@[index as int].0 == Some(item),
            first_empty(old(slots)@, from as int, to as int) == first_empty(
                old(slots)@,
                i as int,
                to as int,
            ),
        decreases to - i,
    {
        if slots[i].0.is_none() {
            slots[i] = PossibleItem(Some(item));
            slots[index] = PossibleItem(None);
            return true;
        }
        i += 1;
    }
    false
}

/// Moves what slot `index` of `from` holds into the slots `into`, in slot
/// order; what they do not take stays in the slot.
pub fn move_into(from: &mut [PossibleItem], index: usize, into: &mut [PossibleItem])
    requires
        index < old(from)@.len(),
    ensures
        match old(from)@[index as int].0 {
            Some(item) => {
                let (filled, rest) = fill_across(old(into)@, 0, old(into)@.len() as int, item);
                &&& final(into)@ == filled
                &&& final(from)@ == old(from)@.update(index as int, PossibleItem(rest))
            },
            None => final(into)@ == old(into)@ && final(from)@ == old(from)@,
        },
{
    let item = match from[index].0 {
        Some(item) => item,
        None => {
            return ;
        },
    };
    let remainder = self::add(into, &item);
    from[index] = PossibleItem(remainder);
}

/// Whether the slots hold every ingredient of a recipe, each counted by
/// itself.
pub open spec fn holds_all(slots: Seq<PossibleItem>, ingredients: Seq<Item>) -> bool {
    forall|i: int|
        0 <= i < ingredients.len() ==> held_in(
            slots,
            0,
            slots.len() as int,
            ingredients[i].item_id,
        ) >= (#[trigger] ingredients[i]).count
}

/// The slots after the first `k` ingredients were taken out of them, one
/// ingredient after the other.
pub open spec fn used_up(slots: Seq<PossibleItem>, ingredients: Seq<Item>, k: int) -> Seq<PossibleItem>
    decreases k,
{
    if k <= 0 {
        slots
    } else {
        let before = used_up(slots, ingredients, k - 1);
        take_across(before, 0, before.len() as int, ingredients[k - 1]).0
    }
}

/// Starts a craft of `recipe` at `now`, a time in milliseconds, if the slots
/// hold every ingredient, and takes the ingredients out of them.
pub fn start_recipe(slots: &mut [PossibleItem], recipe: &Recipe, now: u64) -> (craft: Option<
    ActiveRecipe,
>)
    ensures
        holds_all(old(slots)@, recipe.ingredients@) ==> craft == Some(recipe.spec_start(now))
            && final(slots)@ == used_up(
            old(slots)@,
            recipe.ingredients@,
            recipe.ingredients@.len() as int,
        ),
        !holds_all(old(slots)@, recipe.ingredients@) ==> craft is None && final(slots)@ == old(
            slots,
        )@,
{
    let mut i: usize = 0;
    while i < recipe.ingredients.len()
        invariant
            0 <= i <= recipe.ingredients@.len(),
            slots@ == old(slots)@,
            forall|k: int|
                0 <= k < i ==> held_in(
                    slots@,
                    0,
                    slots@.len() as int,
                    recipe.ingredients@[k].item_id,
                ) >= (#[trigger] recipe.ingredients@[k]).count,
        decreases recipe.ingredients@.len() - i,
    {
        if !is_item_exist(slots, &recipe.ingredients[i]) {
            return None;
        }
        i += 1;
    }
    let mut k: usize = 0;
    while k < recipe.ingredients.len()
        invariant
            0 <= k <= recipe.ingredients@.len(),
            slots@.len() == old(slots)@.len(),
            slots@ == used_up(old(slots)@, recipe.ingredients@, k as int),
        decreases recipe.ingredients@.len() - k,
    {
        let _ = remove(slots, &recipe.ingredients[k]);
        k += 1;
    }
    Some(recipe.start(now))
}

} // verus!
