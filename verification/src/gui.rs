//! What the widgets of the inventory screen decide; drawing them is the
//! caller's.

use vstd::prelude::*;
use crate::recipes::item::{Item, PossibleItem};
use crate::recipes::recipe::Recipes;
use crate::voxels::voxel_data::assembling_machine::{put_across, AssemblingMachine};
use crate::voxels::voxel_data::belt_model::first_empty;
use crate::voxels::voxel_data::transport_belt::TransportBelt;

verus! {

/// Number of slots of the hotbar, and of each row of the inventory.
pub const HOTBAR_LENGTH: usize = 10;

/// The highest block id that the debug button steps through.
pub const LAST_DEBUG_BLOCK: u32 = 17;

/// What a click or drag on a slot asks for.
#[derive(Debug, Clone, Copy, PartialEq, Eq, Structural)]
pub enum Task {
    /// Move the slot of the inventory into the hotbar.
    Hotbar(usize),
    /// Move the slot of the hotbar into the inventory.
    Inventory(usize),
    /// Move the slot into the storage that is open.
    Storage(usize),
}

/// The task that a drag on slot `index` of the hotbar starts: into the open
/// storage if there is one, else into the inventory.
pub fn hotbar_task(index: usize, storage_open: bool) -> (task: Task)
    ensures
        task == (if storage_open {
            Task::Storage(index)
        } else {
            Task::Inventory(index)
        }),
{
    if storage_open {
        Task::Storage(index)
    } else {
        Task::Inventory(index)
    }
}

/// The task that a click on slot `index` of the inventory starts: into the
/// open storage if there is one, else into the hotbar.
pub fn inventory_task(index: usize, storage_open: bool) -> (task: Task)
    ensures
        task == (if storage_open {
            Task::Storage(index)
        } else {
            Task::Hotbar(index)
        }),
{
    if storage_open {
        Task::Storage(index)
    } else {
        Task::Hotbar(index)
    }
}

/// Number of rows that an inventory of `len` slots shows below the hotbar;
/// the rows are numbered from 1.
pub fn inventory_rows(len: usize) -> (rows: usize)
    ensures
        rows == len / 10,
{
    len / HOTBAR_LENGTH
}

/// Number of slots in row `row` of an inventory of `len` slots: the slots
/// from `10 * row` on, ten at most.
pub fn inventory_row_len(len: usize, row: usize) -> (slots: usize)
    requires
        row <= len / 10,
    ensures
        slots == (if len - 10 * row < 10 {
            len - 10 * row
        } else {
            10
        }),
{
    let rest = len - HOTBAR_LENGTH * row;
    if rest < HOTBAR_LENGTH {
        rest
    } else {
        HOTBAR_LENGTH
    }
}

/// The block id that the debug button shows after a click: the first id
/// after none, the next id after an id, and none after the last id.
pub fn next_debug_block(block: Option<u32>) -> (next: Option<u32>)
    ensures
        next == (match block {
            Some(id) => if id < LAST_DEBUG_BLOCK {
                Some((id + 1) as u32)
            } else {
                None
            },
            None => Some(0u32),
        }),
{
    match block {
        Some(id) => if id < LAST_DEBUG_BLOCK {
            Some(id + 1)
        } else {
            None
        },
        None => Some(0),
    }
}

/// Moves what slot `index` of `slots` holds into `machine`; what the
/// machine does not take stays in the slot.
pub fn move_to_machine(
    slots: &mut [PossibleItem],
    index: usize,
    machine: &mut AssemblingMachine,
    recipes: &Recipes,
)
    requires
        index < old(slots)@.len(),
        old(machine).wf(recipes),
    ensures
        final(machine).wf(recipes),
        final(machine).structure_coordinates == old(machine).structure_coordinates,
        final(machine).selected_recipe == old(machine).selected_recipe,
        final(machine).active_recipe == old(machine).active_recipe,
        match old(slots)@[index as int].0 {
            Some(item) => {
                let (storage, rest) = match old(machine).selected_recipe {
                    Some(id) => put_across(
                        old(machine).storage@,
                        0,
                        3,
                        item,
                        recipes.all@[id as int].ingredients@,
                    ),
                    None => (old(machine).storage@, Some(item)),
                };
                &&& final(machine).storage@ == storage
                &&& final(slots)@ == old(slots)@.update(index as int, PossibleItem(rest))
            },
            None => final(machine).storage@ == old(machine).storage@ && final(slots)@ == old(
                slots,
            )@,
        },
{
    let item = match slots[index].0.take() {
        Some(item) => item,
        None => {
            return ;
        },
    };
    let remainder = machine.add(&item, true, recipes);
    if let Some(rest) = remainder {
        slots[index] = PossibleItem(Some(rest));
    }
}

/// Moves one item of what slot `index` of `slots` holds onto `belt`; the
/// rest stays in the slot.
pub fn move_to_belt(slots: &mut [PossibleItem], index: usize, belt: &mut TransportBelt)
    requires
        index < old(slots)@.len(),
    ensures
        final(belt).item_progress == old(belt).item_progress,
        final(belt).direction == old(belt).direction,
        match old(slots)@[index as int].0 {
            Some(item) => match first_empty(old(belt).storage@, 0, 6) {
                Some(k) => {
                    &&& final(slots)@ == old(slots)@.update(
                        index as int,
                        PossibleItem(
                            if item.count > 1 {
                                Some(Item { item_id: item.item_id, count: (item.count - 1) as u32 })
                            } else {
                                None
                            },
                        ),
                    )
                    &&& final(belt).storage@ == (if item.count == 0 {
                        old(belt).storage@
                    } else {
                        old(belt).storage@.update(
                            k,
                            PossibleItem(Some(Item { item_id: item.item_id, count: 1 })),
                        )
                    })
                },
                None => final(slots)@ == old(slots)@ && final(belt).storage@ == old(
                    belt,
                ).storage@,
            },
            None => final(slots)@ == old(slots)@ && final(belt).storage@ == old(belt).storage@,
        },
{
    let item = match slots[index].0.take() {
        Some(item) => item,
        None => {
            return ;
        },
    };
    let remainder = belt.add(&item, true);
    if let Some(rest) = remainder {
        slots[index] = PossibleItem(Some(rest));
    }
    assert(old(slots)@[index as int].0 == Some(item));
    assert(slots@ =~= old(slots)@.update(index as int, PossibleItem(remainder)));
}

} // verus!
