use voxel_world::bytes::{
    push_coords, push_i32, push_slot, push_u32, read_coords, read_i32, read_slot, read_u32,
    DecodeError,
};
use voxel_world::gui::{
    hotbar_task, inventory_row_len, inventory_rows, inventory_task, move_to_belt, move_to_machine,
    next_debug_block, Task,
};
use voxel_world::input_event::{key_id, mouse_id, MouseButton};
use voxel_world::recipes::item::{Item, PossibleItem};
use voxel_world::recipes::recipe::{Recipe, Recipes};
use voxel_world::recipes::storage;
use voxel_world::voxels::voxel_data::assembling_machine::AssemblingMachine;
use voxel_world::voxels::voxel_data::transport_belt::TransportBelt;
use voxel_world::world::global_coords::GlobalCoords;

#[test]
fn item_counts() {
    let mut item = Item::new(3, 10);
    assert_eq!(item.id(), 3);
    item.sub_count(4);
    assert_eq!(item.count, 6);
    item.sub_count(7);
    assert_eq!(item.count, 0);
    assert_eq!(Item::from(&Item::new(1, 2)), Item::new(1, 2));
}

#[test]
fn item_try_add() {
    let mut item = Item::new(3, 10);
    assert_eq!(item.try_add(&Item::new(3, 5)), None);
    assert_eq!(item, Item::new(3, 15));
    assert_eq!(item.try_add(&Item::new(4, 5)), Some(Item::new(4, 5)));
    assert_eq!(item.try_add(&Item::new(4, 0)), None);
    assert_eq!(item.try_add(&Item::new(3, u32::MAX)), Some(Item::new(3, 15)));
    assert_eq!(item, Item::new(3, u32::MAX));
}

#[test]
fn slot_add() {
    let mut slot = PossibleItem::new_none();
    assert!(slot.is_possible_add(&Item::new(1, 5)));
    assert_eq!(slot.try_add_item(&Item::new(1, 0)), None);
    assert_eq!(slot, PossibleItem::new_none());
    assert_eq!(slot.try_add_item(&Item::new(1, 5)), None);
    assert_eq!(slot, PossibleItem::new(Item::new(1, 5)));
    assert!(!slot.is_possible_add(&Item::new(2, 1)));
    assert!(slot.is_possible_add(&Item::new(2, 0)));
    assert_eq!(slot.try_add_item(&Item::new(2, 1)), Some(Item::new(2, 1)));
    assert!(slot.is_possible_add(&Item::new(1, u32::MAX - 5)));
    assert!(!slot.is_possible_add(&Item::new(1, u32::MAX - 4)));
    assert_eq!(slot.try_add_item(&Item::new(1, u32::MAX - 4)), Some(Item::new(1, 1)));
    assert_eq!(slot, PossibleItem::new(Item::new(1, u32::MAX)));
}

#[test]
fn slot_sub() {
    let mut slot = PossibleItem::new(Item::new(1, 5));
    assert_eq!(slot.contains(1), 5);
    assert_eq!(slot.contains(2), 0);
    assert_eq!(slot.try_sub_item(&Item::new(2, 1)), Some(Item::new(2, 1)));
    assert_eq!(slot.try_sub_item(&Item::new(1, 2)), None);
    assert_eq!(slot, PossibleItem::new(Item::new(1, 3)));
    assert_eq!(slot.try_sub_item(&Item::new(1, 0)), None);
    assert_eq!(slot.try_sub_item(&Item::new(1, 4)), Some(Item::new(1, 1)));
    assert_eq!(slot, PossibleItem::new_none());
    assert_eq!(slot.contains(1), 0);
    assert_eq!(slot.try_sub_item(&Item::new(1, 4)), Some(Item::new(1, 4)));
    let mut exact = PossibleItem::new(Item::new(1, 4));
    assert_eq!(exact.try_sub_item(&Item::new(1, 4)), None);
    assert_eq!(exact, PossibleItem::new_none());
}

#[test]
fn slot_take() {
    let mut slot = PossibleItem::new(Item::new(1, 5));
    assert_eq!(slot.try_take(0), None);
    assert_eq!(slot.try_take(2), Some(Item::new(1, 2)));
    assert_eq!(slot.try_take(3), Some(Item::new(1, 3)));
    assert_eq!(slot, PossibleItem::new_none());
    assert_eq!(slot.try_take(3), None);
    let mut slot = PossibleItem::new(Item::new(1, 5));
    assert_eq!(slot.try_take(u32::MAX), Some(Item::new(1, 5)));
}

#[test]
fn catalog_lookup() {
    let recipes = Recipes { all: vec![] };
    assert!(recipes.get(0).is_none());
    assert!(recipes.get(u32::MAX).is_none());
}

#[test]
fn numbers_are_written_lowest_byte_first() {
    let mut out = vec![9];
    push_u32(&mut out, 0x0a0b0c0d);
    push_i32(&mut out, -2);
    push_i32(&mut out, i32::MIN);
    assert_eq!(out, vec![9, 13, 12, 11, 10, 254, 255, 255, 255, 0, 0, 0, 128]);
    assert_eq!(read_u32(&out, 1), 0x0a0b0c0d);
    assert_eq!(read_i32(&out, 5), -2);
    assert_eq!(read_i32(&out, 9), i32::MIN);
    assert_eq!(read_u32(&out, 5), 0xffff_fffe);
    assert_eq!(read_i32(&out, 1), 0x0a0b0c0d);
}

#[test]
fn slots_are_nine_bytes() {
    let mut out = Vec::new();
    push_slot(&mut out, &PossibleItem::new_none());
    push_slot(&mut out, &PossibleItem::new(Item::new(513, 3)));
    assert_eq!(out, vec![0, 0, 0, 0, 0, 0, 0, 0, 0, 1, 1, 2, 0, 0, 3, 0, 0, 0]);
    assert_eq!(read_slot(&out, 0), Ok(PossibleItem::new_none()));
    assert_eq!(read_slot(&out, 9), Ok(PossibleItem::new(Item::new(513, 3))));
    assert_eq!(read_slot(&out, 5), Ok(PossibleItem::new_none()));
    assert_eq!(read_slot(&out, 8), Ok(PossibleItem::new_none()));
    assert_eq!(read_slot(&out, 1), Ok(PossibleItem::new_none()));
    out[9] = 2;
    assert_eq!(read_slot(&out, 9), Err(DecodeError::BadSlotTag));
}

#[test]
fn positions_are_twelve_bytes() {
    let mut out = Vec::new();
    push_coords(&mut out, &GlobalCoords(1, -1, 65536));
    assert_eq!(out, vec![1, 0, 0, 0, 255, 255, 255, 255, 0, 0, 1, 0]);
    assert_eq!(read_coords(&out, 0), GlobalCoords(1, -1, 65536));
}

#[test]
fn ids_of_keys_and_mouse_buttons() {
    assert_eq!(key_id(0), 0);
    assert_eq!(key_id(162), 162);
    assert_eq!(mouse_id(MouseButton::Left), 256);
    assert_eq!(mouse_id(MouseButton::Right), 257);
    assert_eq!(mouse_id(MouseButton::Middle), 258);
    assert_eq!(mouse_id(MouseButton::Other(0)), 259);
    assert_eq!(mouse_id(MouseButton::Other(u16::MAX)), 259 + 65535);
}

#[test]
fn tasks_of_the_inventory_screen() {
    assert_eq!(hotbar_task(3, false), Task::Inventory(3));
    assert_eq!(hotbar_task(3, true), Task::Storage(3));
    assert_eq!(inventory_task(12, false), Task::Hotbar(12));
    assert_eq!(inventory_task(12, true), Task::Storage(12));
}

#[test]
fn rows_of_the_inventory_screen() {
    assert_eq!(inventory_rows(50), 5);
    assert_eq!(inventory_rows(9), 0);
    assert_eq!(inventory_row_len(50, 1), 10);
    assert_eq!(inventory_row_len(50, 4), 10);
    assert_eq!(inventory_row_len(50, 5), 0);
    assert_eq!(inventory_row_len(37, 3), 7);
    assert_eq!(inventory_row_len(37, 2), 10);
}

#[test]
fn debug_block_steps_through_the_ids() {
    assert_eq!(next_debug_block(None), Some(0));
    assert_eq!(next_debug_block(Some(0)), Some(1));
    assert_eq!(next_debug_block(Some(16)), Some(17));
    assert_eq!(next_debug_block(Some(17)), None);
    assert_eq!(next_debug_block(Some(u32::MAX)), None);
}

#[test]
fn moving_a_slot_into_a_machine_leaves_the_rest() {
    let recipes = Recipes {
        all: vec![Recipe { id: 0, ingredients: vec![Item::new(1, 1)], result: Item::new(2, 1), duration: 1 }],
    };
    let mut machine = AssemblingMachine::new(vec![]);
    let mut slots = [PossibleItem::new(Item::new(1, 5)), PossibleItem::new_none()];
    move_to_machine(&mut slots, 0, &mut machine, &recipes);
    assert_eq!(slots[0], PossibleItem::new(Item::new(1, 5)));
    machine.select_recipe(0, &recipes);
    move_to_machine(&mut slots, 1, &mut machine, &recipes);
    move_to_machine(&mut slots, 0, &mut machine, &recipes);
    assert_eq!(slots[0], PossibleItem::new_none());
    assert_eq!(machine.storage[0], PossibleItem::new(Item::new(1, 5)));
    slots[1] = PossibleItem::new(Item::new(7, 2));
    move_to_machine(&mut slots, 1, &mut machine, &recipes);
    assert_eq!(slots[1], PossibleItem::new(Item::new(7, 2)));
}

#[test]
fn moving_a_slot_onto_a_belt_moves_one_item() {
    let mut belt = TransportBelt::new([1, 0, 0]);
    let mut slots = [PossibleItem::new(Item::new(1, 2))];
    move_to_belt(&mut slots, 0, &mut belt);
    assert_eq!(slots[0], PossibleItem::new(Item::new(1, 1)));
    assert_eq!(belt.storage[0], PossibleItem::new(Item::new(1, 1)));
    move_to_belt(&mut slots, 0, &mut belt);
    assert_eq!(slots[0], PossibleItem::new_none());
    assert_eq!(belt.storage[1], PossibleItem::new(Item::new(1, 1)));
    move_to_belt(&mut slots, 0, &mut belt);
    assert_eq!(belt.storage[2], PossibleItem::new_none());
    for i in 2..6 {
        belt.storage[i] = PossibleItem::new(Item::new(9, 1));
    }
    slots[0] = PossibleItem::new(Item::new(1, 3));
    move_to_belt(&mut slots, 0, &mut belt);
    assert_eq!(slots[0], PossibleItem::new(Item::new(1, 3)));
}

fn held(slots: &[PossibleItem]) -> Vec<Option<(u32, u32)>> {
    slots.iter().map(|s| s.0.map(|i| (i.id(), i.count))).collect()
}

#[test]
fn slot_with_a_count_of_zero_gives_nothing() {
    let mut slot = PossibleItem::new(Item::new(1, 0));
    assert_eq!(slot.try_take(5), None);
    assert_eq!(slot, PossibleItem::new(Item::new(1, 0)));
    let mut belt = TransportBelt::new([1, 0, 0]);
    belt.storage[2] = PossibleItem::new(Item::new(1, 0));
    belt.storage[4] = PossibleItem::new(Item::new(2, 3));
    assert_eq!(belt.take_nearest(9, &[0, 0, 0, 0, 0, 0]), Some((Item::new(2, 3), 4)));
    assert_eq!(belt.take_nearest(9, &[0, 0, 0, 0, 0, 0]), None);
}

#[test]
fn storage_counts_items_across_its_slots() {
    let slots = [
        PossibleItem::new(Item::new(1, u32::MAX)),
        PossibleItem::new(Item::new(2, 4)),
        PossibleItem::new_none(),
        PossibleItem::new(Item::new(1, 7)),
    ];
    assert!(storage::is_item_exist(&slots, &Item::new(1, u32::MAX)));
    assert!(storage::is_item_exist(&slots, &Item::new(2, 4)));
    assert!(!storage::is_item_exist(&slots, &Item::new(2, 5)));
    assert!(!storage::is_item_exist(&slots, &Item::new(3, 1)));
    assert!(storage::is_item_exist(&slots, &Item::new(3, 0)));
    assert!(storage::is_item_exist(&slots[1..], &Item::new(1, 7)));
    assert!(!storage::is_item_exist(&slots[1..], &Item::new(1, 8)));
    assert!(!storage::is_item_exist(&[], &Item::new(1, 1)));
}

#[test]
fn storage_removes_in_slot_order() {
    let mut slots = [
        PossibleItem::new(Item::new(1, 2)),
        PossibleItem::new(Item::new(2, 4)),
        PossibleItem::new(Item::new(1, 7)),
    ];
    assert_eq!(storage::remove(&mut slots, &Item::new(1, 5)), None);
    assert_eq!(held(&slots), vec![None, Some((2, 4)), Some((1, 4))]);
    assert_eq!(storage::remove(&mut slots, &Item::new(1, 6)), Some(Item::new(1, 2)));
    assert_eq!(held(&slots), vec![None, Some((2, 4)), None]);
    assert_eq!(storage::remove(&mut slots, &Item::new(9, 0)), None);
}

#[test]
fn storage_adds_in_slot_order() {
    let mut slots = [
        PossibleItem::new(Item::new(2, 4)),
        PossibleItem::new(Item::new(1, u32::MAX - 1)),
        PossibleItem::new_none(),
    ];
    assert_eq!(storage::add(&mut slots, &Item::new(1, 3)), None);
    assert_eq!(held(&slots), vec![Some((2, 4)), Some((1, u32::MAX)), Some((1, 2))]);
    assert_eq!(storage::add(&mut slots, &Item::new(3, 1)), Some(Item::new(3, 1)));
    assert_eq!(storage::add(&mut slots, &Item::new(1, u32::MAX)), Some(Item::new(1, 2)));
    assert_eq!(held(&slots), vec![Some((2, 4)), Some((1, u32::MAX)), Some((1, u32::MAX))]);
}

#[test]
fn storage_takes_from_the_first_slot_that_gives() {
    let mut slots = [
        PossibleItem::new_none(),
        PossibleItem::new(Item::new(1, 0)),
        PossibleItem::new(Item::new(2, 4)),
        PossibleItem::new(Item::new(3, 1)),
    ];
    assert_eq!(storage::take_first_existing(&mut slots, 0), None);
    assert_eq!(storage::take_first_existing(&mut slots, 3), Some((Item::new(2, 3), 2)));
    assert_eq!(storage::take_first_existing(&mut slots, 3), Some((Item::new(2, 1), 2)));
    assert_eq!(storage::take_first_existing(&mut slots, 3), Some((Item::new(3, 1), 3)));
    assert_eq!(storage::take_first_existing(&mut slots, 3), None);
    assert_eq!(held(&slots), vec![None, Some((1, 0)), None, None]);
}

#[test]
fn storage_moves_a_slot_to_the_first_empty_one() {
    let mut slots = [
        PossibleItem::new(Item::new(1, 1)),
        PossibleItem::new_none(),
        PossibleItem::new(Item::new(2, 2)),
        PossibleItem::new_none(),
    ];
    assert!(storage::move_to_first_empty(&mut slots, 0, 2, 4));
    assert_eq!(held(&slots), vec![None, None, Some((2, 2)), Some((1, 1))]);
    assert!(!storage::move_to_first_empty(&mut slots, 0, 0, 4));
    assert!(!storage::move_to_first_empty(&mut slots, 2, 2, 4));
    assert!(storage::move_to_first_empty(&mut slots, 2, 0, 2));
    assert_eq!(held(&slots), vec![Some((2, 2)), None, None, Some((1, 1))]);
    assert!(!storage::move_to_first_empty(&mut slots, 3, 1, 1));
}

#[test]
fn belt_counts_and_removes_across_both_lanes() {
    let mut belt = TransportBelt::new([1, 0, 0]);
    belt.storage[0] = PossibleItem::new(Item::new(1, 1));
    belt.storage[3] = PossibleItem::new(Item::new(2, 1));
    belt.storage[5] = PossibleItem::new(Item::new(1, 1));
    assert!(belt.is_item_exist(&Item::new(1, 2)));
    assert!(!belt.is_item_exist(&Item::new(1, 3)));
    assert_eq!(belt.remove(&Item::new(1, 3)), Some(Item::new(1, 1)));
    assert_eq!(held(&belt.storage), vec![None, None, None, Some((2, 1)), None, None]);
    assert_eq!(belt.remove(&Item::new(2, 1)), None);
    assert_eq!(belt.item_progress, [0; 6]);
}

#[test]
fn storage_moves_a_slot_into_other_slots() {
    let mut from = [PossibleItem::new(Item::new(1, 5)), PossibleItem::new_none()];
    let mut into = [PossibleItem::new(Item::new(2, 1)), PossibleItem::new(Item::new(1, u32::MAX - 2))];
    storage::move_into(&mut from, 1, &mut into);
    storage::move_into(&mut from, 0, &mut into);
    assert_eq!(held(&from), vec![Some((1, 3)), None]);
    assert_eq!(held(&into), vec![Some((2, 1)), Some((1, u32::MAX))]);
    let mut room = [PossibleItem::new_none()];
    storage::move_into(&mut from, 0, &mut room);
    assert_eq!(held(&from), vec![None, None]);
    assert_eq!(held(&room), vec![Some((1, 3))]);
}

#[test]
fn storage_starts_a_craft_from_its_slots() {
    let recipe = Recipe {
        id: 4,
        ingredients: vec![Item::new(1, 2), Item::new(2, 1)],
        result: Item::new(9, 1),
        duration: 30,
    };
    let mut slots = [
        PossibleItem::new(Item::new(1, 1)),
        PossibleItem::new(Item::new(2, 5)),
        PossibleItem::new(Item::new(1, 1)),
    ];
    let craft = storage::start_recipe(&mut slots, &recipe, 100).unwrap();
    assert_eq!((craft.recipe_id, craft.finish_at), (4, 130));
    assert_eq!(held(&slots), vec![None, Some((2, 4)), None]);
    assert!(storage::start_recipe(&mut slots, &recipe, 100).is_none());
    assert_eq!(held(&slots), vec![None, Some((2, 4)), None]);
}
