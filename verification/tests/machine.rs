use voxel_world::bytes::DecodeError;
use voxel_world::recipes::item::{Item, PossibleItem};
use voxel_world::recipes::recipe::{ActiveRecipe, Recipe, Recipes};
use voxel_world::voxels::voxel_data::assembling_machine::AssemblingMachine;
use voxel_world::world::global_coords::GlobalCoords;

fn catalog() -> Recipes {
    Recipes {
        all: vec![
            Recipe {
                id: 0,
                ingredients: vec![Item::new(1, 2), Item::new(2, 1)],
                result: Item::new(10, 1),
                duration: 500,
            },
            Recipe { id: 1, ingredients: vec![Item::new(3, 4)], result: Item::new(11, 2), duration: 0 },
            Recipe {
                id: 2,
                ingredients: vec![Item::new(1, 1), Item::new(1, 1), Item::new(1, 1)],
                result: Item::new(12, 1),
                duration: 100,
            },
        ],
    }
}

fn slots(machine: &AssemblingMachine) -> Vec<Option<(u32, u32)>> {
    machine.storage().iter().map(|s| s.0.map(|i| (i.id(), i.count))).collect()
}

#[test]
fn new_machine_is_empty() {
    let machine = AssemblingMachine::new(vec![GlobalCoords(1, 2, 3)]);
    assert_eq!(slots(&machine), vec![None, None, None, None]);
    assert_eq!(machine.structure_coordinates(), &[GlobalCoords(1, 2, 3)]);
    assert!(machine.selected_recipe(&catalog()).is_none());
    assert!(machine.active_recipe.is_none());
}

#[test]
fn machine_without_recipe_takes_nothing() {
    let mut machine = AssemblingMachine::new(vec![]);
    assert_eq!(machine.add(&Item::new(1, 5), true, &catalog()), Some(Item::new(1, 5)));
    assert_eq!(slots(&machine), vec![None, None, None, None]);
}

#[test]
fn add_goes_to_the_slot_of_the_ingredient() {
    let recipes = catalog();
    let mut machine = AssemblingMachine::new(vec![]);
    machine.select_recipe(0, &recipes);
    assert_eq!(machine.selected_recipe(&recipes).unwrap().id, 0);
    assert_eq!(machine.add(&Item::new(2, 7), true, &recipes), None);
    assert_eq!(slots(&machine), vec![None, Some((2, 7)), None, None]);
    assert_eq!(machine.add(&Item::new(1, 3), false, &recipes), None);
    assert_eq!(slots(&machine), vec![Some((1, 3)), Some((2, 7)), None, None]);
    assert_eq!(machine.add(&Item::new(9, 1), true, &recipes), Some(Item::new(9, 1)));
    assert_eq!(machine.add(&Item::new(10, 1), true, &recipes), Some(Item::new(10, 1)));
}

#[test]
fn add_spills_over_to_the_next_slot_of_the_same_kind() {
    let recipes = catalog();
    let mut machine = AssemblingMachine::new(vec![]);
    machine.select_recipe(2, &recipes);
    machine.mut_storage()[0] = PossibleItem::new(Item::new(1, u32::MAX - 1));
    assert_eq!(machine.add(&Item::new(1, 5), true, &recipes), None);
    assert_eq!(slots(&machine), vec![Some((1, u32::MAX)), Some((1, 4)), None, None]);
    machine.mut_storage()[1] = PossibleItem::new(Item::new(1, u32::MAX));
    machine.mut_storage()[2] = PossibleItem::new(Item::new(1, u32::MAX - 2));
    assert_eq!(machine.add(&Item::new(1, 5), true, &recipes), Some(Item::new(1, 3)));
    assert_eq!(slots(&machine), vec![Some((1, u32::MAX)), Some((1, u32::MAX)), Some((1, u32::MAX)), None]);
}

#[test]
fn is_item_exist_sums_the_ingredient_slots() {
    let mut machine = AssemblingMachine::new(vec![]);
    machine.mut_storage()[0] = PossibleItem::new(Item::new(1, 2));
    machine.mut_storage()[1] = PossibleItem::new(Item::new(2, 9));
    machine.mut_storage()[2] = PossibleItem::new(Item::new(1, 3));
    machine.mut_storage()[3] = PossibleItem::new(Item::new(1, 100));
    assert!(machine.is_item_exist(&Item::new(1, 5)));
    assert!(!machine.is_item_exist(&Item::new(1, 6)));
    assert!(machine.is_item_exist(&Item::new(2, 9)));
    assert!(!machine.is_item_exist(&Item::new(3, 1)));
    assert!(machine.is_item_exist(&Item::new(3, 0)));
    machine.mut_storage()[0] = PossibleItem::new(Item::new(1, u32::MAX));
    machine.mut_storage()[2] = PossibleItem::new(Item::new(1, u32::MAX));
    assert!(machine.is_item_exist(&Item::new(1, u32::MAX)));
}

#[test]
fn remove_takes_from_the_slots_in_order() {
    let mut machine = AssemblingMachine::new(vec![]);
    machine.mut_storage()[0] = PossibleItem::new(Item::new(1, 2));
    machine.mut_storage()[1] = PossibleItem::new(Item::new(2, 9));
    machine.mut_storage()[2] = PossibleItem::new(Item::new(1, 3));
    machine.mut_storage()[3] = PossibleItem::new(Item::new(1, 100));
    assert_eq!(machine.remove(&Item::new(1, 4)), None);
    assert_eq!(slots(&machine), vec![None, Some((2, 9)), Some((1, 1)), Some((1, 100))]);
    assert_eq!(machine.remove(&Item::new(1, 4)), Some(Item::new(1, 3)));
    assert_eq!(slots(&machine), vec![None, Some((2, 9)), None, Some((1, 100))]);
    assert_eq!(machine.remove(&Item::new(2, 9)), None);
    assert_eq!(machine.remove(&Item::new(2, 0)), None);
    assert_eq!(slots(&machine), vec![None, None, None, Some((1, 100))]);
}

#[test]
fn take_first_existing_draws_from_the_result_slot() {
    let mut machine = AssemblingMachine::new(vec![]);
    machine.mut_storage()[0] = PossibleItem::new(Item::new(1, 2));
    assert_eq!(machine.take_first_existing(5), None);
    machine.mut_storage()[3] = PossibleItem::new(Item::new(10, 7));
    assert_eq!(machine.take_first_existing(0), None);
    assert_eq!(machine.take_first_existing(5), Some((Item::new(10, 5), 3)));
    assert_eq!(machine.take_first_existing(5), Some((Item::new(10, 2), 3)));
    assert_eq!(machine.take_first_existing(5), None);
    assert_eq!(slots(&machine), vec![Some((1, 2)), None, None, None]);
}

#[test]
fn select_recipe_evicts_the_slots_and_the_craft() {
    let recipes = catalog();
    let mut machine = AssemblingMachine::new(vec![]);
    let (evicted, refund) = machine.select_recipe(0, &recipes);
    assert!(evicted.iter().all(|s| s.0.is_none()));
    assert!(refund.is_empty());
    machine.add(&Item::new(1, 3), true, &recipes);
    machine.add(&Item::new(2, 1), true, &recipes);
    machine.update(&recipes, 1000);
    assert_eq!(machine.active_recipe, Some(ActiveRecipe { recipe_id: 0, finish_at: 1500 }));
    assert_eq!(slots(&machine), vec![Some((1, 1)), None, None, None]);
    let (evicted, refund) = machine.select_recipe(1, &recipes);
    assert_eq!(evicted[0], PossibleItem::new(Item::new(1, 1)));
    assert!(evicted[1..].iter().all(|s| s.0.is_none()));
    assert_eq!(refund, vec![Item::new(1, 2), Item::new(2, 1)]);
    assert_eq!(machine.selected_recipe(&recipes).unwrap().id, 1);
    assert!(machine.active_recipe.is_none());
    assert_eq!(slots(&machine), vec![None, None, None, None]);
}

#[test]
fn update_starts_and_delivers_a_craft() {
    let recipes = catalog();
    let mut machine = AssemblingMachine::new(vec![]);
    machine.select_recipe(0, &recipes);
    machine.update(&recipes, 0);
    assert!(machine.active_recipe.is_none());
    machine.add(&Item::new(1, 2), true, &recipes);
    machine.update(&recipes, 10);
    assert!(machine.active_recipe.is_none());
    machine.add(&Item::new(2, 1), true, &recipes);
    machine.update(&recipes, 20);
    assert_eq!(machine.active_recipe, Some(ActiveRecipe { recipe_id: 0, finish_at: 520 }));
    assert_eq!(slots(&machine), vec![None, None, None, None]);
    machine.update(&recipes, 519);
    assert!(machine.active_recipe.is_some());
    machine.update(&recipes, 520);
    assert!(machine.active_recipe.is_none());
    assert_eq!(slots(&machine), vec![None, None, None, Some((10, 1))]);
}

#[test]
fn update_waits_while_the_result_slot_has_no_room() {
    let recipes = catalog();
    let mut machine = AssemblingMachine::new(vec![]);
    machine.select_recipe(1, &recipes);
    machine.add(&Item::new(3, 4), true, &recipes);
    machine.mut_storage()[3] = PossibleItem::new(Item::new(99, 1));
    machine.update(&recipes, 7);
    assert_eq!(machine.active_recipe, Some(ActiveRecipe { recipe_id: 1, finish_at: 7 }));
    assert_eq!(slots(&machine), vec![None, None, None, Some((99, 1))]);
    machine.mut_storage()[3] = PossibleItem::new(Item::new(11, u32::MAX - 1));
    machine.update(&recipes, 8);
    assert!(machine.active_recipe.is_some());
    machine.mut_storage()[3] = PossibleItem::new(Item::new(11, u32::MAX - 2));
    machine.update(&recipes, 9);
    assert!(machine.active_recipe.is_none());
    assert_eq!(slots(&machine), vec![None, None, None, Some((11, u32::MAX))]);
}

#[test]
fn update_with_a_craft_of_no_duration_delivers_at_once() {
    let recipes = catalog();
    let mut machine = AssemblingMachine::new(vec![]);
    machine.select_recipe(1, &recipes);
    machine.add(&Item::new(3, 9), true, &recipes);
    machine.update(&recipes, 7);
    assert!(machine.active_recipe.is_none());
    assert_eq!(slots(&machine), vec![Some((3, 5)), None, None, Some((11, 2))]);
}

#[test]
fn start_recipe_counts_each_ingredient_by_itself() {
    let recipes = catalog();
    let mut machine = AssemblingMachine::new(vec![]);
    machine.mut_storage()[0] = PossibleItem::new(Item::new(1, 1));
    let craft = machine.start_recipe(&recipes.all[2], 50);
    assert_eq!(craft, Some(ActiveRecipe { recipe_id: 2, finish_at: 150 }));
    assert_eq!(slots(&machine), vec![None, None, None, None]);
    assert_eq!(machine.start_recipe(&recipes.all[2], 50), None);
}

#[test]
fn craft_end_saturates() {
    let recipes = catalog();
    assert_eq!(recipes.all[0].start(u64::MAX - 3), ActiveRecipe { recipe_id: 0, finish_at: u64::MAX });
    assert!(ActiveRecipe { recipe_id: 0, finish_at: 5 }.is_finished(5));
    assert!(!ActiveRecipe { recipe_id: 0, finish_at: 5 }.is_finished(4));
}

#[test]
fn encode_lays_out_header_slots_and_positions() {
    let recipes = catalog();
    let mut machine = AssemblingMachine::new(vec![GlobalCoords(1, -1, 256)]);
    machine.select_recipe(2, &recipes);
    machine.mut_storage()[1] = PossibleItem::new(Item::new(0x01020304, 5));
    let bytes = machine.encode_bytes();
    let mut expected: Vec<u8> = vec![
        2, 0, 0, 0, 255, 255, 255, 255, 36, 0, 0, 0, 12, 0, 0, 0,
    ];
    expected.extend([0; 9]);
    expected.extend([1, 4, 3, 2, 1, 5, 0, 0, 0]);
    expected.extend([0; 18]);
    expected.extend([1, 0, 0, 0, 255, 255, 255, 255, 0, 1, 0, 0]);
    assert_eq!(bytes, expected);
}

#[test]
fn machine_round_trip() {
    let recipes = catalog();
    let mut machine = AssemblingMachine::new(vec![
        GlobalCoords(i32::MIN, -1, 0),
        GlobalCoords(i32::MAX, 1, -196),
    ]);
    machine.select_recipe(0, &recipes);
    machine.add(&Item::new(1, 5), true, &recipes);
    machine.add(&Item::new(2, 1), true, &recipes);
    machine.update(&recipes, 40);
    machine.mut_storage()[3] = PossibleItem::new(Item::new(u32::MAX, u32::MAX));
    let read = AssemblingMachine::decode_bytes(&machine.encode_bytes(), &recipes, 40).unwrap();
    assert_eq!(read.storage, machine.storage);
    assert_eq!(read.structure_coordinates, machine.structure_coordinates);
    assert_eq!(read.selected_recipe, Some(0));
    assert_eq!(read.active_recipe, machine.active_recipe);
    let later = AssemblingMachine::decode_bytes(&machine.encode_bytes(), &recipes, 1000).unwrap();
    assert_eq!(later.active_recipe, Some(ActiveRecipe { recipe_id: 0, finish_at: 1500 }));
}

#[test]
fn machine_round_trip_without_recipes() {
    let recipes = catalog();
    let machine = AssemblingMachine::new(vec![]);
    let bytes = machine.encode_bytes();
    assert_eq!(bytes.len(), 52);
    assert_eq!(bytes[0..8], [255; 8]);
    let read = AssemblingMachine::decode_bytes(&bytes, &recipes, 0).unwrap();
    assert_eq!(read.selected_recipe, None);
    assert_eq!(read.active_recipe, None);
    assert_eq!(read.storage, machine.storage);
    assert!(read.structure_coordinates.is_empty());
}

#[test]
fn decode_ignores_bytes_after_the_sections() {
    let recipes = catalog();
    let mut bytes = AssemblingMachine::new(vec![GlobalCoords(7, 8, 9)]).encode_bytes();
    bytes.extend([9, 9, 9]);
    let read = AssemblingMachine::decode_bytes(&bytes, &recipes, 0).unwrap();
    assert_eq!(read.structure_coordinates, vec![GlobalCoords(7, 8, 9)]);
}

#[test]
fn decode_faults() {
    let recipes = catalog();
    let good = AssemblingMachine::new(vec![GlobalCoords(7, 8, 9)]).encode_bytes();
    let fault = |bytes: &[u8]| AssemblingMachine::decode_bytes(bytes, &recipes, 0).err();
    assert_eq!(fault(&good), None);
    assert_eq!(fault(&[]), Some(DecodeError::UnexpectedEnd));
    assert_eq!(fault(&good[..15]), Some(DecodeError::UnexpectedEnd));
    assert_eq!(fault(&good[..63]), Some(DecodeError::UnexpectedEnd));
    let mut bytes = good.clone();
    bytes[0..4].copy_from_slice(&[3, 0, 0, 0]);
    assert_eq!(fault(&bytes), Some(DecodeError::UnknownRecipe));
    let mut bytes = good.clone();
    bytes[4..8].copy_from_slice(&[254, 255, 255, 255]);
    assert_eq!(fault(&bytes), Some(DecodeError::UnknownRecipe));
    let mut bytes = good.clone();
    bytes[8] = 35;
    assert_eq!(fault(&bytes), Some(DecodeError::BadStorageLength));
    let mut bytes = good.clone();
    bytes[12] = 11;
    assert_eq!(fault(&bytes), Some(DecodeError::BadStructureLength));
    let mut bytes = good.clone();
    bytes[12] = 24;
    assert_eq!(fault(&bytes), Some(DecodeError::UnexpectedEnd));
    let mut bytes = good.clone();
    bytes[12..16].copy_from_slice(&[252, 255, 255, 255]);
    assert_eq!(fault(&bytes), Some(DecodeError::UnexpectedEnd));
    let mut bytes = good.clone();
    bytes[16 + 27] = 2;
    assert_eq!(fault(&bytes), Some(DecodeError::BadSlotTag));
}
