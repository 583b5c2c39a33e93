use voxel_world::recipes::item::Item;
use voxel_world::recipes::recipe::{ActiveRecipe, Recipe, Recipes};
use voxel_world::threads::save::{SaveAction, SavePass, SaveStage, SaveState};
use voxel_world::threads::voxel_data_updater::{sleep_millis, tick, TICK_PERIOD};
use voxel_world::voxels::chunk::Chunk;
use voxel_world::voxels::chunks::Chunks;
use voxel_world::voxels::voxel_data::assembling_machine::AssemblingMachine;
use voxel_world::voxels::voxel_data::transport_belt::{TransportBelt, TransportBeltSide};
use voxel_world::voxels::voxel_data::{VoxelAdditionalData, VoxelData};
use voxel_world::world::chunk_coords::ChunkCoords;
use voxel_world::world::global_coords::GlobalCoords;
use voxel_world::world::local_coords::LocalCoords;

fn run_pass(chunks: &mut Chunks) -> (Vec<SaveAction>, Vec<ChunkCoords>) {
    let mut pass = SavePass::new();
    let mut actions = Vec::new();
    let mut saved = Vec::new();
    loop {
        let action = pass.step(chunks);
        actions.push(action);
        match action {
            SaveAction::SaveEvicted(i) => saved.push(chunks.chunks_awaiting_deletion[i].xyz),
            SaveAction::SaveLive(i) => saved.push(chunks.chunks[i].as_ref().unwrap().xyz),
            SaveAction::FlushRegions => {}
            SaveAction::Done => break,
        }
        assert!(actions.len() < 1000);
    }
    (actions, saved)
}

#[test]
fn save_pass_flushes_the_queue_then_the_unsaved_chunks() {
    let mut chunks = Chunks::new(2, 1, 2, 0, 0);
    let mut evicted = Chunk::new(ChunkCoords(9, 0, 9));
    evicted.unsaved = true;
    chunks.chunks_awaiting_deletion.push(evicted);
    let mut live = Chunk::new(ChunkCoords(1, 0, 1));
    live.set_voxel(LocalCoords(1, 2, 3), 5);
    assert!(live.unsaved);
    chunks.load(live).unwrap();
    chunks.load(Chunk::new(ChunkCoords(0, 0, 0))).unwrap();

    let (actions, saved) = run_pass(&mut chunks);
    assert_eq!(
        actions,
        vec![
            SaveAction::SaveEvicted(0),
            SaveAction::SaveLive(3),
            SaveAction::FlushRegions,
            SaveAction::Done
        ]
    );
    assert_eq!(saved, vec![ChunkCoords(9, 0, 9), ChunkCoords(1, 0, 1)]);
    assert!(chunks.chunks_awaiting_deletion.is_empty());
    assert!(!chunks.chunks[3].as_ref().unwrap().unsaved);
    assert!(chunks.chunks.iter().flatten().all(|c| !c.unsaved));
}

#[test]
fn save_pass_clears_a_flag_only_after_the_chunk_was_handed_out() {
    let mut chunks = Chunks::new(3, 1, 1, 0, 0);
    for x in 0..3 {
        let mut chunk = Chunk::new(ChunkCoords(x, 0, 0));
        chunk.unsaved = x != 1;
        chunks.load(chunk).unwrap();
    }
    let mut pass = SavePass::new();
    assert_eq!(pass.step(&mut chunks), SaveAction::SaveLive(0));
    assert_eq!(pass.stage, SaveStage::Live { next: 1, saving: Some(0) });
    assert!(chunks.chunks[0].as_ref().unwrap().unsaved);
    assert_eq!(pass.step(&mut chunks), SaveAction::SaveLive(2));
    assert!(!chunks.chunks[0].as_ref().unwrap().unsaved);
    assert!(chunks.chunks[2].as_ref().unwrap().unsaved);
    assert_eq!(pass.step(&mut chunks), SaveAction::FlushRegions);
    assert!(!chunks.chunks[2].as_ref().unwrap().unsaved);
    assert_eq!(pass.stage, SaveStage::Finished);
    assert_eq!(pass.step(&mut chunks), SaveAction::Done);
    assert_eq!(pass.step(&mut chunks), SaveAction::Done);
}

#[test]
fn save_pass_keeps_the_queue_until_all_of_it_was_handed_out() {
    let mut chunks = Chunks::new(1, 1, 1, 0, 0);
    for x in 5..8 {
        chunks.chunks_awaiting_deletion.push(Chunk::new(ChunkCoords(x, 0, 0)));
    }
    let mut pass = SavePass::new();
    assert_eq!(pass.step(&mut chunks), SaveAction::SaveEvicted(0));
    assert_eq!(pass.step(&mut chunks), SaveAction::SaveEvicted(1));
    assert_eq!(chunks.chunks_awaiting_deletion.len(), 3);
    assert_eq!(pass.step(&mut chunks), SaveAction::SaveEvicted(2));
    assert_eq!(chunks.chunks_awaiting_deletion.len(), 3);
    assert_eq!(pass.step(&mut chunks), SaveAction::FlushRegions);
    assert!(chunks.chunks_awaiting_deletion.is_empty());
}

#[test]
fn save_pass_over_an_empty_world() {
    let mut chunks = Chunks::new(0, 0, 0, 0, 0);
    let (actions, saved) = run_pass(&mut chunks);
    assert_eq!(actions, vec![SaveAction::FlushRegions, SaveAction::Done]);
    assert!(saved.is_empty());
}

#[test]
fn save_state_after_a_pass() {
    assert_eq!(SaveState::Unsaved.after_pass(), Some(SaveState::Saved));
    assert_eq!(SaveState::Saved.after_pass(), Some(SaveState::Saved));
    assert_eq!(SaveState::WorldExit.after_pass(), None);
    assert!(SaveState::Unsaved < SaveState::Saved && SaveState::Saved < SaveState::WorldExit);
}

#[test]
fn mark_saved_outside_the_array_does_nothing() {
    let mut chunks = Chunks::new(1, 1, 1, 0, 0);
    chunks.mark_saved(0);
    chunks.mark_saved(7);
    assert!(chunks.chunks[0].is_none());
}

#[test]
fn tick_sleep_fills_the_period() {
    assert_eq!(TICK_PERIOD, 100);
    assert_eq!(sleep_millis(0), 100);
    assert_eq!(sleep_millis(37), 63);
    assert_eq!(sleep_millis(100), 0);
    assert_eq!(sleep_millis(101), 0);
    assert_eq!(sleep_millis(u64::MAX), 0);
}

fn world_with_a_machine() -> (Chunks, Recipes) {
    let recipes = Recipes {
        all: vec![Recipe { id: 0, ingredients: vec![Item::new(1, 1)], result: Item::new(2, 1), duration: 50 }],
    };
    let mut machine = AssemblingMachine::new(vec![GlobalCoords(1, 1, 1)]);
    machine.select_recipe(0, &recipes);
    machine.add(&Item::new(1, 1), true, &recipes);
    let mut chunk = Chunk::new(ChunkCoords(0, 0, 0));
    chunk.add_voxel_data(VoxelData {
        id: 20,
        global_coords: GlobalCoords(1, 1, 1),
        additionally: VoxelAdditionalData::AssemblingMachine(machine),
    });
    chunk.add_voxel_data(VoxelData {
        id: 21,
        global_coords: GlobalCoords(2, 1, 1),
        additionally: VoxelAdditionalData::TransportBelt(TransportBelt::new([1, 0, 0])),
    });
    chunk.unsaved = false;
    let mut chunks = Chunks::new(2, 1, 1, 0, 0);
    chunks.load(chunk).unwrap();
    (chunks, recipes)
}

fn plus(a: u32, b: u32) -> u32 {
    (f32::from_bits(a) + f32::from_bits(b)).to_bits()
}

fn minus(a: u32, b: u32) -> u32 {
    (f32::from_bits(a) - f32::from_bits(b)).to_bits()
}

fn greater(a: u32, b: u32) -> bool {
    f32::from_bits(a) > f32::from_bits(b)
}

fn tick_at(chunks: &mut Chunks, recipes: &Recipes, now: u64) -> bool {
    tick(chunks, recipes, now, &plus, &minus, &greater)
}

fn machine_of(chunks: &Chunks) -> &AssemblingMachine {
    let chunk = chunks.chunk(ChunkCoords(0, 0, 0)).unwrap();
    chunk.voxel_data(GlobalCoords(1, 1, 1)).unwrap().additionally.assembling_machine().unwrap()
}

#[test]
fn tick_updates_the_machines_and_marks_changed_chunks() {
    let (mut chunks, recipes) = world_with_a_machine();
    assert!(tick_at(&mut chunks, &recipes, 1000));
    assert_eq!(machine_of(&chunks).active_recipe, Some(ActiveRecipe { recipe_id: 0, finish_at: 1050 }));
    assert!(chunks.chunks[0].as_ref().unwrap().unsaved);
    chunks.mark_saved(0);
    assert!(tick_at(&mut chunks, &recipes, 1020));
    assert!(!chunks.chunks[0].as_ref().unwrap().unsaved);
    assert!(tick_at(&mut chunks, &recipes, 1050));
    assert!(chunks.chunks[0].as_ref().unwrap().unsaved);
    assert!(machine_of(&chunks).active_recipe.is_none());
    assert_eq!(machine_of(&chunks).storage[3].0, Some(Item::new(2, 1)));
}

#[test]
fn tick_is_left_out_while_the_window_moves() {
    let (mut chunks, recipes) = world_with_a_machine();
    chunks.is_translate = true;
    assert!(!tick_at(&mut chunks, &recipes, 1000));
    assert!(machine_of(&chunks).active_recipe.is_none());
    assert!(!chunks.chunks[0].as_ref().unwrap().unsaved);
}

#[test]
fn chunk_voxels_and_special_voxels() {
    let mut chunk = Chunk::new(ChunkCoords(0, 0, 0));
    assert_eq!(chunk.voxels.len(), 4096);
    assert!(chunk.modified && !chunk.unsaved);
    chunk.modified = false;
    chunk.set_voxel(LocalCoords(1, 0, 0), 8);
    assert_eq!(chunk.voxel(LocalCoords(1, 0, 0)), 8);
    assert_eq!(chunk.voxels[1], 8);
    assert_eq!(chunk.voxel(LocalCoords(0, 1, 0)), 0);
    assert!(chunk.modified && chunk.unsaved);
    chunk.modified = false;
    chunk.unsaved = false;
    assert!(chunk.voxel_data(GlobalCoords(0, 0, 0)).is_none());
    let data = |id: u32, x: i32| VoxelData {
        id,
        global_coords: GlobalCoords(x, 0, 0),
        additionally: VoxelAdditionalData::Empty,
    };
    chunk.add_voxel_data(data(1, 0));
    assert!(chunk.modified && chunk.unsaved);
    chunk.add_voxel_data(data(2, 1));
    chunk.add_voxel_data(data(3, 0));
    assert_eq!(chunk.voxels_data.len(), 2);
    assert_eq!(chunk.voxel_data(GlobalCoords(0, 0, 0)).unwrap().id, 3);
    assert_eq!(chunk.voxel_data(GlobalCoords(1, 0, 0)).unwrap().id, 2);
    assert_eq!(chunk.voxel_data_place(GlobalCoords(1, 0, 0)), Some(1));
    assert!(chunk.is_well_formed());
    chunk.voxels_data.push(data(4, 1));
    assert!(!chunk.is_well_formed());
    chunk.voxels_data.pop();
    chunk.voxels.pop();
    assert!(!chunk.is_well_formed());
    assert!(chunk.voxel_data(GlobalCoords(0, 0, 0)).unwrap().additionally.transport_belt().is_none());
}

#[test]
fn translate_keeps_evicts_and_makes_room() {
    let mut chunks = Chunks::new(3, 1, 2, 0, 0);
    for z in 0..2 {
        for x in 0..3 {
            chunks.load(Chunk::new(ChunkCoords(x, 0, z))).unwrap();
        }
    }
    chunks.chunks_awaiting_deletion.push(Chunk::new(ChunkCoords(-5, 0, 0)));
    chunks.translate(1, 1);
    assert_eq!((chunks.ox, chunks.oz), (1, 1));
    assert!(!chunks.is_translate);
    let places: Vec<Option<ChunkCoords>> = chunks.chunks.iter().map(|c| c.as_ref().map(|c| c.xyz)).collect();
    assert_eq!(
        places,
        vec![Some(ChunkCoords(1, 0, 1)), Some(ChunkCoords(2, 0, 1)), None, None, None, None]
    );
    let queue: Vec<ChunkCoords> = chunks.chunks_awaiting_deletion.iter().map(|c| c.xyz).collect();
    assert_eq!(
        queue,
        vec![ChunkCoords(-5, 0, 0), ChunkCoords(0, 0, 0), ChunkCoords(1, 0, 0), ChunkCoords(2, 0, 0), ChunkCoords(0, 0, 1)]
    );
    assert_eq!(chunks.chunk(ChunkCoords(2, 0, 1)).unwrap().xyz, ChunkCoords(2, 0, 1));
    assert!(chunks.chunk(ChunkCoords(0, 0, 1)).is_none());
    assert_eq!(chunks.find_unloaded(), Some((2, 2)));
}

#[test]
fn translate_far_away_evicts_everything() {
    let mut chunks = Chunks::new(2, 2, 2, -1, -1);
    chunks.load(Chunk::new(ChunkCoords(-1, 1, 0))).unwrap();
    chunks.load(Chunk::new(ChunkCoords(0, 0, -1))).unwrap();
    chunks.translate(100, -100);
    assert!(chunks.chunks.iter().all(|c| c.is_none()));
    let queue: Vec<ChunkCoords> = chunks.chunks_awaiting_deletion.iter().map(|c| c.xyz).collect();
    assert_eq!(queue, vec![ChunkCoords(0, 0, -1), ChunkCoords(-1, 1, 0)]);
    chunks.translate(100, -100);
    assert_eq!(chunks.chunks_awaiting_deletion.len(), 2);
}

fn belt_voxel(x: i32, direction: [i8; 3]) -> VoxelData {
    VoxelData {
        id: 30,
        global_coords: GlobalCoords(x, 0, 0),
        additionally: VoxelAdditionalData::TransportBelt(TransportBelt::new(direction)),
    }
}

fn belt_of(chunks: &Chunks, x: i32) -> &TransportBelt {
    let coords = GlobalCoords(x, 0, 0);
    let chunk = chunks.chunk(ChunkCoords::from(coords)).unwrap();
    chunk.voxel_data(coords).unwrap().additionally.transport_belt().unwrap()
}

fn belt_mut(chunks: &mut Chunks, x: i32) -> &mut TransportBelt {
    let (slot, place) = chunks.find_belt(GlobalCoords(x, 0, 0)).unwrap();
    match &mut chunks.chunks[slot].as_mut().unwrap().voxels_data[place].additionally {
        VoxelAdditionalData::TransportBelt(belt) => belt,
        _ => unreachable!(),
    }
}

fn world_with_belts() -> Chunks {
    let mut chunks = Chunks::new(2, 1, 1, 0, 0);
    let mut left = Chunk::new(ChunkCoords(0, 0, 0));
    left.add_voxel_data(belt_voxel(14, [1, 0, 0]));
    left.add_voxel_data(belt_voxel(15, [1, 0, 0]));
    left.unsaved = false;
    let mut right = Chunk::new(ChunkCoords(1, 0, 0));
    right.add_voxel_data(belt_voxel(16, [1, 0, 0]));
    right.unsaved = false;
    chunks.load(left).unwrap();
    chunks.load(right).unwrap();
    chunks
}

#[test]
fn find_belt_looks_through_the_chunks() {
    let chunks = world_with_belts();
    assert_eq!(chunks.find_belt(GlobalCoords(14, 0, 0)), Some((0, 0)));
    assert_eq!(chunks.find_belt(GlobalCoords(15, 0, 0)), Some((0, 1)));
    assert_eq!(chunks.find_belt(GlobalCoords(16, 0, 0)), Some((1, 0)));
    assert_eq!(chunks.find_belt(GlobalCoords(17, 0, 0)), None);
    assert_eq!(chunks.find_belt(GlobalCoords(-1, 0, 0)), None);
    assert_eq!(chunks.find_belt(GlobalCoords(14, 16, 0)), None);
    let (chunks, _) = world_with_a_machine();
    assert_eq!(chunks.find_belt(GlobalCoords(1, 1, 1)), None);
    assert_eq!(chunks.find_belt(GlobalCoords(2, 1, 1)), Some((0, 1)));
}

#[test]
fn belt_target_is_one_step_along_x_and_z() {
    assert_eq!(Chunks::belt_target(GlobalCoords(1, 2, 3), &[1, 1, -1]), Some(GlobalCoords(2, 2, 2)));
    assert_eq!(Chunks::belt_target(GlobalCoords(1, 2, 3), &[0, 0, 0]), Some(GlobalCoords(1, 2, 3)));
    assert_eq!(Chunks::belt_target(GlobalCoords(i32::MAX, 2, 3), &[1, 0, 0]), None);
    assert_eq!(Chunks::belt_target(GlobalCoords(0, 2, i32::MIN), &[0, 0, -1]), None);
    assert_eq!(
        Chunks::belt_target(GlobalCoords(i32::MAX, 0, i32::MIN), &[-128, 0, 127]),
        Some(GlobalCoords(i32::MAX - 128, 0, i32::MIN + 127))
    );
}

#[test]
fn belt_carries_an_item_into_the_next_chunk() {
    let mut chunks = world_with_belts();
    assert_eq!(belt_mut(&mut chunks, 15).put(&Item::new(7, 1), TransportBeltSide::Left), None);
    for _ in 0..9 {
        assert!(chunks.update_belt(GlobalCoords(15, 0, 0), &plus, &minus, &greater));
    }
    assert_eq!(belt_of(&chunks, 15).storage[0].0, Some(Item::new(7, 1)));
    assert_eq!(f32::from_bits(belt_of(&chunks, 15).item_progress[0]), 0.9000001);
    assert!(chunks.chunks[0].as_ref().unwrap().unsaved);
    assert!(!chunks.chunks[1].as_ref().unwrap().unsaved);
    assert!(chunks.update_belt(GlobalCoords(15, 0, 0), &plus, &minus, &greater));
    assert_eq!(belt_of(&chunks, 15).storage[0].0, None);
    assert_eq!(belt_of(&chunks, 15).item_progress, [0; 6]);
    assert_eq!(belt_of(&chunks, 16).storage[0].0, Some(Item::new(7, 1)));
    assert_eq!(belt_of(&chunks, 16).item_progress, [0; 6]);
    assert!(chunks.chunks[1].as_ref().unwrap().unsaved);
    assert!(!chunks.update_belt(GlobalCoords(13, 0, 0), &plus, &minus, &greater));
}

#[test]
fn belt_at_the_end_of_the_line_keeps_its_item() {
    let mut chunks = world_with_belts();
    belt_mut(&mut chunks, 16).put(&Item::new(7, 1), TransportBeltSide::Right);
    for _ in 0..20 {
        chunks.update_belt(GlobalCoords(16, 0, 0), &plus, &minus, &greater);
    }
    assert_eq!(belt_of(&chunks, 16).storage[3].0, Some(Item::new(7, 1)));
    assert!(f32::from_bits(belt_of(&chunks, 16).item_progress[3]) > 1.9);
}

#[test]
fn belt_slots_keep_their_distance() {
    let mut belt = TransportBelt::new([1, 0, 0]);
    belt.put(&Item::new(1, 1), TransportBeltSide::Left);
    belt.put(&Item::new(2, 1), TransportBeltSide::Left);
    belt.put(&Item::new(3, 1), TransportBeltSide::Right);
    let progress = |belt: &TransportBelt| belt.item_progress.map(f32::from_bits);
    belt.update(None, &plus, &minus, &greater);
    assert_eq!(progress(&belt), [0.1, 0.0, 0.0, 0.1, 0.0, 0.0]);
    for _ in 0..3 {
        belt.update(None, &plus, &minus, &greater);
    }
    assert_eq!(progress(&belt), [0.4, 0.1, 0.0, 0.4, 0.0, 0.0]);
    belt.update(None, &plus, &minus, &greater);
    assert_eq!(progress(&belt), [0.5, 0.2, 0.0, 0.5, 0.0, 0.0]);
}

#[test]
fn belt_update_hands_both_leads_over() {
    let mut belt = TransportBelt::new([1, 0, 0]);
    let mut next = TransportBelt::new([1, 0, 0]);
    belt.put(&Item::new(1, 1), TransportBeltSide::Left);
    belt.put(&Item::new(2, 1), TransportBeltSide::Left);
    belt.put(&Item::new(3, 1), TransportBeltSide::Right);
    belt.item_progress[0] = 0.95f32.to_bits();
    belt.item_progress[1] = 0.5f32.to_bits();
    belt.item_progress[3] = 2.0f32.to_bits();
    belt.update(Some(&mut next), &plus, &minus, &greater);
    assert_eq!(belt.storage[0].0, Some(Item::new(2, 1)));
    assert_eq!(belt.storage[1].0, None);
    assert_eq!(belt.storage[3].0, None);
    assert_eq!(belt.item_progress.map(f32::from_bits), [0.6, 0.0, 0.0, 0.0, 0.0, 0.0]);
    assert_eq!(next.storage[0].0, Some(Item::new(1, 1)));
    assert_eq!(next.storage[3].0, Some(Item::new(3, 1)));
}

#[test]
fn tick_moves_belts_and_machines_in_one_pass() {
    let mut chunks = world_with_belts();
    let recipes = Recipes { all: vec![] };
    belt_mut(&mut chunks, 14).put(&Item::new(7, 1), TransportBeltSide::Left);
    for now in 0..10 {
        assert!(tick_at(&mut chunks, &recipes, now));
    }
    assert_eq!(belt_of(&chunks, 14).storage[0].0, None);
    assert_eq!(belt_of(&chunks, 15).storage[0].0, Some(Item::new(7, 1)));
    assert_eq!(f32::from_bits(belt_of(&chunks, 15).item_progress[0]), 0.1);
    for now in 10..19 {
        assert!(tick_at(&mut chunks, &recipes, now));
    }
    assert_eq!(belt_of(&chunks, 15).storage[0].0, None);
    assert_eq!(belt_of(&chunks, 16).storage[0].0, Some(Item::new(7, 1)));
    assert_eq!(f32::from_bits(belt_of(&chunks, 16).item_progress[0]), 0.1);
}
