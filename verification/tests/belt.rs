use voxel_world::bytes::DecodeError;
use voxel_world::recipes::item::{Item, PossibleItem};
use voxel_world::voxels::voxel_data::belt_model::{END, MIDDLE, SPACING, STEP};
use voxel_world::voxels::voxel_data::transport_belt::{by_distance, TransportBelt, TransportBeltSide};

fn slots(belt: &TransportBelt) -> Vec<Option<(u32, u32)>> {
    belt.storage().iter().map(|s| s.0.map(|i| (i.id(), i.count))).collect()
}

fn distances(progress: [f32; 6]) -> [u32; 6] {
    progress.map(|p| (p - 0.5).abs().to_bits())
}

fn minus(a: u32, b: u32) -> u32 {
    (f32::from_bits(a) - f32::from_bits(b)).to_bits()
}

#[test]
fn new_belt_is_empty() {
    let belt = TransportBelt::new([0, 0, 1]);
    assert_eq!(slots(&belt), vec![None; 6]);
    assert_eq!(belt.item_progress, [0; 6]);
    assert_eq!(belt.direction, [0, 0, 1]);
}

#[test]
fn rotation_index_of_each_direction() {
    assert_eq!(TransportBelt::new([0, 0, 1]).rotation_index(), 0);
    assert_eq!(TransportBelt::new([0, 0, -1]).rotation_index(), 1);
    assert_eq!(TransportBelt::new([1, 0, 0]).rotation_index(), 2);
    assert_eq!(TransportBelt::new([-1, 0, 0]).rotation_index(), 3);
    assert_eq!(TransportBelt::new([-1, 0, 1]).rotation_index(), 3);
    assert_eq!(TransportBelt::new([0, 0, 0]).rotation_index(), 2);
}

#[test]
fn put_fills_the_first_empty_slot_of_the_lane() {
    let mut belt = TransportBelt::new([1, 0, 0]);
    assert_eq!(belt.put(&Item::new(4, 3), TransportBeltSide::Right), None);
    assert_eq!(slots(&belt), vec![None, None, None, Some((4, 3)), None, None]);
    assert_eq!(belt.put(&Item::new(5, 1), TransportBeltSide::Right), None);
    assert_eq!(belt.put(&Item::new(6, 1), TransportBeltSide::Right), None);
    assert_eq!(belt.put(&Item::new(7, 2), TransportBeltSide::Right), Some(Item::new(7, 2)));
    assert_eq!(belt.put(&Item::new(7, 2), TransportBeltSide::Left), None);
    assert_eq!(
        slots(&belt),
        vec![Some((7, 2)), None, None, Some((4, 3)), Some((5, 1)), Some((6, 1))]
    );
    belt.mut_storage()[0] = PossibleItem::new_none();
    belt.mut_storage()[1] = PossibleItem::new(Item::new(1, 1));
    assert_eq!(belt.put(&Item::new(8, 1), TransportBeltSide::Left), None);
    assert_eq!(belt.storage()[0], PossibleItem::new(Item::new(8, 1)));
}

#[test]
fn add_places_one_item_and_returns_the_rest() {
    let mut belt = TransportBelt::new([1, 0, 0]);
    assert_eq!(belt.add(&Item::new(4, 3), true), Some(Item::new(4, 2)));
    assert_eq!(belt.add(&Item::new(5, 1), false), None);
    assert_eq!(belt.add(&Item::new(6, 0), true), None);
    assert_eq!(slots(&belt), vec![Some((4, 1)), Some((5, 1)), None, None, None, None]);
    for _ in 0..4 {
        assert_eq!(belt.add(&Item::new(4, 1), true), None);
    }
    assert_eq!(belt.add(&Item::new(4, 3), true), Some(Item::new(4, 3)));
    assert_eq!(belt.add(&Item::new(4, 0), true), Some(Item::new(4, 0)));
    assert_eq!(belt.add(&Item::new(4, 1), true), Some(Item::new(4, 1)));
}

#[test]
fn take_nearest_prefers_the_slot_with_the_least_distance() {
    let progress: [f32; 6] = [0.9, 0.45, 0.1, 0.7, 0.52, 0.0];
    let mut belt = TransportBelt::new([1, 0, 0]);
    for i in [0, 1, 2, 3, 5] {
        belt.mut_storage()[i] = PossibleItem::new(Item::new(i as u32, 4));
        belt.item_progress[i] = progress[i].to_bits();
    }
    belt.item_progress[4] = progress[4].to_bits();
    let keys = distances(progress);
    assert_eq!(belt.take_nearest(1, &keys), Some((Item::new(1, 1), 1)));
    assert_eq!(belt.item_progress[1], 0);
    assert_eq!(belt.storage()[1], PossibleItem::new(Item::new(1, 3)));
    assert_eq!(belt.take_nearest(9, &keys), Some((Item::new(1, 3), 1)));
    assert_eq!(belt.take_nearest(9, &keys), Some((Item::new(3, 4), 3)));
    assert_eq!(belt.take_nearest(9, &keys), Some((Item::new(0, 4), 0)));
    assert_eq!(belt.take_nearest(9, &keys), Some((Item::new(2, 4), 2)));
    assert_eq!(belt.take_nearest(9, &keys), Some((Item::new(5, 4), 5)));
    assert_eq!(belt.take_nearest(9, &keys), None);
    assert_eq!(belt.item_progress, [0, 0, 0, 0, progress[4].to_bits(), 0]);
}

#[test]
fn take_nearest_breaks_ties_by_slot_order() {
    let mut belt = TransportBelt::new([1, 0, 0]);
    belt.mut_storage()[4] = PossibleItem::new(Item::new(4, 1));
    belt.mut_storage()[2] = PossibleItem::new(Item::new(2, 1));
    let keys = [7, 7, 7, 7, 7, 7];
    assert_eq!(belt.take_nearest(1, &keys), Some((Item::new(2, 1), 2)));
    assert_eq!(belt.take_nearest(1, &keys), Some((Item::new(4, 1), 4)));
    belt.mut_storage()[0] = PossibleItem::new(Item::new(0, 1));
    assert_eq!(belt.take_nearest(0, &keys), None);
    assert_eq!(belt.storage()[0], PossibleItem::new(Item::new(0, 1)));
}

#[test]
fn take_nearest_orders_by_the_given_distances() {
    let mut belt = TransportBelt::new([1, 0, 0]);
    for i in 0..6 {
        belt.mut_storage()[i] = PossibleItem::new(Item::new(i as u32, 1));
    }
    let keys = [50, 40, u32::MAX, 0, 40, 1];
    let mut order = Vec::new();
    while let Some((_, index)) = belt.take_nearest(1, &keys) {
        order.push(index);
    }
    assert_eq!(order, vec![3, 5, 1, 4, 0, 2]);
}

#[test]
fn by_distance_orders_numbers() {
    assert_eq!(by_distance(1, 2), std::cmp::Ordering::Less);
    assert_eq!(by_distance(2, 2), std::cmp::Ordering::Equal);
    assert_eq!(by_distance(3, 2), std::cmp::Ordering::Greater);
}

#[test]
fn shift_lane_closes_up_one_lane() {
    let mut belt = TransportBelt::new([1, 0, 0]);
    for i in 0..6 {
        belt.mut_storage()[i] = PossibleItem::new(Item::new(i as u32, 1));
        belt.item_progress[i] = 10 + i as u32;
    }
    belt.shift_lane(TransportBeltSide::Left);
    assert_eq!(
        slots(&belt),
        vec![Some((1, 1)), Some((2, 1)), None, Some((3, 1)), Some((4, 1)), Some((5, 1))]
    );
    assert_eq!(belt.item_progress, [11, 12, 0, 13, 14, 15]);
    belt.shift_lane(TransportBeltSide::Right);
    assert_eq!(
        slots(&belt),
        vec![Some((1, 1)), Some((2, 1)), None, Some((4, 1)), Some((5, 1)), None]
    );
    assert_eq!(belt.item_progress, [11, 12, 0, 14, 15, 0]);
}

#[test]
fn hand_over_moves_the_lead_item_to_the_next_belt() {
    let mut belt = TransportBelt::new([1, 0, 0]);
    let mut next = TransportBelt::new([1, 0, 0]);
    belt.mut_storage()[0] = PossibleItem::new(Item::new(1, 1));
    belt.mut_storage()[1] = PossibleItem::new(Item::new(2, 1));
    belt.item_progress = [100, 60, 0, 0, 0, 0];
    assert!(!belt.hand_over(&mut next, TransportBeltSide::Left, false));
    assert!(!belt.hand_over(&mut next, TransportBeltSide::Right, true));
    assert_eq!(slots(&next), vec![None; 6]);
    assert!(belt.hand_over(&mut next, TransportBeltSide::Left, true));
    assert_eq!(slots(&belt), vec![Some((2, 1)), None, None, None, None, None]);
    assert_eq!(belt.item_progress, [60, 0, 0, 0, 0, 0]);
    assert_eq!(slots(&next), vec![Some((1, 1)), None, None, None, None, None]);
    assert_eq!(next.item_progress, [0; 6]);
}

#[test]
fn hand_over_waits_for_room_on_the_next_belt() {
    let mut belt = TransportBelt::new([1, 0, 0]);
    let mut next = TransportBelt::new([1, 0, 0]);
    belt.mut_storage()[3] = PossibleItem::new(Item::new(1, 1));
    for i in 3..6 {
        next.mut_storage()[i] = PossibleItem::new(Item::new(9, 1));
    }
    assert!(!belt.hand_over(&mut next, TransportBeltSide::Right, true));
    assert_eq!(belt.storage()[3], PossibleItem::new(Item::new(1, 1)));
    next.mut_storage()[4] = PossibleItem::new_none();
    assert!(belt.hand_over(&mut next, TransportBeltSide::Right, true));
    assert_eq!(next.storage()[4], PossibleItem::new(Item::new(1, 1)));
    assert_eq!(slots(&belt), vec![None; 6]);
}

#[test]
fn belt_encode_lays_out_progress_direction_and_slots() {
    let mut belt = TransportBelt::new([-1, 0, 1]);
    belt.item_progress = [1.0f32.to_bits(), 0, 0, 0.5f32.to_bits(), 0, 0x01020304];
    belt.mut_storage()[5] = PossibleItem::new(Item::new(258, 1));
    let bytes = belt.encode_bytes();
    assert_eq!(bytes.len(), 82);
    assert_eq!(bytes[0..4], [0, 0, 128, 63]);
    assert_eq!(bytes[12..16], [0, 0, 0, 63]);
    assert_eq!(bytes[20..24], [4, 3, 2, 1]);
    assert_eq!(bytes[24..28], [255, 0, 1, 0]);
    assert_eq!(bytes[28..73], [0; 45]);
    assert_eq!(bytes[73..82], [1, 2, 1, 0, 0, 1, 0, 0, 0]);
}

#[test]
fn belt_round_trip() {
    let mut belt = TransportBelt::new([-128, 127, -1]);
    let progress: [f32; 6] = [0.0, 0.1, 0.33, 1.0000001, -0.0, f32::NAN];
    for i in 0..6 {
        belt.item_progress[i] = progress[i].to_bits();
    }
    belt.mut_storage()[0] = PossibleItem::new(Item::new(0, 0));
    belt.mut_storage()[2] = PossibleItem::new(Item::new(u32::MAX, u32::MAX));
    belt.mut_storage()[5] = PossibleItem::new(Item::new(7, 300));
    let read = TransportBelt::decode_bytes(&belt.encode_bytes()).unwrap();
    assert_eq!(read.item_progress, belt.item_progress);
    assert_eq!(read.direction, belt.direction);
    assert_eq!(read.storage, belt.storage);
    let empty = TransportBelt::new([0, 0, 0]);
    let read = TransportBelt::decode_bytes(&empty.encode_bytes()).unwrap();
    assert_eq!(read.item_progress, [0; 6]);
    assert_eq!(read.storage, empty.storage);
}

#[test]
fn belt_decode_faults() {
    let good = TransportBelt::new([1, 0, 0]).encode_bytes();
    assert_eq!(TransportBelt::decode_bytes(&good[..81]).err(), Some(DecodeError::UnexpectedEnd));
    assert_eq!(TransportBelt::decode_bytes(&[]).err(), Some(DecodeError::UnexpectedEnd));
    let mut bytes = good.clone();
    bytes[28 + 45] = 255;
    assert_eq!(TransportBelt::decode_bytes(&bytes).err(), Some(DecodeError::BadSlotTag));
    let mut bytes = good.clone();
    bytes[27] = 77;
    bytes.push(1);
    assert!(TransportBelt::decode_bytes(&bytes).is_ok());
}

#[test]
fn take_first_existing_prefers_the_slot_nearest_to_the_middle() {
    let progress: [f32; 6] = [0.9, 0.45, 0.1, 0.7, 0.52, 0.0];
    let mut belt = TransportBelt::new([1, 0, 0]);
    for i in [0, 1, 2, 3, 5] {
        belt.mut_storage()[i] = PossibleItem::new(Item::new(i as u32, 4));
    }
    for i in 0..6 {
        belt.item_progress[i] = progress[i].to_bits();
    }
    let mut order = Vec::new();
    while let Some((item, index)) = belt.take_first_existing(4, &minus) {
        assert_eq!(item, Item::new(index as u32, 4));
        assert_eq!(belt.item_progress[index], 0);
        order.push(index);
        if order.len() == 1 {
            assert_eq!(belt.item_progress[4], progress[4].to_bits());
        }
    }
    assert_eq!(order, vec![1, 3, 0, 2, 5]);
}

#[test]
fn take_first_existing_counts_distance_on_both_sides_of_the_middle() {
    let mut belt = TransportBelt::new([1, 0, 0]);
    belt.mut_storage()[0] = PossibleItem::new(Item::new(0, 1));
    belt.mut_storage()[1] = PossibleItem::new(Item::new(1, 1));
    belt.mut_storage()[2] = PossibleItem::new(Item::new(2, 1));
    belt.item_progress[0] = 0.25f32.to_bits();
    belt.item_progress[1] = 0.625f32.to_bits();
    belt.item_progress[2] = (-3.0f32).to_bits();
    assert_eq!(belt.take_first_existing(1, &minus), Some((Item::new(1, 1), 1)));
    assert_eq!(belt.take_first_existing(1, &minus), Some((Item::new(0, 1), 0)));
    assert_eq!(belt.take_first_existing(1, &minus), Some((Item::new(2, 1), 2)));
    assert_eq!(belt.take_first_existing(1, &minus), None);
}

#[test]
fn belt_constants_are_the_bits_of_their_numbers() {
    assert_eq!(STEP, 0.1f32.to_bits());
    assert_eq!(SPACING, 0.33f32.to_bits());
    assert_eq!(END, 1.0f32.to_bits());
    assert_eq!(MIDDLE, 0.5f32.to_bits());
}
