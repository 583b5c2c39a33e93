use voxel_world::world::chunk_coords::{ChunkCoords, CHUNK_BIT_SHIFT, CHUNK_SIZE};
use voxel_world::world::global_coords::GlobalCoords;
use voxel_world::world::local_coords::LocalCoords;

#[test]
fn correct_index() {
    let coords = ChunkCoords(2, 0, 1);
    let width = 3;
    let depth = 3;
    assert_eq!(coords.index(depth, width), 5);
}

#[test]
fn correct_from_global_coords() {
    let g0 = GlobalCoords(18, 0, 134);
    let g1 = GlobalCoords(-1, -18, -196);

    let c0 = ChunkCoords(
        g0.0 / CHUNK_SIZE as i32,
        g0.1 / CHUNK_SIZE as i32,
        g0.2 / CHUNK_SIZE as i32,
    );

    let c1 = ChunkCoords(
        g1.0 / CHUNK_SIZE as i32 - 1,
        g1.1 / CHUNK_SIZE as i32 - 1,
        g1.2 / CHUNK_SIZE as i32 - 1,
    );

    assert_eq!(c0, g0.into());
    assert_eq!(c1, g1.into());
}

#[test]
fn chunk_size_is_the_shifted_power_of_two() {
    assert_eq!(CHUNK_SIZE, 1 << CHUNK_BIT_SHIFT);
}

#[test]
fn chunk_of_exact_values() {
    assert_eq!(ChunkCoords::from(GlobalCoords(0, 15, 16)), ChunkCoords(0, 0, 1));
    assert_eq!(ChunkCoords::from(GlobalCoords(-16, -17, 31)), ChunkCoords(-1, -2, 1));
    assert_eq!(
        ChunkCoords::from(GlobalCoords(i32::MIN, i32::MAX, -1)),
        ChunkCoords(-134217728, 134217727, -1)
    );
}

#[test]
fn local_of_exact_values() {
    assert_eq!(LocalCoords::from(GlobalCoords(0, 15, 16)), LocalCoords(0, 15, 0));
    assert_eq!(LocalCoords::from(GlobalCoords(-1, -16, -17)), LocalCoords(15, 0, 15));
    assert_eq!(LocalCoords::from(GlobalCoords(i32::MIN, i32::MAX, 18)), LocalCoords(0, 15, 2));
}

#[test]
fn to_global_exact_values() {
    assert_eq!(ChunkCoords(1, 0, -1).to_global(LocalCoords(2, 0, 4)), GlobalCoords(18, 0, -12));
    assert_eq!(ChunkCoords(-13, 8, 0).to_global(LocalCoords(12, 6, 0)), GlobalCoords(-196, 134, 0));
}

#[test]
fn split_and_join_give_the_position_back() {
    let samples = [
        i32::MIN,
        i32::MIN + 1,
        -196,
        -18,
        -17,
        -16,
        -15,
        -1,
        0,
        1,
        15,
        16,
        17,
        134,
        i32::MAX - 1,
        i32::MAX,
    ];
    for &x in samples.iter() {
        for &y in samples.iter() {
            let g = GlobalCoords(x, y, x.wrapping_add(y));
            let chunk = ChunkCoords::from(g);
            let local = LocalCoords::from(g);
            assert!(local.0 < 16 && local.1 < 16 && local.2 < 16);
            assert_eq!(chunk.to_global(local), g);
        }
    }
}

#[test]
fn index_is_a_bijection_onto_the_array() {
    let (width, height, depth) = (3, 4, 5);
    let mut seen = vec![false; (width * height * depth) as usize];
    for y in 0..height {
        for z in 0..depth {
            for x in 0..width {
                let index = ChunkCoords(x, y, z).index(depth, width);
                assert!(index < seen.len());
                assert!(!seen[index]);
                seen[index] = true;
            }
        }
    }
    assert!(seen.iter().all(|s| *s));
}

#[test]
fn index_orders_y_then_z_then_x() {
    assert_eq!(ChunkCoords(0, 0, 0).index(3, 3), 0);
    assert_eq!(ChunkCoords(1, 0, 0).index(5, 3), 1);
    assert_eq!(ChunkCoords(0, 0, 1).index(5, 3), 3);
    assert_eq!(ChunkCoords(0, 1, 0).index(5, 3), 15);
    assert_eq!(ChunkCoords(2, 3, 4).index(5, 3), 59);
}

#[test]
fn local_index_exact_values() {
    assert_eq!(LocalCoords(0, 0, 0).index(), 0);
    assert_eq!(LocalCoords(1, 0, 0).index(), 1);
    assert_eq!(LocalCoords(0, 0, 1).index(), 16);
    assert_eq!(LocalCoords(0, 1, 0).index(), 256);
    assert_eq!(LocalCoords(15, 15, 15).index(), 4095);
}

#[test]
fn conversions_between_triples_and_chunk_coords() {
    assert_eq!(ChunkCoords::from((1, -2, 3)), ChunkCoords(1, -2, 3));
    let triple: (i32, i32, i32) = ChunkCoords(4, 5, -6).into();
    assert_eq!(triple, (4, 5, -6));
    let array: [i32; 3] = ChunkCoords(7, -8, 9).into();
    assert_eq!(array, [7, -8, 9]);
}
