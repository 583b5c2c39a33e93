use std::cell::RefCell;
use voxel_world::voxels::spiral::clockwise_square_spiral;

fn walk(n: u32) -> Vec<(i32, i32)> {
    let cells: RefCell<Vec<(i32, i32)>> = RefCell::new(Vec::new());
    let found: Option<()> = clockwise_square_spiral(n, &|x: i32, y: i32| {
        cells.borrow_mut().push((x, y));
        None
    });
    assert!(found.is_none());
    cells.into_inner()
}

#[test]
fn spiral_of_side_three_in_order() {
    assert_eq!(
        walk(3),
        vec![(0, 0), (1, 0), (1, 1), (0, 1), (-1, 1), (-1, 0), (-1, -1), (0, -1), (1, -1)]
    );
}

#[test]
fn spiral_of_side_two_in_order() {
    assert_eq!(walk(2), vec![(0, 0), (1, 0), (1, 1), (0, 1)]);
}

#[test]
fn spiral_of_side_four_ends_on_the_wide_side() {
    let cells = walk(4);
    assert_eq!(cells.len(), 16);
    assert_eq!(cells[9], (2, -1));
    assert_eq!(cells[12], (2, 2));
    assert_eq!(cells[15], (-1, 2));
}

#[test]
fn spiral_of_side_zero_and_one() {
    assert_eq!(walk(0), Vec::<(i32, i32)>::new());
    assert_eq!(walk(1), vec![(0, 0)]);
}

#[test]
fn spiral_visits_every_cell_of_the_window_once() {
    for n in 0u32..12 {
        let cells = walk(n);
        assert_eq!(cells.len(), (n * n) as usize);
        let low = -((n as i32 - 1).max(0) / 2);
        let high = n as i32 / 2;
        for x in low..=high {
            for y in low..=high {
                if n > 0 {
                    assert_eq!(cells.iter().filter(|c| **c == (x, y)).count(), 1);
                }
            }
        }
        for c in cells.iter() {
            assert!(low <= c.0 && c.0 <= high && low <= c.1 && c.1 <= high);
        }
    }
}

#[test]
fn spiral_order_is_the_same_on_every_walk() {
    assert_eq!(walk(7), walk(7));
    let small = walk(5);
    let large = walk(9);
    assert_eq!(small[..], large[..25]);
}

#[test]
fn spiral_stops_at_the_first_answer() {
    let calls: RefCell<u32> = RefCell::new(0);
    let found = clockwise_square_spiral(5, &|x: i32, y: i32| {
        *calls.borrow_mut() += 1;
        if x < 0 {
            Some((x, y))
        } else {
            None
        }
    });
    assert_eq!(found, Some((-1, 1)));
    assert_eq!(*calls.borrow(), 5);
}
