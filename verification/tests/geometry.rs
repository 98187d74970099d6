//! Coordinates, directions and the edges of the grid.

use monorail::action::{Coordinate, Direction, POSSIBLE_DIRECTIONS};
use monorail::board::{NUM_COLS, NUM_ROWS};

fn at(row: usize, col: usize) -> Coordinate {
    Coordinate { row: row, col: col }
}

#[test]
fn grid_is_four_rows_of_five() {
    assert_eq!(NUM_ROWS, 4);
    assert_eq!(NUM_COLS, 5);
}

#[test]
fn directions_are_listed_up_down_left_right() {
    assert_eq!(
        POSSIBLE_DIRECTIONS,
        [Direction::Up, Direction::Down, Direction::Left, Direction::Right]
    );
}

#[test]
fn in_grid_holds_of_the_twenty_cells_only() {
    let mut inside = 0;
    for row in 0..7 {
        for col in 0..7 {
            if at(row, col).in_grid() {
                inside += 1;
                assert!(row < 4 && col < 5);
            }
        }
    }
    assert_eq!(inside, 20);
    assert!(at(3, 4).in_grid());
    assert!(!at(4, 0).in_grid());
    assert!(!at(0, 5).in_grid());
}

#[test]
fn move_in_steps_one_cell_in_each_direction() {
    let c = at(2, 2);
    assert_eq!(c.move_in(Direction::Up, 1), Some(at(1, 2)));
    assert_eq!(c.move_in(Direction::Down, 1), Some(at(3, 2)));
    assert_eq!(c.move_in(Direction::Left, 1), Some(at(2, 1)));
    assert_eq!(c.move_in(Direction::Right, 1), Some(at(2, 3)));
}

#[test]
fn move_in_steps_two_cells() {
    let c = at(2, 2);
    assert_eq!(c.move_in(Direction::Up, 2), Some(at(0, 2)));
    assert_eq!(c.move_in(Direction::Down, 2), None);
    assert_eq!(c.move_in(Direction::Left, 2), Some(at(2, 0)));
    assert_eq!(c.move_in(Direction::Right, 2), Some(at(2, 4)));
}

#[test]
fn move_in_by_nothing_stays() {
    let c = at(1, 3);
    for dir in POSSIBLE_DIRECTIONS {
        assert_eq!(c.move_in(dir, 0), Some(c));
    }
}

#[test]
fn move_in_stops_at_every_edge() {
    assert_eq!(at(0, 2).move_in(Direction::Up, 1), None);
    assert_eq!(at(3, 2).move_in(Direction::Down, 1), None);
    assert_eq!(at(2, 0).move_in(Direction::Left, 1), None);
    assert_eq!(at(2, 4).move_in(Direction::Right, 1), None);
    assert_eq!(at(1, 2).move_in(Direction::Up, 2), None);
    assert_eq!(at(2, 3).move_in(Direction::Right, 2), None);
}

#[test]
fn move_in_survives_the_largest_step() {
    let c = at(1, 1);
    assert_eq!(c.move_in(Direction::Down, usize::MAX), None);
    assert_eq!(c.move_in(Direction::Right, usize::MAX), None);
    assert_eq!(c.move_in(Direction::Up, usize::MAX), None);
    assert_eq!(c.move_in(Direction::Left, usize::MAX), None);
}

#[test]
fn unchecked_move_in_agrees_with_move_in() {
    for row in 0..4usize {
        for col in 0..5usize {
            for dir in POSSIBLE_DIRECTIONS {
                for delta in 0..3usize {
                    let c = at(row, col);
                    if let Some(target) = c.move_in(dir, delta) {
                        assert_eq!(c.unchecked_move_in(dir, delta), target);
                    }
                }
            }
        }
    }
}

#[test]
fn constrained_region_is_the_lower_left_two_by_three() {
    let mut region = Vec::new();
    for row in 0..4usize {
        for col in 0..5usize {
            if at(row, col).induces_board_type() {
                region.push((row, col));
            }
        }
    }
    assert_eq!(region, vec![(1, 0), (1, 1), (2, 0), (2, 1), (3, 0), (3, 1)]);
}
