use connectz::grid::{all_directions, Direction, Grid, Location};
use connectz::Outcome;

#[test]
fn add_direction() {
    let location = Location(1, 2);
    let direction = Direction(1, -1);

    assert_eq!(location + direction, Ok(Location(2, 1)));
}

#[test]
fn add_direction_column_error() {
    let location = Location(0, 0);
    let direction = Direction(-1, 0);

    assert_eq!(location + direction, Err("already at first column"));
}

#[test]
fn add_direction_row_error() {
    let location = Location(0, 0);
    let direction = Direction(0, -1);

    assert_eq!(location + direction, Err("already at first row"));
}

#[test]
fn sub_direction() {
    let location = Location(1, 2);
    let direction = Direction(1, -1);

    assert_eq!(location - direction, Ok(Location(0, 3)));
}

#[test]
fn sub_direction_column_error() {
    let location = Location(0, 0);
    let direction = Direction(1, 0);

    assert_eq!(location - direction, Err("already at first column"));
}

#[test]
fn sub_direction_row_error() {
    let location = Location(0, 0);
    let direction = Direction(0, 1);

    assert_eq!(location - direction, Err("already at first row"));
}

#[test]
fn grid_full() {
    let mut grid = Grid::with_dimensions(2, 2);

    assert!(grid.insert_piece(1, 0).is_ok());
    assert!(grid.insert_piece(1, 0).is_ok());
    assert!(grid.insert_piece(1, 1).is_ok());
    assert!(grid.insert_piece(1, 1).is_ok());

    assert!(grid.is_full());
}

#[test]
fn inserting_bad_column() {
    let mut grid = Grid::with_dimensions(2, 2);
    let result = grid.insert_piece(1, 23).err();
    assert_eq!(result, Some(Outcome::IllegalColumn));
}

#[test]
fn inserting_bad_row() {
    let mut grid = Grid::with_dimensions(2, 2);

    assert!(grid.insert_piece(1, 0).is_ok());
    assert!(grid.insert_piece(1, 0).is_ok());

    let result = grid.insert_piece(1, 0).err();
    assert_eq!(result, Some(Outcome::IllegalRow));
}

#[test]
fn add_wraps_past_last_column() {
    assert_eq!(Location(u32::MAX, 0) + Direction(1, 0), Ok(Location(0, 0)));
}

#[test]
fn insert_returns_landing_cell() {
    let mut grid = Grid::with_dimensions(3, 3);
    assert_eq!(grid.insert_piece(1, 2), Ok(Location(2, 0)));
    assert_eq!(grid.insert_piece(2, 2), Ok(Location(2, 1)));
    assert_eq!(grid.at(Location(2, 0)), Some(&1));
    assert_eq!(grid.at(Location(2, 1)), Some(&2));
    assert_eq!(grid.at(Location(2, 2)), None);
    assert_eq!(grid.at(Location(7, 0)), None);
    assert!(!grid.is_full());
}

#[test]
fn full_column_refused_on_any_board() {
    let mut grid = Grid::with_dimensions(2, 1);
    assert!(grid.insert_piece(1, 1).is_ok());
    assert_eq!(grid.insert_piece(2, 1), Err(Outcome::IllegalRow));
    assert_eq!(grid.insert_piece(2, 2), Err(Outcome::IllegalColumn));
    assert_eq!(grid.insert_piece(2, u32::MAX), Err(Outcome::IllegalColumn));
    assert!(grid.insert_piece(2, 0).is_ok());
    assert!(grid.is_full());
    assert_eq!(grid.insert_piece(1, 0), Err(Outcome::IllegalRow));
}

#[test]
fn zero_width_board_is_full() {
    let mut grid = Grid::with_dimensions(0, 3);
    assert!(grid.is_full());
    assert_eq!(grid.insert_piece(1, 0), Err(Outcome::IllegalColumn));
}

#[test]
fn streak_at_empty_or_outside_cell_is_zero() {
    let mut grid = Grid::with_dimensions(3, 3);
    assert!(grid.insert_piece(1, 0).is_ok());
    for d in all_directions() {
        assert_eq!(grid.get_streak(Location(1, 0), d), 0);
        assert_eq!(grid.get_streak(Location(0, 1), d), 0);
        assert_eq!(grid.get_streak(Location(9, 9), d), 0);
    }
}

#[test]
fn streak_counts_both_ways() {
    let mut grid = Grid::with_dimensions(4, 2);
    for c in 0..4 {
        assert!(grid.insert_piece(1, c).is_ok());
    }
    assert!(grid.insert_piece(2, 1).is_ok());
    assert_eq!(grid.get_streak(Location(1, 0), Direction(1, 0)), 4);
    assert_eq!(grid.get_streak(Location(3, 0), Direction(1, 0)), 4);
    assert_eq!(grid.get_streak(Location(1, 0), Direction(0, 1)), 1);
    assert_eq!(grid.get_streak(Location(1, 1), Direction(0, 1)), 1);
    assert_eq!(grid.get_streak(Location(0, 0), Direction(1, 1)), 1);
}

#[test]
fn streak_is_symmetric_under_negation() {
    let mut grid = Grid::with_dimensions(3, 3);
    // player 1 on the diagonal (0,0), (1,1), (2,2)
    assert!(grid.insert_piece(1, 0).is_ok());
    assert!(grid.insert_piece(2, 1).is_ok());
    assert!(grid.insert_piece(1, 1).is_ok());
    assert!(grid.insert_piece(2, 2).is_ok());
    assert!(grid.insert_piece(2, 2).is_ok());
    assert!(grid.insert_piece(1, 2).is_ok());
    let start = Location(1, 1);
    assert_eq!(grid.get_streak(start, Direction(1, 1)), 3);
    assert_eq!(grid.get_streak(start, Direction(-1, -1)), 3);
    assert_eq!(grid.get_streak(start, Direction(-1, 1)), 1);
    assert_eq!(grid.get_streak(start, Direction(1, -1)), 1);
    assert_eq!(grid.get_streak(Location(2, 1), Direction(0, 1)), 2);
    assert_eq!(grid.get_streak(Location(2, 1), Direction(0, -1)), 2);
}
