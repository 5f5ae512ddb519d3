use cellular::error::EngineError;
use cellular::game_of_life::States;
use cellular::grid::{wrap, Boundary, Dimensions, Grid, Position, RelCoords};

fn dead_grid(rows: usize, cols: usize) -> Grid<States> {
    Grid::new(Dimensions::new(rows, cols), Boundary::Fixed(States::Dead))
}

fn alive_positions(grid: &Grid<States>) -> Vec<(usize, usize)> {
    let dim = grid.dim();
    let mut alive = Vec::new();
    for row in 0..dim.nb_rows {
        for col in 0..dim.nb_cols {
            if grid.get(&Position::new(row, col)) == States::Alive {
                alive.push((row, col));
            }
        }
    }
    alive
}

#[test]
fn new_grid_holds_default_cells() {
    let grid = dead_grid(3, 5);
    assert_eq!(grid.dim(), Dimensions::new(3, 5));
    assert_eq!(grid.boundary(), Boundary::Fixed(States::Dead));
    for row in 0..3 {
        for col in 0..5 {
            assert_eq!(grid.get(&Position::new(row, col)), States::Dead);
        }
    }
}

#[test]
fn get_returns_last_value_written() {
    let mut grid = dead_grid(4, 4);
    let writes = [
        (1, 2, States::Alive),
        (3, 3, States::Alive),
        (1, 2, States::Dead),
        (0, 0, States::Alive),
        (3, 3, States::Alive),
        (1, 2, States::Alive),
        (0, 0, States::Dead),
    ];
    for (row, col, cell) in writes {
        grid.set(&Position::new(row, col), cell);
    }
    assert_eq!(grid.get(&Position::new(1, 2)), States::Alive);
    assert_eq!(grid.get(&Position::new(3, 3)), States::Alive);
    assert_eq!(grid.get(&Position::new(0, 0)), States::Dead);
    assert_eq!(grid.get(&Position::new(2, 2)), States::Dead);
}

#[test]
fn set_changes_one_cell_only() {
    let mut grid = dead_grid(2, 3);
    grid.set(&Position::new(1, 0), States::Alive);
    for row in 0..2 {
        for col in 0..3 {
            let expected = if (row, col) == (1, 0) { States::Alive } else { States::Dead };
            assert_eq!(grid.get(&Position::new(row, col)), expected);
        }
    }
}

#[test]
fn rows_and_columns_are_not_mixed_up() {
    let mut grid = dead_grid(2, 5);
    grid.set(&Position::new(1, 3), States::Alive);
    assert_eq!(grid.get(&Position::new(1, 3)), States::Alive);
    assert_eq!(grid.get(&Position::new(0, 3)), States::Dead);
    assert_eq!(grid.get(&Position::new(1, 1)), States::Dead);
    assert_eq!(alive_positions(&grid), vec![(1, 3)]);
}

#[test]
fn try_set_refuses_a_position_outside() {
    let mut grid = dead_grid(2, 2);
    assert_eq!(grid.try_set(&Position::new(2, 0), States::Alive), Err(EngineError::OutOfRangePosition));
    assert_eq!(grid.try_set(&Position::new(0, 2), States::Alive), Err(EngineError::OutOfRangePosition));
    assert_eq!(grid, dead_grid(2, 2));
    assert_eq!(grid.try_set(&Position::new(1, 1), States::Alive), Ok(()));
    assert_eq!(grid.get(&Position::new(1, 1)), States::Alive);
}

#[test]
fn fixed_boundary_answers_outside_reads() {
    let mut grid: Grid<States> = Grid::new(Dimensions::new(2, 2), Boundary::Fixed(States::Alive));
    assert_eq!(grid.get(&Position::new(0, 0)), States::Dead);
    assert_eq!(grid.get(&Position::new(2, 0)), States::Alive);
    assert_eq!(grid.get(&Position::new(0, 7)), States::Alive);
    assert_eq!(grid.get_relative(&Position::new(0, 0), &RelCoords::new(-1, 0)), States::Alive);
    assert_eq!(grid.get_relative(&Position::new(0, 0), &RelCoords::new(0, -1)), States::Alive);
    assert_eq!(grid.get_relative(&Position::new(1, 1), &RelCoords::new(-1, -1)), States::Dead);
    grid.set(&Position::new(0, 0), States::Alive);
    assert_eq!(grid.get_relative(&Position::new(1, 1), &RelCoords::new(-1, -1)), States::Alive);
}

#[test]
fn toroidal_boundary_wraps_around() {
    let mut grid: Grid<States> = Grid::new(Dimensions::new(3, 4), Boundary::Toroidal);
    grid.set(&Position::new(2, 3), States::Alive);
    assert_eq!(grid.get(&Position::new(2, 3)), States::Alive);
    assert_eq!(grid.get(&Position::new(5, 7)), States::Alive);
    assert_eq!(grid.get(&Position::new(5, 6)), States::Dead);
    assert_eq!(grid.get_relative(&Position::new(0, 0), &RelCoords::new(-1, -1)), States::Alive);
    assert_eq!(grid.get_relative(&Position::new(0, 0), &RelCoords::new(-4, -5)), States::Alive);
    assert_eq!(grid.get_relative(&Position::new(0, 0), &RelCoords::new(-3, -4)), States::Dead);
    assert_eq!(grid.get_relative(&Position::new(2, 3), &RelCoords::new(3, 4)), States::Alive);
    assert_eq!(grid.get_relative(&Position::new(1, 1), &RelCoords::new(1, 2)), States::Alive);
}

#[test]
fn wrap_is_the_euclidean_remainder() {
    assert_eq!(wrap(0, 5), 0);
    assert_eq!(wrap(4, 5), 4);
    assert_eq!(wrap(5, 5), 0);
    assert_eq!(wrap(13, 5), 3);
    assert_eq!(wrap(-1, 5), 4);
    assert_eq!(wrap(-5, 5), 0);
    assert_eq!(wrap(-6, 5), 4);
    assert_eq!(wrap(-13, 5), 2);
    assert_eq!(wrap(i128::MIN, 1), 0);
    assert_eq!(wrap(i128::MIN, 3), 1);
    assert_eq!(wrap(i128::MAX, 3), 1);
}

#[test]
fn view_reads_around_its_centre() {
    let mut grid = dead_grid(3, 3);
    grid.set(&Position::new(0, 1), States::Alive);
    grid.set(&Position::new(1, 1), States::Alive);
    let view = grid.view(Position::new(1, 1));
    assert_eq!(view.pos(), Position::new(1, 1));
    assert_eq!(view.state(), States::Alive);
    assert_eq!(view.get(&RelCoords::new(-1, 0)), States::Alive);
    assert_eq!(view.get(&RelCoords::new(1, 0)), States::Dead);
    let rels = vec![RelCoords::new(1, 0), RelCoords::new(-1, 0), RelCoords::new(0, 0), RelCoords::new(-2, 0)];
    assert_eq!(view.get_multiple(&rels), vec![States::Dead, States::Alive, States::Alive, States::Dead]);
    assert_eq!(view.get_multiple(&Vec::new()), Vec::<States>::new());
}

#[test]
fn clone_is_independent() {
    let mut grid = dead_grid(2, 2);
    grid.set(&Position::new(0, 1), States::Alive);
    let mut copy = grid.clone();
    assert_eq!(copy, grid);
    assert!(copy.same_as(&grid));
    copy.set(&Position::new(1, 1), States::Alive);
    assert_eq!(grid.get(&Position::new(1, 1)), States::Dead);
    assert_ne!(copy, grid);
    assert!(!copy.same_as(&grid));
}

#[test]
fn same_as_looks_at_shape_and_cells() {
    let fixed = dead_grid(2, 2);
    let toroidal: Grid<States> = Grid::new(Dimensions::new(2, 2), Boundary::Toroidal);
    let alive_outside: Grid<States> = Grid::new(Dimensions::new(2, 2), Boundary::Fixed(States::Alive));
    let wider = dead_grid(2, 3);
    assert!(fixed.same_as(&dead_grid(2, 2)));
    assert!(!fixed.same_as(&toroidal));
    assert!(!fixed.same_as(&alive_outside));
    assert!(!fixed.same_as(&wider));
    assert!(fixed.same_shape_as(&dead_grid(2, 2)));
    assert!(!fixed.same_shape_as(&toroidal));
    assert!(!fixed.same_shape_as(&alive_outside));
    assert!(!fixed.same_shape_as(&wider));
}

#[test]
fn dimensions_hold_positions_inside() {
    let dim = Dimensions::new(2, 3);
    assert!(dim.holds(&Position::new(0, 0)));
    assert!(dim.holds(&Position::new(1, 2)));
    assert!(!dim.holds(&Position::new(2, 0)));
    assert!(!dim.holds(&Position::new(0, 3)));
}

#[test]
fn positions_are_ordered_row_major() {
    assert!(Position::new(0, 5).is_before(&Position::new(1, 0)));
    assert!(Position::new(1, 0).is_before(&Position::new(1, 1)));
    assert!(!Position::new(1, 1).is_before(&Position::new(1, 1)));
    assert!(!Position::new(2, 0).is_before(&Position::new(1, 9)));
}

#[test]
fn error_messages() {
    assert_eq!(EngineError::InvalidRange.message(), "Base generation should be smaller than target generation.");
    assert_eq!(
        EngineError::ProtocolViolation.message(),
        "The received HistoryRequest is incompatible with the MailType it's included in."
    );
    let all = [
        EngineError::InvalidRange,
        EngineError::DiffMismatch,
        EngineError::ProtocolViolation,
        EngineError::DeadChannel,
        EngineError::OutOfRangePosition,
    ];
    for (i, first) in all.iter().enumerate() {
        assert!(!first.message().is_empty());
        for second in &all[i + 1..] {
            assert_ne!(first.message(), second.message());
        }
    }
}
