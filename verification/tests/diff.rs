use cellular::diff::{CellChange, Diff};
use cellular::error::EngineError;
use cellular::game_of_life::States;
use cellular::grid::{Boundary, Dimensions, Grid, Position};
use cellular::universe::Universe;

fn pattern(rows: usize, cols: usize, alive: &[(usize, usize)]) -> Grid<States> {
    let mut grid = Grid::new(Dimensions::new(rows, cols), Boundary::Fixed(States::Dead));
    for &(row, col) in alive {
        grid.set(&Position::new(row, col), States::Alive);
    }
    grid
}

fn step(grid: &Grid<States>) -> Grid<States> {
    Universe::new(grid.clone()).step().grid().clone()
}

fn born(row: usize, col: usize) -> CellChange<States> {
    CellChange { pos: Position::new(row, col), before: States::Dead, after: States::Alive }
}

fn died(row: usize, col: usize) -> CellChange<States> {
    CellChange { pos: Position::new(row, col), before: States::Alive, after: States::Dead }
}

fn glider_chain(length: usize) -> Vec<Grid<States>> {
    let mut chain = vec![pattern(8, 8, &[(0, 1), (1, 2), (2, 0), (2, 1), (2, 2)])];
    for i in 0..length {
        let next = step(&chain[i]);
        chain.push(next);
    }
    chain
}

#[test]
fn diff_records_the_cells_that_differ() {
    let before = pattern(3, 3, &[(1, 0), (1, 1), (1, 2)]);
    let after = pattern(3, 3, &[(0, 1), (1, 1), (2, 1)]);
    let diff = before.diff(&after);
    assert_eq!(diff.changes(), &vec![born(0, 1), died(1, 0), died(1, 2), born(2, 1)]);
    assert_eq!(diff.len(), 4);
    assert!(!diff.is_empty());
    assert_eq!(diff.get(&Position::new(1, 0)), Some(died(1, 0)));
    assert_eq!(diff.get(&Position::new(2, 1)), Some(born(2, 1)));
    assert_eq!(diff.get(&Position::new(1, 1)), None);
    assert_eq!(diff.get(&Position::new(7, 7)), None);
}

#[test]
fn diff_of_a_grid_with_itself_is_the_identity() {
    let grid = pattern(4, 4, &[(0, 0), (3, 3), (1, 2)]);
    let diff = grid.diff(&grid);
    assert!(diff.is_empty());
    assert_eq!(diff, Diff::new());
    assert_eq!(grid.clone().apply_diff(&diff), Ok(grid));
}

#[test]
fn applying_the_identity_changes_nothing() {
    let grid = pattern(2, 5, &[(0, 4), (1, 0)]);
    assert_eq!(grid.clone().apply_diff(&Diff::new()), Ok(grid));
}

#[test]
fn applying_the_diff_of_a_step_gives_the_next_generation() {
    let mut grid = pattern(8, 8, &[(0, 1), (1, 2), (2, 0), (2, 1), (2, 2)]);
    for _ in 0..12 {
        let next = step(&grid);
        let diff = grid.diff(&next);
        assert_eq!(grid.clone().apply_diff(&diff), Ok(next.clone()));
        grid = next;
    }
}

#[test]
fn apply_writes_the_new_states_and_nothing_else() {
    let before = pattern(3, 3, &[(1, 0), (1, 1), (1, 2)]);
    let after = pattern(3, 3, &[(0, 1), (1, 1), (2, 1)]);
    let patched = before.clone().apply_diff(&before.diff(&after)).unwrap();
    assert_eq!(patched, after);
    assert_eq!(patched.get(&Position::new(1, 1)), States::Alive);
    assert_eq!(patched.get(&Position::new(0, 0)), States::Dead);
}

#[test]
fn apply_refuses_a_grid_that_does_not_match() {
    let before = pattern(3, 3, &[(1, 0), (1, 1), (1, 2)]);
    let after = pattern(3, 3, &[(0, 1), (1, 1), (2, 1)]);
    let diff = before.diff(&after);
    // The diff expects (1, 0) alive; in `after` it is dead.
    assert_eq!(after.clone().apply_diff(&diff), Err(EngineError::DiffMismatch));
    // One wrong cell is enough.
    let mut almost = before.clone();
    almost.set(&Position::new(2, 1), States::Alive);
    assert_eq!(almost.apply_diff(&diff), Err(EngineError::DiffMismatch));
}

#[test]
fn apply_refuses_a_diff_that_reaches_outside() {
    let large_before = pattern(4, 4, &[]);
    let large_after = pattern(4, 4, &[(3, 3)]);
    let diff = large_before.diff(&large_after);
    let small = pattern(2, 2, &[]);
    assert_eq!(small.apply_diff(&diff), Err(EngineError::DiffMismatch));
}

#[test]
fn stack_keeps_the_earliest_before_and_the_latest_after() {
    let a = pattern(2, 2, &[]);
    let b = pattern(2, 2, &[(0, 0), (0, 1)]);
    let c = pattern(2, 2, &[(0, 1), (1, 1)]);
    let stacked = a.diff(&b).stack(&b.diff(&c));
    // (0, 0) was born and died again: it is dropped. (0, 1) was born; (1, 1) was born later.
    assert_eq!(stacked.changes(), &vec![born(0, 1), born(1, 1)]);
    assert_eq!(stacked, a.diff(&c));
}

#[test]
fn stack_with_the_identity() {
    let a = pattern(2, 2, &[]);
    let b = pattern(2, 2, &[(0, 0), (1, 1)]);
    let diff = a.diff(&b);
    assert_eq!(Diff::new().stack(&diff), diff);
    assert_eq!(diff.stack(&Diff::new()), diff);
    assert_eq!(Diff::<States>::new().stack(&Diff::new()), Diff::new());
}

#[test]
fn stack_merges_in_row_major_order() {
    let a = pattern(3, 3, &[]);
    let b = pattern(3, 3, &[(0, 2), (2, 0)]);
    let c = pattern(3, 3, &[(0, 2), (2, 0), (0, 0), (1, 1), (2, 2)]);
    let stacked = a.diff(&b).stack(&b.diff(&c));
    assert_eq!(stacked.changes(), &vec![born(0, 0), born(0, 2), born(1, 1), born(2, 0), born(2, 2)]);
}

#[test]
fn stack_mul_of_nothing_is_the_identity() {
    let none: Vec<Diff<States>> = Vec::new();
    assert_eq!(Diff::stack_mul(&none), Diff::new());
    assert!(Diff::stack_mul(&none).is_empty());
}

#[test]
fn stack_mul_of_one_diff_is_that_diff() {
    let a = pattern(2, 2, &[]);
    let b = pattern(2, 2, &[(1, 0)]);
    let diff = a.diff(&b);
    assert_eq!(Diff::stack_mul(&[a.diff(&b)]), diff);
}

#[test]
fn stacked_chain_leads_from_first_to_last() {
    let chain = glider_chain(9);
    let diffs: Vec<Diff<States>> = (0..9).map(|i| chain[i].diff(&chain[i + 1])).collect();
    for n in 0..=9 {
        let stacked = Diff::stack_mul(&diffs[..n]);
        assert_eq!(chain[0].clone().apply_diff(&stacked), Ok(chain[n].clone()));
        assert_eq!(stacked, chain[0].diff(&chain[n]));
    }
}

#[test]
fn stack_is_associative_along_a_chain() {
    let chain = glider_chain(3);
    let first = chain[0].diff(&chain[1]);
    let second = chain[1].diff(&chain[2]);
    let third = chain[2].diff(&chain[3]);
    assert_eq!(first.stack(&second).stack(&third), first.stack(&second.stack(&third)));
}

#[test]
fn stack_is_associative_on_a_blinker_that_returns() {
    // The blinker is back after two steps: the stack of the first two diffs is the identity.
    let a = pattern(3, 3, &[(1, 0), (1, 1), (1, 2)]);
    let b = step(&a);
    let c = step(&b);
    let d = step(&c);
    let (first, second, third) = (a.diff(&b), b.diff(&c), c.diff(&d));
    assert!(first.stack(&second).is_empty());
    assert_eq!(first.stack(&second).stack(&third), third);
    assert_eq!(first.stack(&second.stack(&third)), third);
}

#[test]
fn stack_of_diffs_that_do_not_follow_depends_on_the_grouping() {
    // At one position: alive to dead, then alive to dead again, then dead to alive.
    let alive = pattern(1, 1, &[(0, 0)]);
    let dead = pattern(1, 1, &[]);
    let first = alive.diff(&dead);
    let second = alive.diff(&dead);
    let third = dead.diff(&alive);
    assert_eq!(first.stack(&second).stack(&third), Diff::new());
    assert_eq!(second.stack(&third), Diff::new());
    assert_eq!(first.stack(&second.stack(&third)), first);
}

#[test]
fn stack_mul_looks_at_all_diffs_at_once() {
    // At one position: alive to dead, dead to alive, and dead to alive again.
    let alive = pattern(1, 1, &[(0, 0)]);
    let dead = pattern(1, 1, &[]);
    let first = alive.diff(&dead);
    let second = dead.diff(&alive);
    let third = dead.diff(&alive);
    // The earliest state left is alive and the latest state taken is alive: nothing remains.
    assert_eq!(Diff::stack_mul(&[alive.diff(&dead), dead.diff(&alive), dead.diff(&alive)]), Diff::new());
    // Pair by pair, the first two undo each other and the third stands alone.
    assert_eq!(first.stack(&second).stack(&third), third);
}

#[test]
fn stack_mul_of_two_diffs_is_their_stack() {
    let chain = glider_chain(2);
    let first = chain[0].diff(&chain[1]);
    let second = chain[1].diff(&chain[2]);
    assert_eq!(Diff::stack_mul(&[chain[0].diff(&chain[1]), chain[1].diff(&chain[2])]), first.stack(&second));
}
