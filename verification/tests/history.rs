use cellular::diff::Diff;
use cellular::error::EngineError;
use cellular::game_of_life::States;
use cellular::grid::{Boundary, Dimensions, Grid, Position};
use cellular::universe::Universe;
use cellular::universe_history::UniverseHistory;

fn pattern(rows: usize, cols: usize, alive: &[(usize, usize)]) -> Grid<States> {
    let mut grid = Grid::new(Dimensions::new(rows, cols), Boundary::Fixed(States::Dead));
    for &(row, col) in alive {
        grid.set(&Position::new(row, col), States::Alive);
    }
    grid
}

fn step(grid: &Grid<States>) -> Grid<States> {
    Universe::new(grid.clone()).step().grid().clone()
}

fn replay(initial: &Grid<States>, length: usize) -> Vec<Grid<States>> {
    let mut chain = vec![initial.clone()];
    for i in 0..length {
        let next = step(&chain[i]);
        chain.push(next);
    }
    chain
}

fn history_of(chain: &[Grid<States>], f_check: usize) -> UniverseHistory<States> {
    let mut history = UniverseHistory::new(chain[0].clone(), f_check);
    for grid in &chain[1..] {
        assert!(history.accepts(grid));
        history.push(grid.clone());
    }
    history
}

fn glider() -> Grid<States> {
    pattern(8, 8, &[(0, 1), (1, 2), (2, 0), (2, 1), (2, 2)])
}

fn blinker() -> Grid<States> {
    pattern(3, 3, &[(1, 0), (1, 1), (1, 2)])
}

#[test]
fn new_history_holds_the_initial_grid() {
    for f_check in [0, 1, 2, 5] {
        let history = UniverseHistory::new(glider(), f_check);
        assert_eq!(history.len(), 0);
        assert_eq!(history.f_check(), f_check);
        assert_eq!(history.get_gen(0), Some(glider()));
        assert_eq!(history.get_gen(1), None);
    }
}

#[test]
fn checkpoint_replay() {
    let chain = replay(&blinker(), 10);
    let history = history_of(&chain, 2);
    assert_eq!(history.len(), 10);
    assert_eq!(history.get_gen(7), Some(chain[7].clone()));
    assert_eq!(history.get_gen(7), Some(pattern(3, 3, &[(0, 1), (1, 1), (2, 1)])));
}

#[test]
fn get_gen_rebuilds_every_generation() {
    let chain = replay(&glider(), 13);
    for f_check in [0, 1, 2, 5] {
        let history = history_of(&chain, f_check);
        for gen in 0..=13 {
            assert_eq!(history.get_gen(gen), Some(chain[gen].clone()), "f_check {}, gen {}", f_check, gen);
        }
    }
}

#[test]
fn get_gen_rebuilds_while_the_history_grows() {
    let chain = replay(&glider(), 11);
    for f_check in [0, 1, 2, 3, 5, 20] {
        let mut history = UniverseHistory::new(chain[0].clone(), f_check);
        for length in 1..=11 {
            history.push(chain[length].clone());
            assert_eq!(history.len(), length);
            for gen in 0..=length {
                assert_eq!(history.get_gen(gen), Some(chain[gen].clone()));
            }
            assert_eq!(history.get_gen(length + 1), None);
        }
    }
}

#[test]
fn get_gen_says_not_yet_beyond_the_latest() {
    let chain = replay(&blinker(), 4);
    for f_check in [0, 1, 2, 5] {
        let history = history_of(&chain, f_check);
        assert_eq!(history.get_gen(4), Some(chain[4].clone()));
        assert_eq!(history.get_gen(5), None);
        assert_eq!(history.get_gen(6), None);
        assert_eq!(history.get_gen(usize::MAX), None);
    }
}

#[test]
fn get_gen_of_pushes_that_are_no_steps() {
    // A history takes any grids of one shape, whatever leads from one to the next.
    let chain = vec![
        pattern(2, 3, &[]),
        pattern(2, 3, &[(0, 0), (1, 2)]),
        pattern(2, 3, &[(0, 0), (0, 1), (0, 2), (1, 0), (1, 1), (1, 2)]),
        pattern(2, 3, &[]),
        pattern(2, 3, &[]),
        pattern(2, 3, &[(1, 1)]),
    ];
    for f_check in [0, 1, 2, 5] {
        let history = history_of(&chain, f_check);
        for gen in 0..chain.len() {
            assert_eq!(history.get_gen(gen), Some(chain[gen].clone()));
        }
    }
}

#[test]
fn get_diff_is_the_net_change() {
    let chain = replay(&glider(), 9);
    for f_check in [0, 2] {
        let history = history_of(&chain, f_check);
        for from in 0..=9 {
            for to in from..=9 {
                assert_eq!(history.get_diff(from, to), Ok(Some(chain[from].diff(&chain[to]))));
            }
        }
    }
}

#[test]
fn get_diff_over_an_empty_range_is_the_identity() {
    let history = history_of(&replay(&glider(), 3), 0);
    for gen in 0..=3 {
        assert_eq!(history.get_diff(gen, gen), Ok(Some(Diff::new())));
    }
}

#[test]
fn get_diff_splits_at_any_generation() {
    let chain = replay(&glider(), 8);
    let history = history_of(&chain, 5);
    for a in 0..=8 {
        for b in a..=8 {
            for c in b..=8 {
                let whole = history.get_diff(a, c).unwrap().unwrap();
                let left = history.get_diff(a, b).unwrap().unwrap();
                let right = history.get_diff(b, c).unwrap().unwrap();
                assert_eq!(whole, left.stack(&right));
            }
        }
    }
}

#[test]
fn get_diff_refuses_a_range_that_runs_backwards() {
    let history = history_of(&replay(&blinker(), 4), 2);
    assert_eq!(history.get_diff(3, 2), Err(EngineError::InvalidRange));
    assert_eq!(history.get_diff(1, 0), Err(EngineError::InvalidRange));
    // The range is looked at before the target.
    assert_eq!(history.get_diff(9, 8), Err(EngineError::InvalidRange));
}

#[test]
fn get_diff_says_not_yet_beyond_the_latest() {
    let history = history_of(&replay(&blinker(), 4), 2);
    assert_eq!(history.get_diff(0, 5), Ok(None));
    assert_eq!(history.get_diff(4, 5), Ok(None));
    assert_eq!(history.get_diff(7, 9), Ok(None));
    assert_eq!(history.get_diff(0, 4).map(|found| found.is_some()), Ok(true));
}

#[test]
fn accepts_grids_of_the_same_shape_only() {
    let history = UniverseHistory::new(blinker(), 2);
    assert!(history.accepts(&pattern(3, 3, &[])));
    assert!(!history.accepts(&pattern(3, 4, &[])));
    assert!(!history.accepts(&pattern(4, 3, &[])));
    let toroidal: Grid<States> = Grid::new(Dimensions::new(3, 3), Boundary::Toroidal);
    assert!(!history.accepts(&toroidal));
}

#[test]
fn checkpoints_are_kept_at_multiples_of_the_frequency() {
    let chain = replay(&glider(), 10);
    for (f_check, expected) in [(0, 1), (1, 11), (2, 6), (3, 4), (5, 3), (10, 2), (11, 1)] {
        assert_eq!(history_of(&chain, f_check).nb_checkpoints(), expected, "f_check {}", f_check);
    }
    let mut history = UniverseHistory::new(chain[0].clone(), 2);
    assert_eq!(history.nb_checkpoints(), 1);
    history.push(chain[1].clone());
    assert_eq!(history.nb_checkpoints(), 1);
    history.push(chain[2].clone());
    assert_eq!(history.nb_checkpoints(), 2);
}
