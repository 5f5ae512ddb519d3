use cellular::error::EngineError;
use cellular::game_of_life::States;
use cellular::grid::{Boundary, Dimensions, Grid, Position};
use cellular::history_service::{HistoryRequest, HistoryResponse, HistoryService, Mail, ServiceAction};
use cellular::universe::Universe;
use cellular::universe_history::UniverseHistory;

fn pattern(rows: usize, cols: usize, alive: &[(usize, usize)]) -> Grid<States> {
    let mut grid = Grid::new(Dimensions::new(rows, cols), Boundary::Fixed(States::Dead));
    for &(row, col) in alive {
        grid.set(&Position::new(row, col), States::Alive);
    }
    grid
}

fn replay(initial: &Grid<States>, length: usize) -> Vec<Grid<States>> {
    let mut chain = vec![initial.clone()];
    for i in 0..length {
        let next = Universe::new(chain[i].clone()).step().grid().clone();
        chain.push(next);
    }
    chain
}

fn glider_chain(length: usize) -> Vec<Grid<States>> {
    replay(&pattern(8, 8, &[(0, 1), (1, 2), (2, 0), (2, 1), (2, 2)]), length)
}

fn service_with(chain: &[Grid<States>], pushed: usize, f_check: usize) -> HistoryService<States> {
    let mut service = HistoryService::new(UniverseHistory::new(chain[0].clone(), f_check));
    for grid in &chain[1..=pushed] {
        assert!(is_continue(&service.handle(push(grid))));
    }
    service
}

fn push(grid: &Grid<States>) -> Mail<States> {
    Mail::Message(HistoryRequest::Push(grid.clone()), false)
}

fn get_gen(gen: usize, blocking: bool) -> Mail<States> {
    Mail::Message(HistoryRequest::GetGen(gen, blocking), true)
}

fn get_diff(ref_gen: usize, target_gen: usize, blocking: bool) -> Mail<States> {
    Mail::Message(HistoryRequest::GetDiff(ref_gen, target_gen, blocking), true)
}

fn is_continue(action: &ServiceAction<States>) -> bool {
    matches!(action, ServiceAction::Continue)
}

fn gen_of(action: ServiceAction<States>) -> Option<Grid<States>> {
    match action {
        ServiceAction::Respond(HistoryResponse::GetGen(found)) => found,
        _ => panic!("the service did not answer with a generation"),
    }
}

fn diff_of(action: ServiceAction<States>) -> Option<cellular::diff::Diff<States>> {
    match action {
        ServiceAction::Respond(HistoryResponse::GetDiff(found)) => found,
        _ => panic!("the service did not answer with a diff"),
    }
}

fn violates(action: &ServiceAction<States>) -> bool {
    matches!(action, ServiceAction::Terminate(EngineError::ProtocolViolation))
}

#[test]
fn new_service_is_idle() {
    let service = service_with(&glider_chain(0), 0, 2);
    assert!(!service.is_waiting());
    assert!(!service.is_stopped());
    assert_eq!(service.history().len(), 0);
}

#[test]
fn push_is_taken_in_without_an_answer() {
    let chain = glider_chain(3);
    let mut service = service_with(&chain, 0, 2);
    for (pushed, grid) in chain[1..].iter().enumerate() {
        assert!(is_continue(&service.handle(push(grid))));
        assert_eq!(service.history().len(), pushed + 1);
        assert!(!service.is_waiting());
    }
    assert_eq!(service.history().get_gen(3), Some(chain[3].clone()));
}

#[test]
fn queries_are_answered_at_once_where_they_can_be() {
    let chain = glider_chain(4);
    let mut service = service_with(&chain, 4, 2);
    for blocking in [false, true] {
        for gen in 0..=4 {
            assert_eq!(gen_of(service.handle(get_gen(gen, blocking))), Some(chain[gen].clone()));
            assert!(!service.is_waiting());
        }
        assert_eq!(diff_of(service.handle(get_diff(1, 3, blocking))), Some(chain[1].diff(&chain[3])));
        assert!(!service.is_waiting());
    }
    assert_eq!(service.history().len(), 4);
}

#[test]
fn non_blocking_queries_say_not_yet() {
    let chain = glider_chain(2);
    let mut service = service_with(&chain, 2, 0);
    assert_eq!(gen_of(service.handle(get_gen(3, false))), None);
    assert_eq!(diff_of(service.handle(get_diff(0, 3, false))), None);
    assert!(!service.is_waiting());
    assert!(!service.is_stopped());
}

#[test]
fn blocking_wait() {
    let chain = glider_chain(6);
    let mut service = service_with(&chain, 2, 2);
    // Generation 5 is asked for while the latest is generation 2.
    assert!(is_continue(&service.handle(get_gen(5, true))));
    assert!(service.is_waiting());
    // Four more generations arrive; the third of them is generation 5.
    assert!(is_continue(&service.handle(push(&chain[3]))));
    assert!(service.is_waiting());
    assert!(is_continue(&service.handle(push(&chain[4]))));
    assert!(service.is_waiting());
    assert_eq!(gen_of(service.handle(push(&chain[5]))), Some(chain[5].clone()));
    assert!(!service.is_waiting());
    assert!(is_continue(&service.handle(push(&chain[6]))));
    assert_eq!(service.history().len(), 6);
    assert!(!service.is_stopped());
}

#[test]
fn blocking_wait_for_a_diff() {
    let chain = glider_chain(5);
    for f_check in [0, 1, 2, 5] {
        let mut service = service_with(&chain, 1, f_check);
        assert!(is_continue(&service.handle(get_diff(1, 4, true))));
        assert!(service.is_waiting());
        assert!(is_continue(&service.handle(push(&chain[2]))));
        assert!(is_continue(&service.handle(push(&chain[3]))));
        assert!(service.is_waiting());
        assert_eq!(diff_of(service.handle(push(&chain[4]))), Some(chain[1].diff(&chain[4])));
        assert!(!service.is_waiting());
    }
}

#[test]
fn blocking_wait_from_a_reference_that_is_not_there_yet() {
    let chain = glider_chain(4);
    let mut service = service_with(&chain, 1, 2);
    assert!(is_continue(&service.handle(get_diff(3, 4, true))));
    assert!(is_continue(&service.handle(push(&chain[2]))));
    assert!(is_continue(&service.handle(push(&chain[3]))));
    assert_eq!(diff_of(service.handle(push(&chain[4]))), Some(chain[3].diff(&chain[4])));
}

#[test]
fn a_range_that_runs_backwards_is_rejected_and_the_service_goes_on() {
    let chain = glider_chain(3);
    let mut service = service_with(&chain, 3, 2);
    for blocking in [false, true] {
        let action = service.handle(get_diff(2, 1, blocking));
        assert!(matches!(action, ServiceAction::Reject(EngineError::InvalidRange)));
        assert!(!service.is_waiting());
        assert!(!service.is_stopped());
    }
    assert_eq!(gen_of(service.handle(get_gen(3, false))), Some(chain[3].clone()));
}

#[test]
fn a_query_during_a_wait_breaks_the_protocol() {
    let chain = glider_chain(2);
    for intruder in [get_gen(0, false), get_gen(9, true), get_diff(0, 1, false)] {
        let mut service = service_with(&chain, 1, 2);
        assert!(is_continue(&service.handle(get_gen(2, true))));
        assert!(violates(&service.handle(intruder)));
        assert!(service.is_stopped());
    }
}

#[test]
fn mail_in_the_wrong_form_breaks_the_protocol() {
    let chain = glider_chain(2);
    let wrong = [
        Mail::Message(HistoryRequest::Push(chain[2].clone()), true),
        Mail::Message(HistoryRequest::GetGen(0, false), false),
        Mail::Message(HistoryRequest::GetDiff(0, 1, true), false),
    ];
    for mail in wrong {
        let mut service = service_with(&chain, 1, 2);
        assert!(violates(&service.handle(mail)));
        assert!(service.is_stopped());
        assert_eq!(service.history().len(), 1);
    }
}

#[test]
fn a_dead_channel_ends_the_service() {
    let chain = glider_chain(2);
    let mut idle = service_with(&chain, 2, 2);
    assert!(matches!(idle.handle(Mail::DeadChannel), ServiceAction::Terminate(EngineError::DeadChannel)));
    assert!(idle.is_stopped());

    let mut waiting = service_with(&chain, 2, 2);
    assert!(is_continue(&waiting.handle(get_gen(7, true))));
    assert!(matches!(waiting.handle(Mail::DeadChannel), ServiceAction::Terminate(EngineError::DeadChannel)));
    assert!(waiting.is_stopped());
}
