use comet::game::Outcome;
use comet::simulator::{Cmd, Simulator, State, Status, Step, MAX_BATCH_SIZE};

fn begin(simulations: usize) -> Cmd {
    Cmd::Begin { simulations, squirrels: true, advantage: 0, loyalty: 5, damage: 20 }
}

#[test]
fn begin_starts_a_session() {
    let mut sim = Simulator::new();
    match sim.received(begin(25000)) {
        Some(Status::InProgress(0, 25000, v)) => assert!(v.is_empty()),
        other => panic!("unexpected {:?}", other),
    }
    assert_eq!(sim.state, State::Running);
    assert!(sim.received(begin(5)).is_none());
    assert_eq!(sim.simulations, 25000);
}

#[test]
fn session_runs_in_chunks() {
    let mut sim = Simulator::new();
    sim.received(begin(25000));
    assert_eq!(sim.next_batch(), Step::RunBatch(MAX_BATCH_SIZE));
    assert!(matches!(sim.batch_done(Vec::new()), Status::InProgress(10000, 25000, _)));
    assert_eq!(sim.next_batch(), Step::RunBatch(10000));
    assert_eq!(sim.next_batch(), Step::RunBatch(5000));
    assert!(matches!(sim.batch_done(Vec::new()), Status::Complete(25000, _)));
    assert_eq!(sim.next_batch(), Step::Finished);
    assert_eq!(sim.state, State::Idle);
    assert_eq!(sim.next_batch(), Step::Finished);
}

#[test]
fn cancel_stops_between_chunks() {
    let mut sim = Simulator::new();
    sim.received(begin(30000));
    assert_eq!(sim.next_batch(), Step::RunBatch(10000));
    assert!(sim.received(Cmd::Cancel).is_none());
    assert_eq!(sim.next_batch(), Step::Cancelled(10000, 30000));
    assert_eq!(sim.state, State::Idle);
}

#[test]
fn empty_session_finishes_at_once() {
    let mut sim = Simulator::new();
    sim.received(begin(0));
    assert_eq!(sim.next_batch(), Step::Finished);
    assert_eq!(sim.state, State::Idle);
}

#[test]
fn run_batch_runs_every_game() {
    let results = Simulator::run_batch(300, true, 1, 5, 20, 11);
    assert_eq!(results.len(), 300);
    for r in &results {
        assert_eq!(r.rolls % 2, 0);
        let win = r.damage >= 20 || r.damage + r.squirrels >= 20;
        assert_eq!(win, r.outcome == Outcome::Win);
    }
    assert!(Simulator::run_batch(0, true, 1, 5, 20, 11).is_empty());
}

#[test]
fn run_batch_with_one_seed_repeats() {
    let a = Simulator::run_batch(100, false, 0, 5, 20, 2024);
    let b = Simulator::run_batch(100, false, 0, 5, 20, 2024);
    assert_eq!(a, b);
}
