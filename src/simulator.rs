//! The batch runner: runs of one configuration in chunks of at most
//! `MAX_BATCH_SIZE`, with a session state machine that a host drives between
//! chunks, reporting progress and honouring cancellation.

use vstd::prelude::*;
use crate::dice::seeded_rng;
use crate::game::{fresh_game, is_run_of, Game, GameResult};

verus! {

/// The most runs in one chunk, between two checks for cancellation.
pub const MAX_BATCH_SIZE: usize = 10000;

/// A request to the simulator.
#[derive(Debug, Clone, Copy, PartialEq, Eq, Structural)]
pub enum Cmd {
    Begin {
        /// Total simulations to simulate
        simulations: usize,
        /// Should combat damage using squirrels be included
        squirrels: bool,
        /// Extra roll advantage effects
        advantage: usize,
        /// Starting loyalty of the planeswalker
        loyalty: i32,
        /// Damage required to win
        damage: u32,
    },
    Cancel,
}

/// Whether a session is under way.
#[derive(Debug, Clone, Copy, PartialEq, Eq, Structural)]
pub enum State {
    Idle,
    Running,
    Cancelling,
}

/// A notification to the host.
#[derive(Debug)]
pub enum Status {
    InProgress(usize, usize, Vec<GameResult>),
    Cancelled(usize, usize),
    Complete(usize, Vec<GameResult>),
    Error(String),
}

/// What the host does next in a session.
#[derive(Debug, Clone, Copy, PartialEq, Eq, Structural)]
pub enum Step {
    /// Every run is done; the session is over.
    Finished,
    /// The session was cancelled after the first count of the total runs;
    /// report `Status::Cancelled` with them.
    Cancelled(usize, usize),
    /// Run a chunk of this many runs, then report `batch_done`.
    RunBatch(usize),
}

/// The session state of a simulator: how far it has come and what it runs.
#[derive(Debug, Clone, Copy, PartialEq, Eq, Structural)]
pub struct Simulator {
    pub state: State,
    pub progress: usize,
    pub simulations: usize,
    pub squirrels: bool,
    pub advantage: usize,
    pub loyalty: i32,
    pub damage: u32,
}

impl Simulator {
    /// The size of the next chunk of a running session.
    pub open spec fn next_batch_size(self) -> int {
        if self.progress + MAX_BATCH_SIZE > self.simulations {
            self.simulations - self.progress
        } else {
            MAX_BATCH_SIZE as int
        }
    }

    /// An idle simulator.
    pub fn new() -> (r: Self)
        ensures
            r.state == State::Idle,
            r.progress == 0,
            r.simulations == 0,
    {
        Simulator {
            state: State::Idle,
            progress: 0,
            simulations: 0,
            squirrels: false,
            advantage: 0,
            loyalty: 0,
            damage: 0,
        }
    }

    /// Takes a request. `Begin` starts a session only on an idle simulator, and
    /// then reports no progress yet; on a busy one it is ignored. `Cancel` marks
    /// the simulator as cancelling.
    pub fn received(&mut self, cmd: Cmd) -> (r: Option<Status>)
        ensures
            match cmd {
                Cmd::Begin { simulations, squirrels, advantage, loyalty, damage } => {
                    if old(self).state == State::Idle {
                        &&& *final(self) == (Simulator {
                            state: State::Running,
                            progress: 0,
                            simulations,
                            squirrels,
                            advantage,
                            loyalty,
                            damage,
                        })
                        &&& r matches Some(Status::InProgress(p, t, v)) && p == 0 && t
                            == simulations && v@.len() == 0
                    } else {
                        *final(self) == *old(self) && r is None
                    }
                },
                Cmd::Cancel => *final(self) == (Simulator {
                    state: State::Cancelling,
                    ..*old(self)
                }) && r is None,
            },
    {
        match cmd {
            Cmd::Begin { simulations, squirrels, advantage, loyalty, damage } => {
                if self.state != State::Idle {
                    return None;
                }
                *self = Simulator {
                    state: State::Running,
                    progress: 0,
                    simulations,
                    squirrels,
                    advantage,
                    loyalty,
                    damage,
                };
                Some(Status::InProgress(0, simulations, Vec::new()))
            },
            Cmd::Cancel => {
                self.state = State::Cancelling;
                None
            },
        }
    }

    /// Decides the next step of a session: over when every run is done, then
    /// cancelled when cancellation was asked for, else a chunk of at most
    /// `MAX_BATCH_SIZE` runs, counted as done at once. An idle simulator has
    /// nothing to do.
    pub fn next_batch(&mut self) -> (r: Step)
        ensures
            old(self).state == State::Idle ==> r == Step::Finished && *final(self) == *old(self),
            old(self).state != State::Idle && old(self).progress >= old(self).simulations ==> r
                == Step::Finished && *final(self) == (Simulator { state: State::Idle, ..*old(self) }),
            old(self).state == State::Cancelling && old(self).progress < old(self).simulations ==> r
                == Step::Cancelled(old(self).progress, old(self).simulations) && *final(self) == (
            Simulator { state: State::Idle, ..*old(self) }),
            old(self).state == State::Running && old(self).progress < old(self).simulations ==> r
                == Step::RunBatch(old(self).next_batch_size() as usize) && *final(self) == (
            Simulator { progress: (old(self).progress + old(self).next_batch_size()) as usize, ..*old(self) }),
    {
        if self.state == State::Idle {
            return Step::Finished;
        }
        if self.progress >= self.simulations {
            self.state = State::Idle;
            return Step::Finished;
        }
        if self.state == State::Cancelling {
            self.state = State::Idle;
            return Step::Cancelled(self.progress, self.simulations);
        }
        let batch_size = if self.simulations - self.progress < MAX_BATCH_SIZE {
            self.simulations - self.progress
        } else {
            MAX_BATCH_SIZE
        };
        self.progress += batch_size;
        Step::RunBatch(batch_size)
    }

    /// The report of a finished chunk: complete when every run is done, else
    /// progress so far.
    pub fn batch_done(&self, results: Vec<GameResult>) -> (r: Status)
        ensures
            self.progress == self.simulations ==> (r matches Status::Complete(t, v) && t
                == self.simulations && v == results),
            self.progress != self.simulations ==> (r matches Status::InProgress(p, t, v) && p
                == self.progress && t == self.simulations && v == results),
    {
        if self.progress == self.simulations {
            Status::Complete(self.simulations, results)
        } else {
            Status::InProgress(self.progress, self.simulations, results)
        }
    }

    /// Runs `batch_size` games of one configuration to the end, one after the
    /// other, with dice from one generator seeded with `seed`.
    pub fn run_batch(
        batch_size: usize,
        squirrels: bool,
        advantage: usize,
        loyalty: i32,
        damage: u32,
        seed: u64,
    ) -> (results: Vec<GameResult>)
        ensures
            results@.len() == batch_size,
            forall|i: int|
                0 <= i < results@.len() ==> is_run_of(
                    #[trigger] results@[i],
                    fresh_game(squirrels, advantage, loyalty, damage),
                ),
    {
        let mut rng = seeded_rng(seed);
        let mut results: Vec<GameResult> = Vec::new();
        let mut i: usize = 0;
        while i < batch_size
            invariant
                i <= batch_size,
                results@.len() == i,
                forall|j: int|
                    0 <= j < results@.len() ==> is_run_of(
                        #[trigger] results@[j],
                        fresh_game(squirrels, advantage, loyalty, damage),
                    ),
            decreases batch_size - i,
        {
            let mut game = Game::new(squirrels, advantage, loyalty, damage);
            let result = game.run(&mut rng);
            results.push(result);
            i = i + 1;
        }
        results
    }
}

} // verus!
