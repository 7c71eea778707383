//! Monte Carlo simulation of a repeatedly activated dice ability: a verified
//! single-run engine, a batch runner with a chunked session state machine, and
//! an aggregator that folds run results into summary totals.

pub mod dice;
pub mod game;
pub mod summary;
pub mod simulator;
