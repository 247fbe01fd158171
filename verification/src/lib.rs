//! Verified core of a command-line tool that runs experiments over batches of
//! randomly generated KenKen puzzles: configuration resolution, per-trial
//! seeding and the solution-count histogram.
pub mod config;
pub mod experiments;
