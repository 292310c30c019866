//! A pool of external programs run side by side and driven to completion by a
//! cooperative poll loop.
//!
//! The library holds the decisions: how a command line becomes a program and its
//! arguments, how each tracked process moves from created to running to
//! finished, and how a sweep over the pool captures output and removes what has
//! finished. The caller performs the operating-system work (spawning, the
//! non-blocking wait, reading the output pipe, the clock) and hands the results
//! in as plain values.

pub mod command;
pub mod process;
pub mod pool;

pub use command::{parse_command, split_program};
pub use process::{Failure, Phase, PollEvent, Process, SpawnOutcome};
pub use pool::ProcessPool;
