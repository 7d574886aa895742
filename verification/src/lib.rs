//! A declarative test-execution engine.
//!
//! A suite is an ordered list of shell-command steps. Each command reports its
//! outcome by writing marker lines; the engine classifies those lines, decides
//! which steps run, and aggregates results per data-set row, per step and per
//! suite. Spawning processes and rendering progress are left to the caller:
//! the engine is a state machine that says which command to run next and is
//! fed what the command printed.

pub mod budget;
pub mod data_sets;
pub mod environment;
pub mod protocol;
pub mod reporter;
pub mod runner;
pub mod selection;
pub mod session;
pub mod test_results;
pub mod test_suite;
pub mod ui;

pub use crate::session::TestSession;
