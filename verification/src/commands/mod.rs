//! The commands.

use vstd::prelude::*;

pub mod annotations;
pub mod auto;
pub mod bisect;
pub mod ci;
pub mod ci_report;
pub mod config;
pub mod diff;
pub mod export;
pub mod flaky;
pub mod help;
pub mod info;
pub mod init;
pub mod list_tests;
pub mod log;
pub mod prune;
pub mod quickstart;
pub mod repo_check;
pub mod rerun;
pub mod run;
pub mod running;
pub mod shard;
pub mod starts;
pub mod stress;
pub mod summarize;
pub mod upgrade;
pub mod utils;
pub mod wait;
pub mod web;

verus! {

/// What every command has.
pub trait Command {
    /// The name of the command.
    fn name(&self) -> &str;

    /// What the command does, in one line.
    fn help(&self) -> &str;
}

} // verus!
