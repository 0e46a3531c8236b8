//! The command line of the `dotty` program, as plain values.
use vstd::prelude::*;

verus! {

/// The command line: an optional path to the dottyfile, and what to do.
pub struct Cli {
    pub config: Option<String>,
    pub command: Command,
}

/// What the program is asked to do.
pub enum Command {
    /// Link dotfiles to their locations, overwriting existing files if `overwrite`,
    /// asking before each link if `ask`.
    Install { overwrite: bool, ask: bool, profile: Option<String> },
    /// Remove the links the dottyfile declares.
    Remove { profile: Option<String> },
    /// Show the state of each link.
    Status { profile: Option<String> },
}

} // verus!
