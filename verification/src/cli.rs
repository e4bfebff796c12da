//! The command line of the tool, as plain values: a verbosity count and one
//! of two commands, each naming the archive to read.
use vstd::prelude::*;

verus! {

/// A parsed command line.
#[derive(Debug, Clone, PartialEq, Eq)]
pub struct Cli {
    /// How many times `-v` was given.
    pub verbose: u8,
    pub command: Command,
}

/// The command to run.
#[derive(Debug, Clone, PartialEq, Eq)]
pub enum Command {
    /// Print a short summary for an Ignition archive.
    Summarize {
        /// Path to an Ignition project export (.zip) or gateway backup (.gwbk).
        archive_path: String,
    },
    /// Build analysis artifacts in an output directory.
    Analyze {
        /// Path to an Ignition project export (.zip) or gateway backup (.gwbk).
        archive_path: String,
        /// Directory where generated files will be written.
        out_dir: String,
    },
}

} // verus!
