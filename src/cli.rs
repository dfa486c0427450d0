//! The command line as plain values, and the choice of what to run.

use vstd::prelude::*;

verus! {

/// The parsed command line.
pub struct Cli {
    /// The command to execute
    pub command: Commands,
}

/// The commands of the tool.
pub enum Commands {
    /// Collect file operation events until interrupted, keeping those whose
    /// extension is listed (all of them when no list is given).
    Collect { extensions: Option<Vec<String>> },
}

/// The extension filter that the command line asks collection to run with.
pub fn run_command(cli: Cli) -> (r: Option<Vec<String>>)
    ensures
        r == match cli.command {
            Commands::Collect { extensions } => extensions,
        },
{
    match cli.command {
        Commands::Collect { extensions } => extensions,
    }
}

} // verus!
