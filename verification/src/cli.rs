//! The command-line surface, as plain data. The host parses the real
//! arguments and hands over one of these values.

use vstd::prelude::*;

verus! {

/// The subcommands the trainer offers.
#[derive(Debug, PartialEq, Clone)]
pub enum Commands {
    /// Add a new command to the default list.
    Add { value: Option<String> },
    /// Add a value to revisit later.
    Bucket { value: Option<String> },
    /// Start an explorer to see all the commands.
    Explore,
    /// Start the flashcard game.
    Run,
}

/// The parsed invocation: the chosen subcommand, if any.
pub struct Cli {
    pub command: Option<Commands>,
}

} // verus!
