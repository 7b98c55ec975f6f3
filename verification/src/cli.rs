//! The command-line surface as plain data: the parsed invocation and
//! the commands it can carry. Argument parsing, prompting and dispatch
//! are I/O and live with the binary; these types carry what was parsed.

use vstd::prelude::*;

use crate::import;
use crate::merge;

verus! {

/// One action the tool can run.
pub enum Command {
    /// Create a backup of the installation database.
    Backup,
    /// Import playlist files as crates into the library.
    Import(import::Args),
    /// Merge two libraries together.
    Merge(merge::Args),
}

/// The bare subcommand names, for the interactive chooser.
pub enum Commands {
    Merge,
    Backup,
    Import,
}

/// A parsed invocation.
pub struct Cli {
    /// Debug logging, optionally narrowed to one module.
    pub debug: Option<Option<String>>,
    /// The chosen command; the chooser is shown when absent.
    pub command: Option<Command>,
}

} // verus!
