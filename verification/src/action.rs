use vstd::prelude::*;

verus! {

/// The command line: an optional command and the refresh rate in milliseconds.
pub struct Cli {
    pub command: Option<Commands>,
    pub refresh_rate: u64,
}

/// What the program is asked to do besides the interactive view.
pub enum Commands {
    /// Scan a directory and print sorted results
    Scan { path: String },
    /// Print directory tree
    Tree { path: String },
    /// Watch disk usage (repeating TUI scan)
    Watch { refresh_rate: u64, path: String },
}

} // verus!
