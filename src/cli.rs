//! The command line's arguments.
use vstd::prelude::*;

verus! {

/// What the command line asks for.
pub struct Cli {
    /// Paths in which to search, recursively, for dead files.
    pub paths: Vec<String>,
    /// Paths to leave out of the search.
    pub ignore_paths: Vec<String>,
}

} // verus!
