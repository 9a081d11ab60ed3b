//! The settings of one run.

use std::path::PathBuf;
use vstd::prelude::*;

verus! {

/// What to count and how to pick the files.
#[derive(Debug)]
pub struct Args {
    /// Files to count outright, and directories to search for files.
    pub paths: Vec<PathBuf>,
    /// Search each directory itself only, not the directories below it.
    pub no_recurse: bool,
    /// The pattern that a file's name is held against.
    pub regex_string: String,
    /// Keep the files whose name the pattern does not match.
    pub regex_not: bool,
}

} // verus!
