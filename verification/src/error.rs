//! The ways in which a count can fail.

use std::path::PathBuf;
use vstd::prelude::*;

verus! {

/// Why a count was given up. Every failure ends the whole run: nothing is
/// skipped and no partial total is reported.
#[derive(Debug)]
pub enum CountError {
    /// The filter's pattern does not compile.
    InvalidPattern(regex::Error),
    /// The directory could not be opened, or one of its entries could not be
    /// retrieved.
    DirectoryRead(PathBuf, std::io::Error),
    /// The kind of the entry at this path could not be determined.
    Metadata(PathBuf, std::io::Error),
    /// The name of the entry at this path is no text that a pattern can be
    /// held against.
    NameDecode(PathBuf),
    /// The entry at this path passes the filter but is neither a regular file
    /// nor a directory.
    UnsupportedEntryKind(PathBuf),
    /// The file at this path could not be opened for counting.
    FileOpen(PathBuf, std::io::Error),
    /// Adding the count that belongs to this path takes the total beyond what
    /// a `usize` holds.
    Overflow(PathBuf),
    /// An answer arrived that does not fit the question that was asked.
    UnexpectedEvent,
}

} // verus!
