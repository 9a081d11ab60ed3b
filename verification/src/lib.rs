//! Counting lines over file trees: the rules that decide which files are
//! counted and how their counts add up, kept apart from the file system.
//!
//! A run is a [`session::Session`]. It asks for what it needs to know of
//! the file system (whether a path is a file, what a directory holds, how
//! many lines a file has) and takes each answer as plain values; the one
//! who answers may read the disk in parallel. Everything that is decided,
//! the session decides:
//!
//! - [`filter`] holds a file's name against the pattern;
//! - [`classify`] tells the files to count, the directories to descend
//!   into and the entries that stop a scan apart;
//! - [`walk`] scans a whole level of a tree;
//! - [`lines`] counts the lines in a file's bytes;
//! - [`tally`] adds the counts up and watches for overflow;
//! - [`replay`] and [`tree`] state what whole runs come to.

pub mod args;
pub mod classify;
pub mod entry;
pub mod error;
pub mod filter;
pub mod lines;
pub mod matcher;
pub mod paths;
pub mod replay;
pub mod seqs;
pub mod session;
pub mod tally;
pub mod tree;
pub mod walk;
