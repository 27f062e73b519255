//! `yx`: tag files with your own tags and find them again.
//!
//! The whole state of a tag library lives in an index file (`.yx_index`).
//! This crate holds the verified logic behind the `yx` command: the tag
//! index and its edits, constraints, scribing tags out of file names,
//! resolving paths relative to the index, and reading the command line.
use vstd::prelude::*;

pub mod text;
pub mod stringset;
pub mod index;
pub mod error;
pub mod paths;
pub mod pathkey;
pub mod classes;
pub mod sub;
pub mod constraints;
pub mod scribe;
pub mod cli;
pub mod laws;

verus! {

/// The name of the file that holds an index.
pub const INDEX_FILE_NAME: &'static str = ".yx_index";

/// A line of dashes that splits up condensed output.
pub const LINE_SEPARATOR: &'static str = "--------------------------------------------------";

} // verus!
