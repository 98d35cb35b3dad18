//! Counting the lines of the files under a directory tree, optionally
//! filtered by extension: argument reading, the walk that builds the File
//! List, line counting, and the running total.
use vstd::prelude::*;

pub mod args;
pub mod lines;
pub mod tally;
pub mod walk;

verus! {

} // verus!
