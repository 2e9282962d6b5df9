//! The arguments of the command line, as plain values.

use vstd::prelude::*;

verus! {

/// What the command line gives: a keyword, a file and a switch.
pub struct Cli {
    /// The keyword to search for.
    pub keyword: String,
    /// The path of the file to search.
    pub file_path: String,
    /// Whether case is ignored: `1` for yes, anything else for no.
    pub ignore_case: u8,
}

} // verus!
