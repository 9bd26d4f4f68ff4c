//! The options a formatting run is started with.

use vstd::prelude::*;

verus! {

/// Files to beautify, and whether to write the results back to them.
pub struct Arguments {
    /// Files to beautify; none means standard input.
    pub files: Vec<String>,
    /// Write each result back to its file instead of printing it.
    pub inplace: bool,
}

} // verus!
