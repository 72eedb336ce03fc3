use vstd::prelude::*;

verus! {

/// The command line of the linter: the one file to check.
pub struct Cli {
    /// Path of the Python file to lint.
    pub file: String,
}

} // verus!
