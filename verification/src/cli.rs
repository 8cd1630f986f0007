//! Invocation options for a compiler run.

use vstd::prelude::*;

verus! {

/// The options a compiler run is invoked with.
pub struct Options {
    /// The input source file; standard input if not specified.
    pub input: Option<String>,
    /// Where to write the intermediate code, if anywhere.
    pub output: Option<String>,
    /// Whether to run the optimization pass.
    pub optimize: bool,
}

} // verus!
