use vstd::prelude::*;

use crate::interpreter;

verus! {

/// The error channel shared by every stage of the pipeline.
///
/// All fallible stages report through this type; the orchestrator prints a
/// single line and exits non-zero. No recovery is attempted within a run.
#[derive(Debug)]
pub enum Error {
    /// An underlying read or write failed; carries the host's description.
    IO(String),
    /// The interpreter core reported a fatal condition.
    Interpreter(interpreter::Error),
    /// An optimization level other than the accepted ones was requested;
    /// carries the offending level text.
    InvalidOptimization(String),
    /// A grid was built from rows of unequal length, or with no cells.
    GridShape,
}

} // verus!
