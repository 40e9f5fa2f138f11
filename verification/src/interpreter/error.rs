use vstd::prelude::*;

verus! {

/// Fatal conditions the interpreter core can surface.
#[derive(Debug)]
pub enum Error {
    /// The core's step budget ran out without reaching an end state.
    EOF,
    /// A character outside the supported instruction set was executed;
    /// carries the offending character.
    UnimplementedInstruction(char),
}

} // verus!
