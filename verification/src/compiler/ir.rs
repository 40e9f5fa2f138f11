use vstd::prelude::*;

use crate::interpreter::value::DynamicValue;

verus! {

/// A value an action operates on: resolved at compile time, or a symbolic
/// tree computed at run time.
#[derive(Debug, PartialEq)]
pub enum ActionValue {
    /// A concrete integer.
    Const(i32),
    /// A symbolic tree over tagged unknowns.
    Dynamic(DynamicValue),
}

/// One straight-line effect within a block.
#[derive(Debug, PartialEq)]
pub enum Action {
    /// Emit the character whose code is the value.
    OutputChar(ActionValue),
    /// Emit a whole string at once.
    OutputString(String),
    /// Read one character and bind it to the tag.
    Input(usize),
    /// Bind the value to the tag, so later uses share one computation.
    Tag(usize, ActionValue),
}

/// How a block leaves: by ending the program, or by branching on a value —
/// to the first block index when the value is zero, to the second when it
/// is not.
#[derive(Debug, PartialEq)]
pub enum End {
    /// The program ends.
    End,
    /// Branch: zero goes to the first index, non-zero to the second.
    If(ActionValue, usize, usize),
}

/// One basic block: a straight line of actions and a terminator.
#[derive(Debug, PartialEq)]
pub struct Block {
    /// The actions, in execution order.
    pub actions: Vec<Action>,
    /// The terminator.
    pub end: End,
}

impl Block {
    pub fn new(actions: Vec<Action>, end: End) -> (r: Self)
        ensures
            r.actions@ == actions@,
            r.end == end,
    {
        Self { actions, end }
    }

    /// The block's actions, in execution order.
    pub fn actions(&self) -> (r: &[Action])
        ensures
            r@ == self.actions@,
    {
        self.actions.as_slice()
    }

    /// The block's terminator.
    pub fn end(&self) -> (r: &End)
        ensures
            r == &self.end,
    {
        &self.end
    }
}

/// Every branching terminator in the table targets indices below the bound.
pub open spec fn ends_in_range(blocks: Seq<Block>, bound: int) -> bool {
    forall|i: int|
        0 <= i < blocks.len() ==> (#[trigger] blocks[i].end matches End::If(_, t, f) ==> t < bound
            && f < bound)
}

} // verus!
