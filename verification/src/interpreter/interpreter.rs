use vstd::prelude::*;

use crate::host;
use crate::interpreter::machine::DebugInspectable;
use crate::interpreter::machine::DebuggerCallback;
use crate::interpreter::machine::InterpreterCallback;
use crate::interpreter::machine::InterpreterCore;
use crate::interpreter::machine::QueuedState;
use crate::interpreter::step::RunEvent;
use crate::interpreter::step::RunOutcome;
use crate::interpreter::value::DynamicValue;
use crate::interpreter::value::StackValue;

verus! {

/// The direct-execution front-end: runs a program to its side effects,
/// printing output characters and reading input bytes as it goes.
///
/// This front-end is concrete: the core guarantees it is never handed a
/// symbolic value, so the materialization and branching callbacks are
/// provably never reached.
pub struct Interpreter {
    /// The interactions answered so far, kept only for specification: the
    /// core's contract relates them to the program's specification-level
    /// run.
    pub seen: Ghost<Seq<RunEvent>>,
}

/// A step observer that observes nothing.
pub struct NullDebugger;

impl Interpreter {
    /// An interpreter core wired for plain direct execution, without a
    /// debugger.
    pub fn stage() -> (r: InterpreterCore<Interpreter, NullDebugger>)
        ensures
            r.callback.inv(),
            r.callback.concrete(),
    {
        InterpreterCore::new(Interpreter { seen: Ghost(Seq::empty()) }, NullDebugger)
    }
}

impl InterpreterCallback for Interpreter {
    type End = ();

    open spec fn concrete(&self) -> bool {
        true
    }

    open spec fn inv(&self) -> bool {
        true
    }

    open spec fn frame(&self, prev: &Self) -> bool {
        true
    }

    open spec fn end_post(&self, r: &()) -> bool {
        true
    }

    /// Direct execution accepts any value; only the concrete ones ever
    /// reach it.
    open spec fn val_ok(&self, v: StackValue) -> bool {
        true
    }

    open spec fn history(&self) -> Seq<RunEvent> {
        self.seen@
    }

    /// Direct execution yields nothing, so any outcome corresponds.
    open spec fn matches_outcome(&self, r: &(), outcome: RunOutcome) -> bool {
        true
    }

    proof fn frame_refl(&self) {
    }

    proof fn frame_trans(&self, mid: &Self, prev: &Self) {
    }

    proof fn val_ok_const(&self, i: i32) {
    }

    proof fn val_ok_frame(&self, prev: &Self, v: StackValue) {
    }

    proof fn val_ok_combine(&self, lhs: StackValue, rhs: StackValue) {
    }

    /// Prints the character whose code is the concrete operand; a code that
    /// is no valid scalar prints nothing.
    fn output(&mut self, value: StackValue) {
        let ghost emitted = value;
        match value {
            StackValue::Const(i) => {
                match host::char_from_u32(i as u32) {
                    Some(c) => {
                        let mut s = String::new();
                        host::push_char(&mut s, c);
                        host::print_text(s.as_str());
                    }
                    None => (),
                }
            }
            // A concrete front-end is never handed a symbolic value.
            StackValue::Dynamic(_) => (),
        }
        self.seen = Ghost(self.seen@.push(RunEvent::Out(emitted)));
    }

    /// Reads one byte from standard input as a concrete value, so the
    /// result is a constant byte code.
    fn input(&mut self) -> (r: StackValue)
        ensures
            r matches StackValue::Const(i) && 0 <= i < 256,
    {
        let value = StackValue::Const(host::read_byte() as i32);
        self.seen = Ghost(self.seen@.push(RunEvent::In(value)));
        value
    }

    /// Never reached: direct execution cannot materialize unknowns.
    fn duplicate(&mut self, value: DynamicValue) -> (r: StackValue) {
        let result = StackValue::Const(0);
        self.seen = Ghost(self.seen@.push(RunEvent::Dup(value, result)));
        result
    }

    /// Never reached: direct execution cannot branch on an unknown.
    fn if_zero(&mut self, value: DynamicValue, t: QueuedState, f: QueuedState) -> (r: ()) {
    }

    fn end(&mut self) -> (r: ()) {
    }
}

impl<I: DebugInspectable> DebuggerCallback<I> for NullDebugger {
    fn debug_step(&mut self, inspectable: &I) {
    }
}

} // verus!
