use vstd::prelude::*;

use crate::host;
use crate::interpreter::interpreter::Interpreter;
use crate::interpreter::machine::DebugInspectable;
use crate::interpreter::machine::DebuggerCallback;
use crate::interpreter::machine::InterpreterCallback;
use crate::interpreter::machine::InterpreterCore;

verus! {

/// How the debugger treats each step.
#[derive(Clone, Copy, Debug, PartialEq, Eq, Structural)]
pub enum DebugMode {
    /// Print a trace and wait for a command before every step.
    Step,
    /// Run on, printing a trace only while tracing is switched on.
    Continue,
}

/// A step observer that wraps the direct front-end with a trace and a
/// line-oriented command prompt.
pub struct Debugger {
    /// How each step is treated.
    pub mode: DebugMode,
    /// Whether a trace is printed while running on.
    pub trace: bool,
}

impl Debugger {
    /// An interpreter core wired for direct execution under this debugger.
    pub fn stage(trace: bool, cont: bool) -> (r: InterpreterCore<Interpreter, Debugger>)
        ensures
            r.callback.inv(),
            r.callback.concrete(),
            r.debugger.mode == if cont {
                DebugMode::Continue
            } else {
                DebugMode::Step
            },
            r.debugger.trace == trace,
    {
        let debugger = Self {
            mode: if cont {
                DebugMode::Continue
            } else {
                DebugMode::Step
            },
            trace,
        };

        InterpreterCore::new(Interpreter { seen: Ghost(Seq::empty()) }, debugger)
    }

    /// Prints one trace line: the stack, the pointer's position and the
    /// character it rests on.
    pub fn trace<I: DebugInspectable>(&self, inspectable: &I)
        requires
            inspectable.inspectable(),
    {
        host::print_trace(
            inspectable.inspect_stack(),
            inspectable.inspect_pos(),
            inspectable.inspect_next(),
        );
    }

    /// Interprets one command line: `c` switches to running on, `t` toggles
    /// tracing, and anything else merely advances one step.
    pub fn apply_command(&mut self, line: &str)
        ensures
            line@ == seq!['c'] ==> *final(self) == (Debugger {
                mode: DebugMode::Continue,
                ..*old(self)
            }),
            line@ == seq!['t'] ==> *final(self) == (Debugger {
                trace: !old(self).trace,
                ..*old(self)
            }),
            line@ != seq!['c'] && line@ != seq!['t'] ==> *final(self) == *old(self),
    {
        proof {
            assert(seq!['c'].len() == 1);
            assert(seq!['t'].len() == 1);
        }
        if line.unicode_len() == 1 {
            let c = line.get_char(0);
            proof {
                assert(line@ =~= seq![line@[0]]);
            }
            if c == 'c' {
                self.mode = DebugMode::Continue;
            } else if c == 't' {
                self.trace = !self.trace;
            }
        }
    }
}

impl<I: DebugInspectable> DebuggerCallback<I> for Debugger {
    /// One step: in stepping mode, print the trace and obey one command
    /// line; while running on, print the trace only when tracing is on.
    ///
    /// Whatever line the host supplies, the observer changes only as one
    /// command allows: while running on it never changes, and in stepping
    /// mode it either runs on, toggles tracing, or stays as it is — so the
    /// mode only ever moves from stepping to running on, and the trace
    /// flag only flips while stepping.
    fn debug_step(&mut self, inspectable: &I)
        ensures
            old(self).mode is Continue ==> *final(self) == *old(self),
            old(self).mode is Step ==> {
                ||| *final(self) == (Debugger { mode: DebugMode::Continue, ..*old(self) })
                ||| *final(self) == (Debugger { trace: !old(self).trace, ..*old(self) })
                ||| *final(self) == *old(self)
            },
    {
        match self.mode {
            DebugMode::Step => {
                self.trace(inspectable);

                let input = host::read_line();
                self.apply_command(input.as_str());
            }
            DebugMode::Continue => {
                if self.trace {
                    self.trace(inspectable);
                }
            }
        }
    }
}

} // verus!
