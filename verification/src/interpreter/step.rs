//! The specification-level machine: the interpreter's dispatch table as a
//! mathematical step function over an abstract configuration, and whole
//! runs built from it.
//!
//! The executable core in [`crate::interpreter::machine`] is verified to
//! follow this model step for step: its contract quotes these definitions,
//! so a caller can reason about a program's effects without reading the
//! loop.

use vstd::prelude::*;

use crate::interpreter::grid::Delta;
use crate::interpreter::grid::Ip;
use crate::interpreter::machine::Stringmode;
use crate::interpreter::machine::all_const;
use crate::interpreter::machine::mode_after_push;
use crate::interpreter::machine::spec_pop;
use crate::interpreter::machine::toggled;
use crate::interpreter::value::DynamicValue;
use crate::interpreter::value::StackValue;
use crate::interpreter::value::apply_add;
use crate::interpreter::value::apply_mul;
use crate::interpreter::value::apply_sub;

verus! {

/// The interpreter's state, abstractly: the program, the pointer, the
/// travel direction, the value stack and the capture mode.
#[verifier::ext_equal]
pub struct Config {
    /// The program grid, row by row.
    pub grid: Seq<Seq<char>>,
    /// The instruction pointer.
    pub ip: Ip,
    /// The travel direction; `None` only before the first fetch.
    pub delta: Option<Delta>,
    /// The value stack, bottom first.
    pub stack: Seq<StackValue>,
    /// The capture mode.
    pub stringmode: Stringmode,
}

impl Config {
    /// The pointer lies on the grid's torus.
    pub open spec fn wf(self) -> bool {
        &&& self.grid.len() > 0
        &&& self.grid[0].len() > 0
        &&& crate::interpreter::grid::all_rows_equal_spec(self.grid)
        &&& self.ip.wf()
        &&& self.ip.w == self.grid[0].len()
        &&& self.ip.h == self.grid.len()
    }

    /// The direction the next fetch travels in.
    pub open spec fn heading(self) -> Delta {
        match self.delta {
            Some(delta) => delta,
            None => Delta::Right,
        }
    }

    /// The configuration after the fetch: the pointer one step along the
    /// direction — except before the first fetch, which only fixes the
    /// direction to the right.
    pub open spec fn fetched(self) -> Config {
        Config {
            ip: match self.delta {
                Some(delta) => self.ip.stepped(delta),
                None => self.ip,
            },
            delta: Some(self.heading()),
            ..self
        }
    }

    /// The character under the pointer.
    pub open spec fn cell(self) -> char {
        self.grid[self.ip.y as int][self.ip.x as int]
    }

    /// This configuration, travelling in the given direction.
    pub open spec fn steered(self, delta: Delta) -> Config {
        Config { delta: Some(delta), ..self }
    }

    /// This configuration with one more value on the stack.
    pub open spec fn pushed(self, value: StackValue) -> Config {
        Config { stack: self.stack.push(value), ..self }
    }

    /// This configuration with the top of the stack popped.
    pub open spec fn popped(self) -> Config {
        Config { stack: spec_pop(self.stack).1, ..self }
    }

    /// The value the pop yields: the top, or the constant zero when empty.
    pub open spec fn top(self) -> StackValue {
        spec_pop(self.stack).0
    }
}

/// What one dispatched instruction asks of the front-end.
pub enum StepEffect {
    /// No interaction: the transition is internal.
    Quiet,
    /// The value is emitted as a character.
    Output(StackValue),
    /// One value is read and pushed.
    Input,
    /// The tree is materialized once and the result pushed twice.
    Duplicate(DynamicValue),
    /// The run branches on the tree: the first continuation is taken where
    /// its value is zero, the second where it is not.
    Branch(DynamicValue, Config, Config),
    /// The program ends.
    End,
    /// The character is no instruction; execution is fatal.
    Unsupported(char),
}

/// One fetch-dispatch step: the dispatch table of the instruction set, as a
/// function from a configuration to the configuration after the step and
/// the interaction the step asks of the front-end.
pub open spec fn spec_step(c: Config) -> (Config, StepEffect) {
    let f = c.fetched();
    let ch = f.cell();
    if ch == '"' {
        (Config { stringmode: toggled(f.stringmode), ..f }, StepEffect::Quiet)
    } else if f.stringmode != Stringmode::Not {
        (
            Config {
                stack: f.stack.push(StackValue::Const(ch as i32)),
                stringmode: mode_after_push(f.stringmode),
                ..f
            },
            StepEffect::Quiet,
        )
    } else if ch == '\'' {
        (Config { stringmode: Stringmode::Once, ..f }, StepEffect::Quiet)
    } else if ch == ' ' {
        (f, StepEffect::Quiet)
    } else if ch == '<' {
        (f.steered(Delta::Left), StepEffect::Quiet)
    } else if ch == '>' {
        (f.steered(Delta::Right), StepEffect::Quiet)
    } else if ch == '^' {
        (f.steered(Delta::Up), StepEffect::Quiet)
    } else if ch == 'v' {
        (f.steered(Delta::Down), StepEffect::Quiet)
    } else if ch == '#' {
        (Config { ip: f.ip.stepped(f.heading()), ..f }, StepEffect::Quiet)
    } else if '0' as u32 <= ch as u32 && ch as u32 <= '9' as u32 {
        (f.pushed(StackValue::Const((ch as u32 - '0' as u32) as i32)), StepEffect::Quiet)
    } else if 'a' as u32 <= ch as u32 && ch as u32 <= 'f' as u32 {
        (f.pushed(StackValue::Const((10 + (ch as u32 - 'a' as u32)) as i32)), StepEffect::Quiet)
    } else if ch == '+' {
        (f.popped().popped().pushed(apply_add(f.top(), f.popped().top())), StepEffect::Quiet)
    } else if ch == '*' {
        (f.popped().popped().pushed(apply_mul(f.top(), f.popped().top())), StepEffect::Quiet)
    } else if ch == '-' {
        (f.popped().popped().pushed(apply_sub(f.top(), f.popped().top())), StepEffect::Quiet)
    } else if ch == ':' {
        match f.top() {
            StackValue::Const(v) => (
                f.popped().pushed(StackValue::Const(v)).pushed(StackValue::Const(v)),
                StepEffect::Quiet,
            ),
            StackValue::Dynamic(d) => (f.popped(), StepEffect::Duplicate(d)),
        }
    } else if ch == '_' {
        match f.top() {
            StackValue::Const(v) => (
                f.popped().steered(
                    if v == 0 {
                        Delta::Right
                    } else {
                        Delta::Left
                    },
                ),
                StepEffect::Quiet,
            ),
            StackValue::Dynamic(d) => (
                f.popped(),
                StepEffect::Branch(
                    d,
                    f.popped().steered(Delta::Right),
                    f.popped().steered(Delta::Left),
                ),
            ),
        }
    } else if ch == '|' {
        match f.top() {
            StackValue::Const(v) => (
                f.popped().steered(
                    if v == 0 {
                        Delta::Down
                    } else {
                        Delta::Up
                    },
                ),
                StepEffect::Quiet,
            ),
            StackValue::Dynamic(d) => (
                f.popped(),
                StepEffect::Branch(
                    d,
                    f.popped().steered(Delta::Down),
                    f.popped().steered(Delta::Up),
                ),
            ),
        }
    } else if ch == '~' {
        (f, StepEffect::Input)
    } else if ch == ',' {
        (f.popped(), StepEffect::Output(f.top()))
    } else if ch == '@' {
        (f, StepEffect::End)
    } else {
        (f, StepEffect::Unsupported(ch))
    }
}

/// One interaction of a run, as the front-end saw it: what it was handed,
/// and what it answered.
pub enum RunEvent {
    /// The front-end was handed this value to emit.
    Out(StackValue),
    /// The front-end supplied this value for a read.
    In(StackValue),
    /// The front-end materialized this tree as this value.
    Dup(DynamicValue, StackValue),
}

/// How a run of the core leaves its loop.
pub enum RunOutcome {
    /// The program reached the end sentinel.
    Done,
    /// The run branched on the tree, deferring the two continuations: the
    /// first is taken where the tree's value is zero.
    Branched(DynamicValue, Config, Config),
    /// An unsupported character was executed.
    Failed(char),
}

/// A whole run: starting from the configuration, consuming the front-end's
/// answers in order, the machine takes `n` steps and leaves its loop with
/// the given outcome. Every step is fixed by [`spec_step`]; only the values
/// the front-end supplies for reads and materializations are taken from
/// the events.
pub open spec fn runs_to(c: Config, events: Seq<RunEvent>, outcome: RunOutcome, n: nat) -> bool
    decreases n,
{
    if n == 0 {
        false
    } else {
        let (c2, e) = spec_step(c);
        match e {
            StepEffect::Quiet => runs_to(c2, events, outcome, (n - 1) as nat),
            StepEffect::Output(v) => events.len() > 0 && events[0] == RunEvent::Out(v) && runs_to(
                c2,
                events.drop_first(),
                outcome,
                (n - 1) as nat,
            ),
            StepEffect::Input => events.len() > 0 && (events[0] matches RunEvent::In(v) && runs_to(
                c2.pushed(v),
                events.drop_first(),
                outcome,
                (n - 1) as nat,
            )),
            StepEffect::Duplicate(d) => events.len() > 0 && (events[0] matches RunEvent::Dup(d2, v)
                && d2 == d && runs_to(
                c2.pushed(v).pushed(v),
                events.drop_first(),
                outcome,
                (n - 1) as nat,
            )),
            StepEffect::Branch(d, t, f) => outcome == RunOutcome::Branched(d, t, f)
                && events.len() == 0,
            StepEffect::End => outcome == RunOutcome::Done && events.len() == 0,
            StepEffect::Unsupported(ch) => outcome == RunOutcome::Failed(ch) && events.len() == 0,
        }
    }
}

/// A run that decides everything itself: it reaches the end sentinel within
/// `n` steps, and every step on the way is internal or an output — no read,
/// no materialization, no branch, no unsupported character. On such a
/// program the front-end influences nothing, so the core owes success.
pub open spec fn quiet_run_to_end(c: Config, n: nat) -> bool
    decreases n,
{
    if n == 0 {
        false
    } else {
        let (c2, e) = spec_step(c);
        match e {
            StepEffect::End => true,
            StepEffect::Quiet => quiet_run_to_end(c2, (n - 1) as nat),
            StepEffect::Output(_) => quiet_run_to_end(c2, (n - 1) as nat),
            _ => false,
        }
    }
}

/// The initial configuration of a program: the top-left cell, no direction
/// yet, an empty stack, normal mode.
pub open spec fn initial_config(grid: Seq<Seq<char>>) -> Config {
    Config {
        grid,
        ip: Ip {
            x: 0usize,
            y: 0usize,
            w: grid[0].len() as usize,
            h: grid.len() as usize,
        },
        delta: None,
        stack: Seq::empty(),
        stringmode: Stringmode::Not,
    }
}

/// A configuration whose stack is fully concrete.
pub open spec fn concrete_config(c: Config) -> bool {
    all_const(c.stack)
}

/// Every run from the current configuration extends to a run from the
/// original one, behind the interactions already answered.
pub open spec fn lifts(origin: Config, past: Seq<RunEvent>, cur: Config) -> bool {
    forall|ev: Seq<RunEvent>, oc: RunOutcome, m: nat|
        #[trigger] runs_to(cur, ev, oc, m) ==> exists|n: nat| runs_to(origin, past + ev, oc, n)
}

/// A decisive run of at most `bound` steps exists.
pub open spec fn quiet_within(c: Config, bound: nat) -> bool {
    exists|m: nat| m <= bound && quiet_run_to_end(c, m)
}

/// An internal step keeps the lift.
pub proof fn lemma_lift_quiet(origin: Config, past: Seq<RunEvent>, pre: Config, post: Config)
    requires
        lifts(origin, past, pre),
        spec_step(pre).0 == post,
        spec_step(pre).1 == StepEffect::Quiet,
    ensures
        lifts(origin, past, post),
{
    assert forall|ev: Seq<RunEvent>, oc: RunOutcome, m: nat| #[trigger] runs_to(
        post,
        ev,
        oc,
        m,
    ) implies exists|n: nat| runs_to(origin, past + ev, oc, n) by {
        assert(runs_to(pre, ev, oc, (m + 1) as nat));
    }
}

/// An output step keeps the lift, with the emitted value answered.
pub proof fn lemma_lift_output(
    origin: Config,
    past: Seq<RunEvent>,
    pre: Config,
    post: Config,
    v: StackValue,
)
    requires
        lifts(origin, past, pre),
        spec_step(pre).0 == post,
        spec_step(pre).1 == StepEffect::Output(v),
    ensures
        lifts(origin, past.push(RunEvent::Out(v)), post),
{
    assert forall|ev: Seq<RunEvent>, oc: RunOutcome, m: nat| #[trigger] runs_to(
        post,
        ev,
        oc,
        m,
    ) implies exists|n: nat| runs_to(origin, past.push(RunEvent::Out(v)) + ev, oc, n) by {
        let evs = seq![RunEvent::Out(v)] + ev;
        assert(evs[0] == RunEvent::Out(v));
        assert(evs.drop_first() =~= ev);
        assert(runs_to(pre, evs, oc, (m + 1) as nat));
        let n = choose|n: nat| runs_to(origin, past + evs, oc, n);
        assert(past + evs =~= past.push(RunEvent::Out(v)) + ev);
        assert(runs_to(origin, past.push(RunEvent::Out(v)) + ev, oc, n));
    }
}

/// A read step keeps the lift, with the supplied value answered and
/// pushed.
pub proof fn lemma_lift_input(
    origin: Config,
    past: Seq<RunEvent>,
    pre: Config,
    post: Config,
    v: StackValue,
)
    requires
        lifts(origin, past, pre),
        spec_step(pre).0 == post,
        spec_step(pre).1 == StepEffect::Input,
    ensures
        lifts(origin, past.push(RunEvent::In(v)), post.pushed(v)),
{
    assert forall|ev: Seq<RunEvent>, oc: RunOutcome, m: nat| #[trigger] runs_to(
        post.pushed(v),
        ev,
        oc,
        m,
    ) implies exists|n: nat| runs_to(origin, past.push(RunEvent::In(v)) + ev, oc, n) by {
        let evs = seq![RunEvent::In(v)] + ev;
        assert(evs[0] == RunEvent::In(v));
        assert(evs.drop_first() =~= ev);
        assert(runs_to(pre, evs, oc, (m + 1) as nat));
        let n = choose|n: nat| runs_to(origin, past + evs, oc, n);
        assert(past + evs =~= past.push(RunEvent::In(v)) + ev);
        assert(runs_to(origin, past.push(RunEvent::In(v)) + ev, oc, n));
    }
}

/// A materialization step keeps the lift, with the supplied value answered
/// and pushed twice.
pub proof fn lemma_lift_duplicate(
    origin: Config,
    past: Seq<RunEvent>,
    pre: Config,
    post: Config,
    d: DynamicValue,
    v: StackValue,
)
    requires
        lifts(origin, past, pre),
        spec_step(pre).0 == post,
        spec_step(pre).1 == StepEffect::Duplicate(d),
    ensures
        lifts(origin, past.push(RunEvent::Dup(d, v)), post.pushed(v).pushed(v)),
{
    assert forall|ev: Seq<RunEvent>, oc: RunOutcome, m: nat| #[trigger] runs_to(
        post.pushed(v).pushed(v),
        ev,
        oc,
        m,
    ) implies exists|n: nat| runs_to(origin, past.push(RunEvent::Dup(d, v)) + ev, oc, n) by {
        let evs = seq![RunEvent::Dup(d, v)] + ev;
        assert(evs[0] == RunEvent::Dup(d, v));
        assert(evs.drop_first() =~= ev);
        assert(runs_to(pre, evs, oc, (m + 1) as nat));
        let n = choose|n: nat| runs_to(origin, past + evs, oc, n);
        assert(past + evs =~= past.push(RunEvent::Dup(d, v)) + ev);
        assert(runs_to(origin, past.push(RunEvent::Dup(d, v)) + ev, oc, n));
    }
}

/// Reaching the sentinel closes the lifted run.
pub proof fn lemma_lift_end(origin: Config, past: Seq<RunEvent>, pre: Config)
    requires
        lifts(origin, past, pre),
        spec_step(pre).1 == StepEffect::End,
    ensures
        exists|n: nat| runs_to(origin, past, RunOutcome::Done, n),
{
    assert(runs_to(pre, Seq::empty(), RunOutcome::Done, 1));
    let n = choose|n: nat| runs_to(origin, past + Seq::<RunEvent>::empty(), RunOutcome::Done, n);
    assert(past + Seq::<RunEvent>::empty() =~= past);
    assert(runs_to(origin, past, RunOutcome::Done, n));
}

/// Deferring a branch closes the lifted run.
pub proof fn lemma_lift_branch(
    origin: Config,
    past: Seq<RunEvent>,
    pre: Config,
    d: DynamicValue,
    t: Config,
    f: Config,
)
    requires
        lifts(origin, past, pre),
        spec_step(pre).1 == StepEffect::Branch(d, t, f),
    ensures
        exists|n: nat| runs_to(origin, past, RunOutcome::Branched(d, t, f), n),
{
    assert(runs_to(pre, Seq::empty(), RunOutcome::Branched(d, t, f), 1));
    let n = choose|n: nat|
        runs_to(origin, past + Seq::<RunEvent>::empty(), RunOutcome::Branched(d, t, f), n);
    assert(past + Seq::<RunEvent>::empty() =~= past);
    assert(runs_to(origin, past, RunOutcome::Branched(d, t, f), n));
}

/// Executing an unsupported character closes the lifted run as a failure.
pub proof fn lemma_lift_failed(origin: Config, past: Seq<RunEvent>, pre: Config, ch: char)
    requires
        lifts(origin, past, pre),
        spec_step(pre).1 == StepEffect::Unsupported(ch),
    ensures
        exists|n: nat| runs_to(origin, past, RunOutcome::Failed(ch), n),
{
    assert(runs_to(pre, Seq::empty(), RunOutcome::Failed(ch), 1));
    let n = choose|n: nat|
        runs_to(origin, past + Seq::<RunEvent>::empty(), RunOutcome::Failed(ch), n);
    assert(past + Seq::<RunEvent>::empty() =~= past);
    assert(runs_to(origin, past, RunOutcome::Failed(ch), n));
}

/// A decisive run survives an internal or output step, one step shorter.
pub proof fn lemma_quiet_step(pre: Config, post: Config, bound: nat)
    requires
        quiet_within(pre, bound),
        spec_step(pre).0 == post,
        spec_step(pre).1 is Quiet || spec_step(pre).1 is Output,
    ensures
        bound >= 1,
        quiet_within(post, (bound - 1) as nat),
{
    let m = choose|m: nat| m <= bound && quiet_run_to_end(pre, m);
    assert(m >= 1);
    assert(quiet_run_to_end(post, (m - 1) as nat));
}

/// The machine is deterministic, so when a decisive run exists, every run
/// of the program ends at the sentinel.
pub proof fn lemma_quiet_run_outcome(
    c: Config,
    k: nat,
    ev: Seq<RunEvent>,
    oc: RunOutcome,
    n: nat,
)
    requires
        quiet_run_to_end(c, k),
        runs_to(c, ev, oc, n),
    ensures
        oc is Done,
    decreases k,
{
    let (c2, e) = spec_step(c);
    match e {
        StepEffect::End => {
        }
        StepEffect::Quiet => {
            lemma_quiet_run_outcome(c2, (k - 1) as nat, ev, oc, (n - 1) as nat);
        }
        StepEffect::Output(_) => {
            lemma_quiet_run_outcome(c2, (k - 1) as nat, ev.drop_first(), oc, (n - 1) as nat);
        }
        _ => {
        }
    }
}

/// No decisive run passes through a read, a materialization, a branch or
/// an unsupported character.
pub proof fn lemma_quiet_stops(pre: Config)
    requires
        !(spec_step(pre).1 is Quiet),
        !(spec_step(pre).1 is Output),
        !(spec_step(pre).1 is End),
    ensures
        forall|b: nat| !quiet_within(pre, b),
{
    assert forall|b: nat| !quiet_within(pre, b) by {
        if quiet_within(pre, b) {
            let m = choose|m: nat| m <= b && quiet_run_to_end(pre, m);
            assert(false);
        }
    }
}

} // verus!
