use vstd::prelude::*;

use crate::error::Error;
use crate::interpreter::error::Error as InterpreterError;
use crate::interpreter::grid::Delta;
use crate::interpreter::grid::Grid;
use crate::interpreter::grid::Ip;
use crate::interpreter::value::DynamicValue;
use crate::interpreter::value::StackValue;
use crate::interpreter::step::Config;
use crate::interpreter::step::RunEvent;
use crate::interpreter::step::RunOutcome;
use crate::interpreter::step::StepEffect;
use crate::interpreter::step::lemma_lift_branch;
use crate::interpreter::step::lemma_lift_duplicate;
use crate::interpreter::step::lemma_lift_end;
use crate::interpreter::step::lemma_lift_failed;
use crate::interpreter::step::lemma_lift_input;
use crate::interpreter::step::lemma_lift_output;
use crate::interpreter::step::lemma_lift_quiet;
use crate::interpreter::step::lemma_quiet_step;
use crate::interpreter::step::lemma_quiet_stops;
use crate::interpreter::step::lifts;
use crate::interpreter::step::quiet_run_to_end;
use crate::interpreter::step::quiet_within;
use crate::interpreter::step::runs_to;
use crate::interpreter::step::spec_step;
use crate::interpreter::value::apply_add;
use crate::interpreter::value::apply_mul;
use crate::interpreter::value::apply_sub;
use crate::interpreter::value::fold_add;
use crate::interpreter::value::fold_mul;
use crate::interpreter::value::fold_sub;

verus! {

/// Whether characters are currently being captured as literals.
#[derive(Clone, Copy, Debug, PartialEq, Eq, Structural)]
pub enum Stringmode {
    /// Characters are dispatched as instructions.
    Not,
    /// Exactly the next character is captured as a literal.
    Once,
    /// Characters are captured as literals until the closing quote.
    Stringmode,
}

/// The mode after a quote toggles it: entering capture from normal mode, and
/// back to normal mode from either capturing mode.
pub open spec fn toggled(mode: Stringmode) -> Stringmode {
    match mode {
        Stringmode::Not => Stringmode::Stringmode,
        Stringmode::Once => Stringmode::Not,
        Stringmode::Stringmode => Stringmode::Not,
    }
}

/// The mode after one character was captured and pushed: single-shot capture
/// reverts to normal mode, full capture continues.
pub open spec fn mode_after_push(mode: Stringmode) -> Stringmode {
    match mode {
        Stringmode::Once => Stringmode::Not,
        _ => mode,
    }
}

/// Quote and capture transitions: a quote in normal mode enters capture, a
/// quote while capturing returns to normal mode, and single-shot capture
/// ends after exactly one pushed character.
pub proof fn lemma_stringmode_transitions()
    ensures
        toggled(Stringmode::Not) == Stringmode::Stringmode,
        toggled(Stringmode::Stringmode) == Stringmode::Not,
        forall|mode: Stringmode|
            mode != Stringmode::Not ==> #[trigger] mode_after_push(mode) == if mode
                is Once { Stringmode::Not } else { mode },
{
}

/// Popping from the value stack: an empty stack yields the constant zero and
/// stays empty; otherwise the top element leaves the stack.
pub open spec fn spec_pop(stack: Seq<StackValue>) -> (StackValue, Seq<StackValue>) {
    if stack.len() == 0 {
        (StackValue::Const(0i32), stack)
    } else {
        (stack.last(), stack.drop_last())
    }
}

/// Popping an empty stack yields the constant zero, on every call.
pub proof fn lemma_pop_on_empty(stack: Seq<StackValue>)
    requires
        stack.len() == 0,
    ensures
        spec_pop(stack).0 == StackValue::Const(0i32),
        spec_pop(stack).1 == stack,
{
}

/// Every value on the stack is concrete.
pub open spec fn all_const(stack: Seq<StackValue>) -> bool {
    forall|i: int| 0 <= i < stack.len() ==> stack[i] is Const
}

/// One symbolic execution's record: the program grid, the instruction
/// pointer, the travel direction, the value stack and the capture mode.
pub struct State {
    /// The program, shared read-only by every continuation.
    pub grid: Grid<char>,
    /// The instruction pointer, always on the grid's torus.
    pub ip: Ip,
    /// The travel direction; `None` only before the first fetch, which
    /// forces travel to the right.
    pub delta: Option<Delta>,
    /// The value stack.
    pub stack: Vec<StackValue>,
    /// The capture mode.
    pub stringmode: Stringmode,
}

impl State {
    /// The pointer lies on the grid's torus.
    pub open spec fn wf(&self) -> bool {
        &&& self.grid.wf()
        &&& self.ip.wf()
        &&& self.ip.w == self.grid.width()
        &&& self.ip.h == self.grid.height()
    }

    /// The direction the next fetch will travel in.
    pub open spec fn heading(&self) -> Delta {
        match self.delta {
            Some(delta) => delta,
            None => Delta::Right,
        }
    }

    fn new(grid: Grid<char>, ip: Option<Ip>) -> (r: Self)
        requires
            grid.wf(),
            ip matches Some(i) ==> i.wf() && i.w == grid.width() && i.h == grid.height(),
        ensures
            r.grid@ == grid@,
            ip matches Some(i) ==> r.ip == i,
            ip is None ==> r.ip.x == 0 && r.ip.y == 0 && r.ip.w == grid.width() && r.ip.h
                == grid.height(),
            r.delta is None,
            r.stack@.len() == 0,
            r.stringmode == Stringmode::Not,
            r.wf(),
    {
        let ip = match ip {
            Some(ip) => ip,
            None => grid.ip(),
        };

        Self { grid, ip, delta: None, stack: Vec::new(), stringmode: Stringmode::Not }
    }

    /// Fetch-and-advance: moves the pointer one step along the current
    /// direction — except on the very first call, which instead fixes the
    /// direction to the right — and reads the cell now under the pointer.
    /// The grid is toroidal, so there is always a next cell.
    fn next(&mut self) -> (r: Option<char>)
        requires
            old(self).wf(),
        ensures
            final(self).wf(),
            final(self).grid@ == old(self).grid@,
            final(self).stack@ == old(self).stack@,
            final(self).stringmode == old(self).stringmode,
            final(self).delta == Some(old(self).heading()),
            final(self).ip == match old(self).delta {
                Some(delta) => old(self).ip.stepped(delta),
                None => old(self).ip,
            },
            r == Some(final(self).grid@[final(self).ip.y as int][final(self).ip.x as int]),
    {
        match self.delta {
            Some(delta) => {
                self.ip.advance(delta);
            }
            None => {
                self.delta = Some(Delta::Right);
            }
        }

        Some(*self.grid.at(&self.ip))
    }

    /// One extra step along the current direction, used by `#` to skip the
    /// next cell; before the first fetch the direction defaults to the
    /// right.
    fn advance(&mut self)
        requires
            old(self).wf(),
        ensures
            final(self).wf(),
            final(self).grid@ == old(self).grid@,
            final(self).stack@ == old(self).stack@,
            final(self).stringmode == old(self).stringmode,
            final(self).delta == old(self).delta,
            final(self).ip == old(self).ip.stepped(old(self).heading()),
    {
        let delta = match self.delta {
            Some(delta) => delta,
            None => Delta::Right,
        };
        self.ip.advance(delta);
    }

    fn push(&mut self, value: StackValue)
        ensures
            *final(self) == (State { stack: final(self).stack, ..*old(self) }),
            final(self).stack@ == old(self).stack@.push(value),
    {
        self.stack.push(value);
    }

    /// Pops the top of the stack; an empty stack yields the constant zero.
    fn pop(&mut self) -> (r: StackValue)
        ensures
            *final(self) == (State { stack: final(self).stack, ..*old(self) }),
            r == spec_pop(old(self).stack@).0,
            final(self).stack@ == spec_pop(old(self).stack@).1,
    {
        match self.stack.pop() {
            Some(value) => value,
            None => StackValue::Const(0),
        }
    }

    fn set_delta(&mut self, delta: Delta)
        ensures
            *final(self) == (State { delta: Some(delta), ..*old(self) }),
    {
        self.delta = Some(delta);
    }

    /// A continuation equal to this state except that it travels in the
    /// given direction; shares nothing mutable with the original.
    fn with_delta(&self, delta: Delta) -> (r: Self)
        requires
            self.wf(),
        ensures
            r.grid@ == self.grid@,
            r.ip == self.ip,
            r.delta == Some(delta),
            r.stack@ == self.stack@,
            r.stringmode == self.stringmode,
            r.wf(),
    {
        let mut stack: Vec<StackValue> = Vec::new();
        let mut i: usize = 0;
        while i < self.stack.len()
            invariant
                0 <= i <= self.stack.len(),
                stack@ =~= self.stack@.subrange(0, i as int),
            decreases self.stack.len() - i,
        {
            stack.push(self.stack[i].duplicate());
            proof {
                assert(stack@ =~= self.stack@.subrange(0, i + 1 as int));
            }
            i += 1;
        }
        proof {
            assert(stack@ =~= self.stack@);
        }

        Self {
            grid: self.grid.duplicate(),
            ip: self.ip,
            delta: Some(delta),
            stack,
            stringmode: self.stringmode,
        }
    }

    /// Flips the capture mode on a quote.
    fn toggle_stringmode(&mut self)
        ensures
            *final(self) == (State { stringmode: toggled(old(self).stringmode), ..*old(self) }),
    {
        match self.stringmode {
            Stringmode::Not => self.stringmode = Stringmode::Stringmode,
            Stringmode::Once | Stringmode::Stringmode => self.stringmode = Stringmode::Not,
        }
    }

    /// Arms single-shot capture: the next character is taken as a literal.
    fn once_stringmode(&mut self)
        ensures
            *final(self) == (State { stringmode: Stringmode::Once, ..*old(self) }),
    {
        self.stringmode = Stringmode::Once;
    }

    fn stringmode(&self) -> (r: Stringmode)
        ensures
            r == self.stringmode,
    {
        self.stringmode
    }

    /// Captures one character while in a capturing mode: its code is pushed
    /// as a constant, and single-shot capture reverts to normal mode.
    fn push_string_cell(&mut self, c: char)
        ensures
            final(self).stack@ == old(self).stack@.push(StackValue::Const(c as i32)),
            final(self).stringmode == mode_after_push(old(self).stringmode),
            final(self).grid@ == old(self).grid@,
            final(self).ip == old(self).ip,
            final(self).delta == old(self).delta,
    {
        self.push(StackValue::Const(c as i32));

        if self.stringmode() == Stringmode::Once {
            self.toggle_stringmode();
        }
    }
}

impl View for State {
    type V = Config;

    /// The state, abstractly: the configuration the specification-level
    /// machine steps on.
    open spec fn view(&self) -> Config {
        Config {
            grid: self.grid@,
            ip: self.ip,
            delta: self.delta,
            stack: self.stack@,
            stringmode: self.stringmode,
        }
    }
}

/// A deferred continuation of symbolic execution: a snapshot of a state,
/// ready to be resumed by the interpreter core.
pub struct QueuedState(pub(crate) State);

impl QueuedState {
    /// Every continuation that can be constructed snapshots a well-formed
    /// state.
    #[verifier::type_invariant]
    pub closed spec fn wf(&self) -> bool {
        self.0.wf()
    }

    /// The snapshot's stack holds only concrete values. A front-end that
    /// cannot take symbolic values may only resume such continuations.
    pub closed spec fn all_concrete(&self) -> bool {
        all_const(self.0.stack@)
    }

    /// The values on the snapshot's stack, bottom first.
    pub closed spec fn stack_view(&self) -> Seq<StackValue> {
        self.0.stack@
    }

    /// The snapshot, abstractly: the configuration the specification-level
    /// machine resumes from.
    pub closed spec fn config(&self) -> Config {
        self.0@
    }
}

impl From<Grid<char>> for QueuedState {
    /// The initial continuation of a program: the top-left cell, no
    /// direction yet, an empty stack, normal mode.
    fn from(grid: Grid<char>) -> (r: Self)
        ensures
            r.all_concrete(),
            r.stack_view().len() == 0,
            r.config() == crate::interpreter::step::initial_config(grid@),
    {
        proof {
            use_type_invariant(&grid);
        }
        let queued = QueuedState(State::new(grid, None));
        proof {
            assert(queued.config() =~= crate::interpreter::step::initial_config(queued.0.grid@));
        }
        queued
    }
}

impl vstd::std_specs::convert::FromSpecImpl<Grid<char>> for QueuedState {
    /// A fresh snapshot holds newly allocated containers, which have no
    /// canonical spec-level value, so nothing is promised through the
    /// generic conversion contract; the conversion's own clauses above say
    /// what callers rely on.
    open spec fn obeys_from_spec() -> bool {
        false
    }

    open spec fn from_spec(grid: Grid<char>) -> Self {
        vstd::pervasive::arbitrary()
    }
}

/// The capability bundle a front-end hands to the interpreter core: end-host
/// side effects, materialization of symbolic values, and the two ways a run
/// can leave the core's loop.
///
/// The spec members let the core be verified once for every front-end: a
/// front-end that declares itself `concrete` is never handed a symbolic
/// value, `frame` is whatever relation all of its callbacks preserve, and
/// `end_post` is what it guarantees of a finished run.
pub trait InterpreterCallback: Sized {
    /// What a finished run yields: nothing for direct execution, a block for
    /// compilation.
    type End;

    /// True for front-ends that work purely over concrete values. The core
    /// guarantees such a front-end is never handed a symbolic value: every
    /// stack element is then concrete, so the symbolic paths are dead.
    spec fn concrete(&self) -> bool;

    /// What this front-end needs to hold before the core may call it.
    spec fn inv(&self) -> bool;

    /// A relation every callback preserves, so the core's caller can carry
    /// it across a whole run.
    spec fn frame(&self, prev: &Self) -> bool;

    /// What this front-end guarantees of the value a finished run yields,
    /// judged in its state at the end of the run.
    spec fn end_post(&self, r: &Self::End) -> bool;

    /// Which stack values this front-end is prepared to be handed back; the
    /// core keeps every value on the stack inside this set.
    spec fn val_ok(&self, v: StackValue) -> bool;

    /// The interactions this front-end has answered, oldest first: what it
    /// was handed to emit, and what it supplied for reads and
    /// materializations.
    spec fn history(&self) -> Seq<RunEvent>;

    /// Whether a finished run's yield corresponds to the machine's
    /// outcome: what this front-end builds from a run ending at the
    /// sentinel, or deferring the two continuations of a branch.
    spec fn matches_outcome(&self, r: &Self::End, outcome: RunOutcome) -> bool;

    /// A concrete value is always acceptable.
    proof fn val_ok_const(&self, i: i32)
        ensures
            self.val_ok(StackValue::Const(i)),
    ;

    /// Acceptable values stay acceptable across any callback.
    proof fn val_ok_frame(&self, prev: &Self, v: StackValue)
        requires
            self.frame(prev),
            prev.val_ok(v),
        ensures
            self.val_ok(v),
    ;

    /// Acceptable operands combine into acceptable arithmetic results.
    proof fn val_ok_combine(&self, lhs: StackValue, rhs: StackValue)
        requires
            self.val_ok(lhs),
            self.val_ok(rhs),
        ensures
            self.val_ok(apply_add(lhs, rhs)),
            self.val_ok(apply_mul(lhs, rhs)),
            self.val_ok(apply_sub(lhs, rhs)),
    ;

    /// `frame` relates every state to itself.
    proof fn frame_refl(&self)
        ensures
            self.frame(self),
    ;

    /// `frame` composes.
    proof fn frame_trans(&self, mid: &Self, prev: &Self)
        requires
            self.frame(mid),
            mid.frame(prev),
        ensures
            self.frame(prev),
    ;

    /// Emits one character.
    fn output(&mut self, value: StackValue)
        requires
            old(self).inv(),
            old(self).concrete() ==> value is Const,
            old(self).val_ok(value),
        ensures
            final(self).inv(),
            final(self).concrete() == old(self).concrete(),
            final(self).frame(old(self)),
            final(self).history() == old(self).history().push(RunEvent::Out(value)),
    ;

    /// Obtains one character; a concrete front-end yields a concrete value.
    fn input(&mut self) -> (r: StackValue)
        requires
            old(self).inv(),
        ensures
            final(self).inv(),
            final(self).concrete() == old(self).concrete(),
            final(self).frame(old(self)),
            old(self).concrete() ==> r is Const,
            final(self).val_ok(r),
            final(self).history() == old(self).history().push(RunEvent::In(r)),
    ;

    /// Materializes a symbolic value once, so that both copies on the stack
    /// refer to the same run-time value. Never called on a concrete
    /// front-end.
    fn duplicate(&mut self, value: DynamicValue) -> (r: StackValue)
        requires
            old(self).inv(),
            !old(self).concrete(),
            old(self).val_ok(StackValue::Dynamic(value)),
        ensures
            final(self).inv(),
            final(self).concrete() == old(self).concrete(),
            final(self).frame(old(self)),
            final(self).val_ok(r),
            final(self).history() == old(self).history().push(RunEvent::Dup(value, r)),
    ;

    /// Branches on a symbolic discriminant: `t` continues where the value is
    /// zero, `f` where it is not. Never called on a concrete front-end.
    fn if_zero(&mut self, value: DynamicValue, t: QueuedState, f: QueuedState) -> (r: Self::End)
        requires
            old(self).inv(),
            !old(self).concrete(),
            old(self).val_ok(StackValue::Dynamic(value)),
            forall|i: int|
                0 <= i < t.stack_view().len() ==> old(self).val_ok(#[trigger] t.stack_view()[i]),
            forall|i: int|
                0 <= i < f.stack_view().len() ==> old(self).val_ok(#[trigger] f.stack_view()[i]),
        ensures
            final(self).concrete() == old(self).concrete(),
            final(self).frame(old(self)),
            final(self).end_post(&r),
            final(self).history() == old(self).history(),
            final(self).matches_outcome(&r, RunOutcome::Branched(value, t.config(), f.config())),
    ;

    /// Finishes the run on the end-of-program sentinel.
    fn end(&mut self) -> (r: Self::End)
        requires
            old(self).inv(),
        ensures
            final(self).concrete() == old(self).concrete(),
            final(self).frame(old(self)),
            final(self).end_post(&r),
            final(self).history() == old(self).history(),
            final(self).matches_outcome(&r, RunOutcome::Done),
    ;
}

/// What a step observer may read of a state.
pub trait DebugInspectable {
    /// When the state is consistent enough to be inspected.
    spec fn inspectable(&self) -> bool;

    /// The stack contents, bottom first.
    fn inspect_stack(&self) -> &[StackValue];

    /// The pointer's position as `(x, y)`.
    fn inspect_pos(&self) -> (usize, usize);

    /// The character the pointer rests on.
    fn inspect_next(&self) -> char
        requires
            self.inspectable(),
    ;
}

/// A step observer: sees every state right after the fetch, before the
/// instruction is dispatched.
pub trait DebuggerCallback<I: DebugInspectable> {
    /// Observes one step.
    fn debug_step(&mut self, inspectable: &I)
        requires
            inspectable.inspectable(),
    ;
}

impl DebugInspectable for State {
    open spec fn inspectable(&self) -> bool {
        self.wf()
    }

    fn inspect_stack(&self) -> (r: &[StackValue])
        ensures
            r@ == self.stack@,
    {
        self.stack.as_slice()
    }

    fn inspect_pos(&self) -> (r: (usize, usize))
        ensures
            r.0 == self.ip.x,
            r.1 == self.ip.y,
    {
        (self.ip.row(), self.ip.col())
    }

    fn inspect_next(&self) -> (r: char)
        ensures
            r == self.grid@[self.ip.y as int][self.ip.x as int],
    {
        *self.grid.at(&self.ip)
    }
}

/// The interactions a run answered: what the front-end's history gained
/// over the run.
pub open spec fn run_events<C: InterpreterCallback>(prev: &C, cur: &C) -> Seq<RunEvent> {
    cur.history().skip(prev.history().len() as int)
}

/// A specification-level run of the program behind the answered
/// interactions ends by executing the unsupported character.
pub open spec fn failed_run<C: InterpreterCallback>(
    origin: Config,
    prev: &C,
    cur: &C,
    ch: char,
) -> bool {
    exists|n: nat| runs_to(origin, run_events(prev, cur), RunOutcome::Failed(ch), n)
}

/// What a history extension looks like from either end.
proof fn lemma_history_algebra(a: Seq<RunEvent>, b: Seq<RunEvent>)
    ensures
        (a + b).skip(a.len() as int) =~= b,
        a.is_prefix_of(a + b),
{
    assert((a + b).subrange(0, a.len() as int) =~= a);
}

/// Every value on the stack is acceptable to the front-end.
pub open spec fn vals_ok<C: InterpreterCallback>(cb: &C, stack: Seq<StackValue>) -> bool {
    forall|i: int| 0 <= i < stack.len() ==> cb.val_ok(#[trigger] stack[i])
}

/// Pushing an acceptable value keeps the whole stack acceptable.
proof fn lemma_vals_ok_push<C: InterpreterCallback>(
    cb: &C,
    stack: Seq<StackValue>,
    value: StackValue,
)
    requires
        vals_ok(cb, stack),
        cb.val_ok(value),
    ensures
        vals_ok(cb, stack.push(value)),
{
    assert forall|i: int| 0 <= i < stack.push(value).len() implies cb.val_ok(
        #[trigger] stack.push(value)[i],
    ) by {
        if i < stack.len() {
            assert(stack.push(value)[i] == stack[i]);
        } else {
            assert(stack.push(value)[i] == value);
        }
    }
}

/// Popping yields an acceptable value and keeps the rest acceptable.
proof fn lemma_vals_ok_pop<C: InterpreterCallback>(cb: &C, stack: Seq<StackValue>)
    requires
        vals_ok(cb, stack),
    ensures
        cb.val_ok(spec_pop(stack).0),
        vals_ok(cb, spec_pop(stack).1),
{
    if stack.len() == 0 {
        cb.val_ok_const(0);
    } else {
        assert(cb.val_ok(stack[stack.len() - 1]));
        assert forall|i: int| 0 <= i < stack.drop_last().len() implies cb.val_ok(
            #[trigger] stack.drop_last()[i],
        ) by {
            assert(stack.drop_last()[i] == stack[i]);
        }
    }
}

/// Acceptability survives a callback, by the frame relation.
proof fn lemma_vals_ok_frame<C: InterpreterCallback>(cb: &C, prev: &C, stack: Seq<StackValue>)
    requires
        cb.frame(prev),
        vals_ok(prev, stack),
    ensures
        vals_ok(cb, stack),
{
    assert forall|i: int| 0 <= i < stack.len() implies cb.val_ok(#[trigger] stack[i]) by {
        cb.val_ok_frame(prev, stack[i]);
    }
}

/// Concreteness is preserved by pushing a concrete value.
proof fn lemma_all_const_push(stack: Seq<StackValue>, value: StackValue)
    requires
        all_const(stack),
        value is Const,
    ensures
        all_const(stack.push(value)),
{
    assert forall|i: int| 0 <= i < stack.push(value).len() implies stack.push(value)[i]
        is Const by {
        if i < stack.len() {
            assert(stack.push(value)[i] == stack[i]);
        } else {
            assert(stack.push(value)[i] == value);
        }
    }
}

/// On a fully concrete stack, popping yields a concrete value and leaves the
/// stack fully concrete.
proof fn lemma_all_const_pop(stack: Seq<StackValue>)
    requires
        all_const(stack),
    ensures
        spec_pop(stack).0 is Const,
        all_const(spec_pop(stack).1),
{
    if stack.len() > 0 {
        assert(stack[stack.len() - 1] is Const);
        assert forall|i: int| 0 <= i < stack.drop_last().len() implies stack.drop_last()[i]
            is Const by {
            assert(stack.drop_last()[i] == stack[i]);
        }
    }
}

/// The symbolic interpreter's driver: one fetch-dispatch loop, parameterized
/// by the front-end callback and by a step observer.
pub struct InterpreterCore<Callback, Debugger> {
    /// The front-end the run's side effects go to.
    pub callback: Callback,
    /// The step observer.
    pub debugger: Debugger,
}

impl<Callback, Debugger> InterpreterCore<Callback, Debugger> where
    Callback: InterpreterCallback,
    Debugger: DebuggerCallback<State>,
 {
    pub fn new(callback: Callback, debugger: Debugger) -> (r: Self)
        ensures
            r.callback == callback,
            r.debugger == debugger,
    {
        Self { callback, debugger }
    }

    /// Runs the fetch-dispatch loop on a continuation until the program
    /// ends, a symbolic branch defers to the callback, an unsupported
    /// instruction surfaces, or the step budget runs out.
    ///
    /// Every callback of the run preserves the front-end's `frame`
    /// relation, and a yielded end value satisfies the front-end's
    /// `end_post`. The only error a run can surface is an interpreter
    /// error: an unsupported instruction, or the exhausted step budget.
    #[verifier::rlimit(100)]
    #[verifier::spinoff_prover]
    pub fn interpret(&mut self, state: QueuedState) -> (r: Result<Callback::End, Error>)
        requires
            old(self).callback.inv(),
            old(self).callback.concrete() ==> state.all_concrete(),
            vals_ok(&old(self).callback, state.stack_view()),
        ensures
            final(self).callback.concrete() == old(self).callback.concrete(),
            final(self).callback.frame(&old(self).callback),
            old(self).callback.history().is_prefix_of(final(self).callback.history()),
            r matches Ok(e) ==> final(self).callback.end_post(&e),
            r matches Ok(e) ==> exists|outcome: RunOutcome, n: nat| {
                &&& runs_to(
                    state.config(),
                    run_events(&old(self).callback, &final(self).callback),
                    outcome,
                    n,
                )
                &&& !(outcome is Failed)
                &&& final(self).callback.matches_outcome(&e, outcome)
            },
            r matches Err(e) ==> (e matches Error::Interpreter(ie) && (ie is EOF
                || ie is UnimplementedInstruction)),
            r matches Err(Error::Interpreter(InterpreterError::UnimplementedInstruction(ch)))
                ==> failed_run(state.config(), &old(self).callback, &final(self).callback, ch),
            quiet_within(state.config(), u64::MAX as nat) ==> r is Ok,
    {
        proof {
            use_type_invariant(&state);
        }
        let QueuedState(mut st) = state;
        let ghost cb0 = self.callback;
        let ghost cfg0 = st@;
        let ghost mut past: Seq<RunEvent> = Seq::empty();
        proof {
            self.callback.frame_refl();
            assert forall|ev: Seq<RunEvent>, oc: RunOutcome, m: nat| #[trigger] runs_to(
                st@,
                ev,
                oc,
                m,
            ) implies exists|n: nat| runs_to(cfg0, past + ev, oc, n) by {
                assert(past + ev =~= ev);
                assert(runs_to(cfg0, past + ev, oc, m));
            }
            assert(self.callback.history() =~= cb0.history() + past);
        }
        // The loop's termination measure. The budget is far beyond what any
        // real program can use up; exhausting it surfaces the reserved
        // exhaustion error instead of running on.
        let mut fuel: u64 = u64::MAX;

        loop
            invariant
                cb0 == old(self).callback,
                cfg0 == state.config(),
                st.wf(),
                self.callback.inv(),
                self.callback.concrete() == cb0.concrete(),
                self.callback.frame(&cb0),
                self.callback.concrete() ==> all_const(st.stack@),
                vals_ok(&self.callback, st.stack@),
                self.callback.history() == cb0.history() + past,
                lifts(cfg0, past, st@),
                quiet_within(cfg0, u64::MAX as nat) ==> quiet_within(st@, fuel as nat),
            decreases fuel,
        {
            let ghost fuel0 = fuel as nat;
            if fuel == 0 {
                proof {
                    lemma_history_algebra(cb0.history(), past);
                    if quiet_within(cfg0, u64::MAX as nat) {
                        let m = choose|m: nat| m <= fuel as nat && quiet_run_to_end(st@, m);
                        assert(false);
                    }
                }
                return Err(Error::Interpreter(InterpreterError::EOF));
            }
            fuel = fuel - 1;

            let ghost pre_cfg = st@;
            let c = match st.next() {
                Some(c) => c,
                None => {
                    proof {
                        lemma_history_algebra(cb0.history(), past);
                    }
                    return Err(Error::Interpreter(InterpreterError::EOF));
                }
            };
            self.debugger.debug_step(&st);
            let ghost fcfg = st@;
            proof {
                assert(fcfg =~= pre_cfg.fetched());
                assert(c == fcfg.cell());
            }

            if c == '"' {
                // Stringmode
                st.toggle_stringmode();
                proof {
                    assert(spec_step(pre_cfg).0 =~= st@);
                    assert(spec_step(pre_cfg).1 == StepEffect::Quiet);
                    lemma_lift_quiet(cfg0, past, pre_cfg, st@);
                    if quiet_within(cfg0, u64::MAX as nat) {
                        lemma_quiet_step(pre_cfg, st@, fuel0);
                    }
                }
            } else if st.stringmode() != Stringmode::Not {
                proof {
                    self.callback.val_ok_const(c as i32);
                    lemma_vals_ok_push(&self.callback, st.stack@, StackValue::Const(c as i32));
                    if self.callback.concrete() {
                        lemma_all_const_push(st.stack@, StackValue::Const(c as i32));
                    }
                }
                st.push_string_cell(c);
                proof {
                    assert(spec_step(pre_cfg).0 =~= st@);
                    assert(spec_step(pre_cfg).1 == StepEffect::Quiet);
                    lemma_lift_quiet(cfg0, past, pre_cfg, st@);
                    if quiet_within(cfg0, u64::MAX as nat) {
                        lemma_quiet_step(pre_cfg, st@, fuel0);
                    }
                }
            } else if c == '\'' {
                st.once_stringmode();
                proof {
                    assert(spec_step(pre_cfg).0 =~= st@);
                    assert(spec_step(pre_cfg).1 == StepEffect::Quiet);
                    lemma_lift_quiet(cfg0, past, pre_cfg, st@);
                    if quiet_within(cfg0, u64::MAX as nat) {
                        lemma_quiet_step(pre_cfg, st@, fuel0);
                    }
                }
            } else if c == ' ' {
                // No-op
                proof {
                    assert(spec_step(pre_cfg).0 =~= st@);
                    assert(spec_step(pre_cfg).1 == StepEffect::Quiet);
                    lemma_lift_quiet(cfg0, past, pre_cfg, st@);
                    if quiet_within(cfg0, u64::MAX as nat) {
                        lemma_quiet_step(pre_cfg, st@, fuel0);
                    }
                }
            } else if c == '<' {
                // Simple movement
                st.set_delta(Delta::Left);
                proof {
                    assert(spec_step(pre_cfg).0 =~= st@);
                    assert(spec_step(pre_cfg).1 == StepEffect::Quiet);
                    lemma_lift_quiet(cfg0, past, pre_cfg, st@);
                    if quiet_within(cfg0, u64::MAX as nat) {
                        lemma_quiet_step(pre_cfg, st@, fuel0);
                    }
                }
            } else if c == '>' {
                st.set_delta(Delta::Right);
                proof {
                    assert(spec_step(pre_cfg).0 =~= st@);
                    assert(spec_step(pre_cfg).1 == StepEffect::Quiet);
                    lemma_lift_quiet(cfg0, past, pre_cfg, st@);
                    if quiet_within(cfg0, u64::MAX as nat) {
                        lemma_quiet_step(pre_cfg, st@, fuel0);
                    }
                }
            } else if c == '^' {
                st.set_delta(Delta::Up);
                proof {
                    assert(spec_step(pre_cfg).0 =~= st@);
                    assert(spec_step(pre_cfg).1 == StepEffect::Quiet);
                    lemma_lift_quiet(cfg0, past, pre_cfg, st@);
                    if quiet_within(cfg0, u64::MAX as nat) {
                        lemma_quiet_step(pre_cfg, st@, fuel0);
                    }
                }
            } else if c == 'v' {
                st.set_delta(Delta::Down);
                proof {
                    assert(spec_step(pre_cfg).0 =~= st@);
                    assert(spec_step(pre_cfg).1 == StepEffect::Quiet);
                    lemma_lift_quiet(cfg0, past, pre_cfg, st@);
                    if quiet_within(cfg0, u64::MAX as nat) {
                        lemma_quiet_step(pre_cfg, st@, fuel0);
                    }
                }
            } else if c == '#' {
                st.advance();
                proof {
                    assert(spec_step(pre_cfg).0 =~= st@);
                    assert(spec_step(pre_cfg).1 == StepEffect::Quiet);
                    lemma_lift_quiet(cfg0, past, pre_cfg, st@);
                    if quiet_within(cfg0, u64::MAX as nat) {
                        lemma_quiet_step(pre_cfg, st@, fuel0);
                    }
                }
            } else if '0' as u32 <= c as u32 && c as u32 <= '9' as u32 {
                // Value pushing
                let value = StackValue::Const((c as u32 - '0' as u32) as i32);
                proof {
                    self.callback.val_ok_const((c as u32 - '0' as u32) as i32);
                    lemma_vals_ok_push(&self.callback, st.stack@, value);
                    if self.callback.concrete() {
                        lemma_all_const_push(st.stack@, value);
                    }
                }
                st.push(value);
                proof {
                    assert(spec_step(pre_cfg).0 =~= st@);
                    assert(spec_step(pre_cfg).1 == StepEffect::Quiet);
                    lemma_lift_quiet(cfg0, past, pre_cfg, st@);
                    if quiet_within(cfg0, u64::MAX as nat) {
                        lemma_quiet_step(pre_cfg, st@, fuel0);
                    }
                }
            } else if 'a' as u32 <= c as u32 && c as u32 <= 'f' as u32 {
                let value = StackValue::Const((10 + (c as u32 - 'a' as u32)) as i32);
                proof {
                    self.callback.val_ok_const((10 + (c as u32 - 'a' as u32)) as i32);
                    lemma_vals_ok_push(&self.callback, st.stack@, value);
                    if self.callback.concrete() {
                        lemma_all_const_push(st.stack@, value);
                    }
                }
                st.push(value);
                proof {
                    assert(spec_step(pre_cfg).0 =~= st@);
                    assert(spec_step(pre_cfg).1 == StepEffect::Quiet);
                    lemma_lift_quiet(cfg0, past, pre_cfg, st@);
                    if quiet_within(cfg0, u64::MAX as nat) {
                        lemma_quiet_step(pre_cfg, st@, fuel0);
                    }
                }
            } else if c == '+' {
                // Addition
                proof {
                    lemma_vals_ok_pop(&self.callback, st.stack@);
                    lemma_vals_ok_pop(&self.callback, spec_pop(st.stack@).1);
                    if self.callback.concrete() {
                        lemma_all_const_pop(st.stack@);
                        lemma_all_const_pop(spec_pop(st.stack@).1);
                    }
                }
                let lhs = st.pop();
                let rhs = st.pop();
                let value = fold_add(lhs, rhs);
                proof {
                    self.callback.val_ok_combine(lhs, rhs);
                    lemma_vals_ok_push(&self.callback, st.stack@, value);
                    if self.callback.concrete() {
                        lemma_all_const_push(st.stack@, value);
                    }
                }
                st.push(value);
                proof {
                    assert(spec_step(pre_cfg).0 =~= st@);
                    assert(spec_step(pre_cfg).1 == StepEffect::Quiet);
                    lemma_lift_quiet(cfg0, past, pre_cfg, st@);
                    if quiet_within(cfg0, u64::MAX as nat) {
                        lemma_quiet_step(pre_cfg, st@, fuel0);
                    }
                }
            } else if c == '*' {
                // Multiplication
                proof {
                    lemma_vals_ok_pop(&self.callback, st.stack@);
                    lemma_vals_ok_pop(&self.callback, spec_pop(st.stack@).1);
                    if self.callback.concrete() {
                        lemma_all_const_pop(st.stack@);
                        lemma_all_const_pop(spec_pop(st.stack@).1);
                    }
                }
                let lhs = st.pop();
                let rhs = st.pop();
                let value = fold_mul(lhs, rhs);
                proof {
                    self.callback.val_ok_combine(lhs, rhs);
                    lemma_vals_ok_push(&self.callback, st.stack@, value);
                    if self.callback.concrete() {
                        lemma_all_const_push(st.stack@, value);
                    }
                }
                st.push(value);
                proof {
                    assert(spec_step(pre_cfg).0 =~= st@);
                    assert(spec_step(pre_cfg).1 == StepEffect::Quiet);
                    lemma_lift_quiet(cfg0, past, pre_cfg, st@);
                    if quiet_within(cfg0, u64::MAX as nat) {
                        lemma_quiet_step(pre_cfg, st@, fuel0);
                    }
                }
            } else if c == '-' {
                // Subtraction
                proof {
                    lemma_vals_ok_pop(&self.callback, st.stack@);
                    lemma_vals_ok_pop(&self.callback, spec_pop(st.stack@).1);
                    if self.callback.concrete() {
                        lemma_all_const_pop(st.stack@);
                        lemma_all_const_pop(spec_pop(st.stack@).1);
                    }
                }
                let lhs = st.pop();
                let rhs = st.pop();
                let value = fold_sub(lhs, rhs);
                proof {
                    self.callback.val_ok_combine(lhs, rhs);
                    lemma_vals_ok_push(&self.callback, st.stack@, value);
                    if self.callback.concrete() {
                        lemma_all_const_push(st.stack@, value);
                    }
                }
                st.push(value);
                proof {
                    assert(spec_step(pre_cfg).0 =~= st@);
                    assert(spec_step(pre_cfg).1 == StepEffect::Quiet);
                    lemma_lift_quiet(cfg0, past, pre_cfg, st@);
                    if quiet_within(cfg0, u64::MAX as nat) {
                        lemma_quiet_step(pre_cfg, st@, fuel0);
                    }
                }
            } else if c == ':' {
                // Duplication
                proof {
                    lemma_vals_ok_pop(&self.callback, st.stack@);
                    if self.callback.concrete() {
                        lemma_all_const_pop(st.stack@);
                    }
                }
                match st.pop() {
                    StackValue::Const(value) => {
                        proof {
                            self.callback.val_ok_const(value);
                            lemma_vals_ok_push(&self.callback, st.stack@, StackValue::Const(value));
                            lemma_vals_ok_push(
                                &self.callback,
                                st.stack@.push(StackValue::Const(value)),
                                StackValue::Const(value),
                            );
                            if self.callback.concrete() {
                                lemma_all_const_push(st.stack@, StackValue::Const(value));
                                lemma_all_const_push(
                                    st.stack@.push(StackValue::Const(value)),
                                    StackValue::Const(value),
                                );
                            }
                        }
                        st.push(StackValue::Const(value));
                        st.push(StackValue::Const(value));
                        proof {
                            assert(spec_step(pre_cfg).0 =~= st@);
                            assert(spec_step(pre_cfg).1 == StepEffect::Quiet);
                            lemma_lift_quiet(cfg0, past, pre_cfg, st@);
                            if quiet_within(cfg0, u64::MAX as nat) {
                                lemma_quiet_step(pre_cfg, st@, fuel0);
                            }
                        }
                    }
                    StackValue::Dynamic(value) => {
                        let ghost d = value;
                        let ghost mid_cfg = st@;
                        proof {
                            assert(spec_step(pre_cfg).0 =~= mid_cfg);
                            assert(spec_step(pre_cfg).1 == StepEffect::Duplicate(d));
                        }
                        let ghost prev = self.callback;
                        let value = self.callback.duplicate(value);
                        proof {
                            self.callback.frame_trans(&prev, &cb0);
                            lemma_vals_ok_frame(&self.callback, &prev, st.stack@);
                            lemma_vals_ok_push(&self.callback, st.stack@, value);
                            lemma_vals_ok_push(&self.callback, st.stack@.push(value), value);
                            lemma_lift_duplicate(cfg0, past, pre_cfg, mid_cfg, d, value);
                            assert(self.callback.history() =~= cb0.history() + past.push(
                                RunEvent::Dup(d, value),
                            ));
                            past = past.push(RunEvent::Dup(d, value));
                            if quiet_within(cfg0, u64::MAX as nat) {
                                lemma_quiet_stops(pre_cfg);
                                assert(false);
                            }
                        }
                        let copy = value.duplicate();
                        st.push(copy);
                        st.push(value);
                        proof {
                            assert(st@ =~= mid_cfg.pushed(value).pushed(value));
                        }
                    }
                }
            } else if c == '_' {
                // If (horizontal)
                proof {
                    lemma_vals_ok_pop(&self.callback, st.stack@);
                    if self.callback.concrete() {
                        lemma_all_const_pop(st.stack@);
                    }
                }
                match st.pop() {
                    StackValue::Const(value) => {
                        if value == 0 {
                            st.set_delta(Delta::Right);
                        } else {
                            st.set_delta(Delta::Left);
                        }
                        proof {
                            assert(spec_step(pre_cfg).0 =~= st@);
                            assert(spec_step(pre_cfg).1 == StepEffect::Quiet);
                            lemma_lift_quiet(cfg0, past, pre_cfg, st@);
                            if quiet_within(cfg0, u64::MAX as nat) {
                                lemma_quiet_step(pre_cfg, st@, fuel0);
                            }
                        }
                    }
                    StackValue::Dynamic(value) => {
                        let ghost prev = self.callback;
                        let t = QueuedState(st.with_delta(Delta::Right));
                        let f = QueuedState(st.with_delta(Delta::Left));
                        proof {
                            assert(t.stack_view() == st.stack@);
                            assert(f.stack_view() == st.stack@);
                            assert(t.config() =~= st@.steered(Delta::Right));
                            assert(f.config() =~= st@.steered(Delta::Left));
                            assert(spec_step(pre_cfg).0 =~= st@);
                            assert(spec_step(pre_cfg).1 == StepEffect::Branch(
                                value,
                                t.config(),
                                f.config(),
                            ));
                        }
                        let end = self.callback.if_zero(value, t, f);
                        proof {
                            self.callback.frame_trans(&prev, &cb0);
                            lemma_lift_branch(cfg0, past, pre_cfg, value, t.config(), f.config());
                            lemma_history_algebra(cb0.history(), past);
                            let n0 = choose|n: nat|
                                runs_to(
                                    cfg0,
                                    past,
                                    RunOutcome::Branched(value, t.config(), f.config()),
                                    n,
                                );
                            assert(run_events(&cb0, &self.callback) == past);
                            assert(runs_to(
                                cfg0,
                                run_events(&cb0, &self.callback),
                                RunOutcome::Branched(value, t.config(), f.config()),
                                n0,
                            ));
                            if quiet_within(cfg0, u64::MAX as nat) {
                                lemma_quiet_stops(pre_cfg);
                                assert(false);
                            }
                        }
                        return Ok(end);
                    }
                }
            } else if c == '|' {
                // If (vertical)
                proof {
                    lemma_vals_ok_pop(&self.callback, st.stack@);
                    if self.callback.concrete() {
                        lemma_all_const_pop(st.stack@);
                    }
                }
                match st.pop() {
                    StackValue::Const(value) => {
                        if value == 0 {
                            st.set_delta(Delta::Down);
                        } else {
                            st.set_delta(Delta::Up);
                        }
                        proof {
                            assert(spec_step(pre_cfg).0 =~= st@);
                            assert(spec_step(pre_cfg).1 == StepEffect::Quiet);
                            lemma_lift_quiet(cfg0, past, pre_cfg, st@);
                            if quiet_within(cfg0, u64::MAX as nat) {
                                lemma_quiet_step(pre_cfg, st@, fuel0);
                            }
                        }
                    }
                    StackValue::Dynamic(value) => {
                        let ghost prev = self.callback;
                        let t = QueuedState(st.with_delta(Delta::Down));
                        let f = QueuedState(st.with_delta(Delta::Up));
                        proof {
                            assert(t.stack_view() == st.stack@);
                            assert(f.stack_view() == st.stack@);
                            assert(t.config() =~= st@.steered(Delta::Down));
                            assert(f.config() =~= st@.steered(Delta::Up));
                            assert(spec_step(pre_cfg).0 =~= st@);
                            assert(spec_step(pre_cfg).1 == StepEffect::Branch(
                                value,
                                t.config(),
                                f.config(),
                            ));
                        }
                        let end = self.callback.if_zero(value, t, f);
                        proof {
                            self.callback.frame_trans(&prev, &cb0);
                            lemma_lift_branch(cfg0, past, pre_cfg, value, t.config(), f.config());
                            lemma_history_algebra(cb0.history(), past);
                            let n0 = choose|n: nat|
                                runs_to(
                                    cfg0,
                                    past,
                                    RunOutcome::Branched(value, t.config(), f.config()),
                                    n,
                                );
                            assert(run_events(&cb0, &self.callback) == past);
                            assert(runs_to(
                                cfg0,
                                run_events(&cb0, &self.callback),
                                RunOutcome::Branched(value, t.config(), f.config()),
                                n0,
                            ));
                            if quiet_within(cfg0, u64::MAX as nat) {
                                lemma_quiet_stops(pre_cfg);
                                assert(false);
                            }
                        }
                        return Ok(end);
                    }
                }
            } else if c == '~' {
                // Char input
                proof {
                    assert(spec_step(pre_cfg).0 =~= fcfg);
                    assert(spec_step(pre_cfg).1 == StepEffect::Input);
                }
                let ghost prev = self.callback;
                let value = self.callback.input();
                proof {
                    self.callback.frame_trans(&prev, &cb0);
                    lemma_vals_ok_frame(&self.callback, &prev, st.stack@);
                    lemma_vals_ok_push(&self.callback, st.stack@, value);
                    if self.callback.concrete() {
                        lemma_all_const_push(st.stack@, value);
                    }
                    lemma_lift_input(cfg0, past, pre_cfg, fcfg, value);
                    assert(self.callback.history() =~= cb0.history() + past.push(
                        RunEvent::In(value),
                    ));
                    past = past.push(RunEvent::In(value));
                    if quiet_within(cfg0, u64::MAX as nat) {
                        lemma_quiet_stops(pre_cfg);
                        assert(false);
                    }
                }
                st.push(value);
                proof {
                    assert(st@ =~= fcfg.pushed(value));
                }
            } else if c == ',' {
                // Char output
                proof {
                    lemma_vals_ok_pop(&self.callback, st.stack@);
                    if self.callback.concrete() {
                        lemma_all_const_pop(st.stack@);
                    }
                }
                let value = st.pop();
                proof {
                    assert(spec_step(pre_cfg).0 =~= st@);
                    assert(spec_step(pre_cfg).1 == StepEffect::Output(value));
                }
                let ghost prev = self.callback;
                self.callback.output(value);
                proof {
                    self.callback.frame_trans(&prev, &cb0);
                    lemma_vals_ok_frame(&self.callback, &prev, st.stack@);
                    lemma_lift_output(cfg0, past, pre_cfg, st@, value);
                    assert(self.callback.history() =~= cb0.history() + past.push(
                        RunEvent::Out(value),
                    ));
                    past = past.push(RunEvent::Out(value));
                    if quiet_within(cfg0, u64::MAX as nat) {
                        lemma_quiet_step(pre_cfg, st@, fuel0);
                    }
                }
            } else if c == '@' {
                // End
                proof {
                    assert(spec_step(pre_cfg).1 == StepEffect::End);
                }
                let ghost prev = self.callback;
                let end = self.callback.end();
                proof {
                    self.callback.frame_trans(&prev, &cb0);
                    lemma_lift_end(cfg0, past, pre_cfg);
                    lemma_history_algebra(cb0.history(), past);
                    let n0 = choose|n: nat| runs_to(cfg0, past, RunOutcome::Done, n);
                    assert(run_events(&cb0, &self.callback) == past);
                    assert(runs_to(cfg0, run_events(&cb0, &self.callback), RunOutcome::Done, n0));
                }
                return Ok(end);
            } else {
                proof {
                    assert(spec_step(pre_cfg).1 == StepEffect::Unsupported(c));
                    lemma_lift_failed(cfg0, past, pre_cfg, c);
                    lemma_history_algebra(cb0.history(), past);
                    let n0 = choose|n: nat| runs_to(cfg0, past, RunOutcome::Failed(c), n);
                    assert(run_events(&old(self).callback, &self.callback) == past);
                    assert(runs_to(state.config(), past, RunOutcome::Failed(c), n0));
                    assert(failed_run(state.config(), &old(self).callback, &self.callback, c));
                    if quiet_within(cfg0, u64::MAX as nat) {
                        lemma_quiet_stops(pre_cfg);
                        assert(false);
                    }
                }
                return Err(Error::Interpreter(InterpreterError::UnimplementedInstruction(c)));
            }
        }
    }
}

} // verus!
