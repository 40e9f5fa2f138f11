//! The compiler driver: expands a program's symbolic executions over a work
//! queue of deferred continuations, producing a table of basic blocks.
//!
//! Beyond the shape of the table, the driver guarantees the two conditions
//! the native-code backend relies on: every branching terminator targets a
//! block in the table, and every symbolic read resolves against a tag that
//! an earlier read or binding recorded.

pub mod ir;

use vstd::prelude::*;

use crate::compiler::ir::Action;
use crate::compiler::ir::ActionValue;
use crate::compiler::ir::Block;
use crate::compiler::ir::End;
use crate::compiler::ir::ends_in_range;
use crate::error::Error;
use crate::interpreter::error::Error as InterpreterError;
use crate::interpreter::grid::Grid;
use crate::interpreter::interpreter::NullDebugger;
use crate::interpreter::machine::InterpreterCallback;
use crate::interpreter::machine::InterpreterCore;
use crate::interpreter::machine::QueuedState;
use crate::interpreter::machine::run_events;
use crate::interpreter::step::RunEvent;
use crate::interpreter::step::RunOutcome;
use crate::interpreter::step::initial_config;
use crate::interpreter::step::lemma_quiet_run_outcome;
use crate::interpreter::step::quiet_run_to_end;
use crate::interpreter::step::quiet_within;
use crate::interpreter::step::runs_to;
use crate::interpreter::value::DynamicValue;
use crate::interpreter::value::StackValue;
use crate::interpreter::value::apply_add;
use crate::interpreter::value::apply_mul;
use crate::interpreter::value::apply_sub;
use crate::translator::actions_resolved;
use crate::translator::block_resolved;
use crate::translator::blocks_resolved;
use crate::translator::covers;
use crate::translator::defined_after_actions;
use crate::translator::defined_after_blocks;
use crate::translator::lemma_actions_prefix;
use crate::translator::lemma_actions_resolved_mono;
use crate::translator::lemma_blocks_prefix;
use crate::translator::lemma_bounded_dynamic_resolves;
use crate::translator::lemma_dynamic_resolved_mono;
use crate::translator::lemma_push_contains;
use crate::translator::lemma_tag_range_contains;
use crate::translator::lemma_tags_below_value_mono;
use crate::translator::tag_range;
use crate::translator::tags_below_value;

verus! {

/// Every value on the snapshot's stack has its tags below the bound.
pub open spec fn queued_below(q: QueuedState, bound: int) -> bool {
    forall|i: int|
        0 <= i < q.stack_view().len() ==> tags_below_value(#[trigger] q.stack_view()[i], bound)
}

/// A bounded snapshot stays bounded as the bound grows.
proof fn lemma_queued_below_mono(q: QueuedState, b1: int, b2: int)
    requires
        queued_below(q, b1),
        b1 <= b2,
    ensures
        queued_below(q, b2),
{
    assert forall|i: int| 0 <= i < q.stack_view().len() implies tags_below_value(
        #[trigger] q.stack_view()[i],
        b2,
    ) by {
        lemma_tags_below_value_mono(q.stack_view()[i], b1, b2);
    }
}

/// The block records exactly one specification-level run of the program
/// from its initial configuration: the block's actions mirror the run's
/// interactions one to one, and its terminator matches the run's outcome —
/// `End` where the run reached the sentinel, a branch to block indices 1
/// and 2 — the two reserved for the run's continuations — where it
/// branched on an unknown.
pub open spec fn entry_block_of(grid: Seq<Seq<char>>, block: Block) -> bool {
    exists|events: Seq<RunEvent>, outcome: RunOutcome, n: nat|
        {
            &&& #[trigger] runs_to(initial_config(grid), events, outcome, n)
            &&& !(outcome is Failed)
            &&& block.actions@ == events.map_values(|e: RunEvent| event_action(e))
            &&& (outcome is Done ==> block.end == End::End)
            &&& (outcome matches RunOutcome::Branched(d, tc, fc) ==> block.end == End::If(
                ActionValue::Dynamic(d),
                1,
                2,
            ))
        }
}

/// The compiler: a work queue of deferred continuations, a monotonic
/// counter for fresh tags, and a monotonic counter for block indices.
///
/// Each queued continuation is keyed to the block index that was reserved
/// for it, in the order the indices were handed out; the driver resumes
/// them in that same order, so a block's position in the output table is
/// exactly its reserved index.
pub struct Compiler {
    /// The next fresh tag for unknowns.
    pub tag: usize,
    /// The next block index to reserve.
    pub idx: usize,
    /// The deferred continuations, in the order their indices were
    /// reserved.
    pub queue: Vec<QueuedState>,
}

impl Compiler {
    pub fn new() -> (r: Self)
        ensures
            r.tag == 0,
            r.idx == 0,
            r.queue@.len() == 0,
    {
        Self { tag: 0, idx: 0, queue: Vec::new() }
    }

    /// Hands out the next fresh tag. The counter is monotonic; at the very
    /// top of its range it saturates rather than wrap.
    pub fn tag(&mut self) -> (r: usize)
        ensures
            r == old(self).tag,
            final(self).tag == if old(self).tag < usize::MAX {
                (old(self).tag + 1) as usize
            } else {
                old(self).tag
            },
            final(self).idx == old(self).idx,
            final(self).queue@ == old(self).queue@,
    {
        let t = self.tag;
        if self.tag < usize::MAX {
            self.tag = self.tag + 1;
        }
        t
    }

    /// Enqueues a continuation, reserving the next block index for it.
    fn push(&mut self, state: QueuedState) -> (r: usize)
        requires
            old(self).idx < usize::MAX,
        ensures
            r == old(self).idx,
            final(self).idx == old(self).idx + 1,
            final(self).queue@ == old(self).queue@.push(state),
            final(self).tag == old(self).tag,
    {
        self.queue.push(state);
        self.idx = self.idx + 1;
        self.idx - 1
    }

    /// Takes the continuation whose reserved index is lowest, so blocks are
    /// emitted in index order.
    fn pop(&mut self) -> (r: Option<QueuedState>)
        ensures
            old(self).queue@.len() == 0 ==> r is None && *final(self) == *old(self),
            old(self).queue@.len() > 0 ==> {
                &&& r == Some(old(self).queue@[0])
                &&& final(self).queue@ == old(self).queue@.remove(0)
                &&& final(self).idx == old(self).idx
                &&& final(self).tag == old(self).tag
            },
    {
        if self.queue.len() == 0 {
            None
        } else {
            Some(self.queue.remove(0))
        }
    }

    /// Compiles a program: starting from its initial continuation, resumes
    /// deferred continuations until none are left, collecting one block per
    /// continuation.
    ///
    /// On success the table has at least the entry block, every branching
    /// terminator targets a valid position in the table, and every symbolic
    /// read resolves against an earlier recorded tag — the two conditions
    /// the backend's walk relies on. The run fails on an unsupported
    /// instruction, and — in place of running without bound — when the step
    /// or block budget is exhausted.
    pub fn run(self, input: Grid<char>) -> (r: Result<Vec<Block>, Error>)
        requires
            self.idx == 0,
            self.tag == 0,
            self.queue@.len() == 0,
        ensures
            r matches Ok(blocks) ==> {
                &&& blocks@.len() >= 1
                &&& ends_in_range(blocks@, blocks@.len() as int)
                &&& blocks_resolved(blocks@, Seq::<usize>::empty())
                &&& entry_block_of(input@, blocks@[0])
            },
            quiet_within(initial_config(input@), u64::MAX as nat) ==> r is Ok,
    {
        let mut this = self;
        this.push(QueuedState::from(input));

        let mut blocks: Vec<Block> = Vec::new();
        // The driver's termination measure: symbolic state spaces can be
        // unbounded, so in place of running without bound the driver errors
        // out at a budget no real program reaches.
        let mut fuel: u64 = u64::MAX;

        loop
            invariant_except_break
                quiet_within(initial_config(input@), u64::MAX as nat) ==> fuel as int >= u64::MAX
                    - blocks@.len(),
            invariant
                this.idx as int == blocks@.len() + this.queue@.len(),
                this.idx >= 1,
                ends_in_range(blocks@, this.idx as int),
                blocks_resolved(blocks@, Seq::<usize>::empty()),
                covers(defined_after_blocks(blocks@, Seq::<usize>::empty()), this.tag as int),
                forall|qi: int|
                    0 <= qi < this.queue@.len() ==> queued_below(
                        #[trigger] this.queue@[qi],
                        this.tag as int,
                    ),
                blocks@.len() == 0 ==> this.queue@.len() == 1 && this.queue@[0].config()
                    == initial_config(input@),
                blocks@.len() >= 1 ==> entry_block_of(input@, blocks@[0]),
                quiet_within(initial_config(input@), u64::MAX as nat) ==> blocks@.len()
                    + this.queue@.len() == 1,
            ensures
                blocks@.len() >= 1,
                ends_in_range(blocks@, blocks@.len() as int),
                blocks_resolved(blocks@, Seq::<usize>::empty()),
                entry_block_of(input@, blocks@[0]),
            decreases fuel,
        {
            if fuel == 0 {
                proof {
                    if quiet_within(initial_config(input@), u64::MAX as nat) {
                        assert(false);
                    }
                }
                return Err(Error::Interpreter(InterpreterError::EOF));
            }
            fuel = fuel - 1;

            let state = match this.pop() {
                Some(state) => state,
                None => {
                    break ;
                }
            };

            if this.idx > usize::MAX - 2 {
                // The block table cannot reserve further indices.
                return Err(Error::Interpreter(InterpreterError::EOF));
            }

            let ghost tag_entry = this.tag as int;
            let ghost table = defined_after_blocks(blocks@, Seq::<usize>::empty());
            let ghost remaining = this.queue@;

            let scratch = State::new(this);
            let ghost entry_cb = scratch;
            proof {
                assert forall|i: int| 0 <= i < state.stack_view().len() implies scratch.val_ok(
                    #[trigger] state.stack_view()[i],
                ) by {
                    assert(tags_below_value(state.stack_view()[i], tag_entry));
                }
            }
            let mut core = InterpreterCore::new(scratch, NullDebugger);
            let result = core.interpret(state);
            let finished = core.callback;
            this = finished.compiler;

            proof {
                assert forall|qi: int| 0 <= qi < this.queue@.len() implies queued_below(
                    #[trigger] this.queue@[qi],
                    this.tag as int,
                ) by {
                    if qi < remaining.len() {
                        assert(this.queue@.subrange(0, remaining.len() as int)[qi]
                            == this.queue@[qi]);
                        assert(queued_below(remaining[qi], tag_entry));
                        lemma_queued_below_mono(this.queue@[qi], tag_entry, this.tag as int);
                    }
                }
            }

            match result {
                Ok(block) => {
                    proof {
                        if blocks@.len() == 0 {
                            let (oc, n1): (RunOutcome, nat) = choose|oc: RunOutcome, n1: nat|
                                runs_to(
                                    state.config(),
                                    run_events(&entry_cb, &finished),
                                    oc,
                                    n1,
                                ) && !(oc is Failed) && finished.matches_outcome(&block, oc);
                            let events = run_events(&entry_cb, &finished);
                            assert(events =~= finished.seen@);
                            assert(state.config() == initial_config(input@));
                            assert(runs_to(initial_config(input@), events, oc, n1));
                            assert(block.actions@ == events.map_values(
                                |e: RunEvent| event_action(e),
                            ));
                            assert(finished.start_idx@ == 1);
                            match oc {
                                RunOutcome::Done => {
                                    assert(block.end == End::End);
                                }
                                RunOutcome::Branched(d, tc, fc) => {
                                    assert(block.end == End::If(ActionValue::Dynamic(d), 1, 2));
                                }
                                RunOutcome::Failed(_) => {
                                    assert(false);
                                }
                            }
                            assert(entry_block_of(input@, block));
                            if quiet_within(initial_config(input@), u64::MAX as nat) {
                                let k = choose|k: nat|
                                    k <= u64::MAX as nat && quiet_run_to_end(
                                        initial_config(input@),
                                        k,
                                    );
                                lemma_quiet_run_outcome(
                                    initial_config(input@),
                                    k,
                                    events,
                                    oc,
                                    n1,
                                );
                                assert(oc is Done);
                                assert(finished.compiler.queue@.len() == 0);
                            }
                        }
                        let base = tag_range(tag_entry);
                        assert forall|t: usize| base.contains(t) implies table.contains(t) by {
                            lemma_tag_range_contains(tag_entry, t);
                        }
                        lemma_actions_resolved_mono(block.actions@, base, table);
                        assert(block_resolved(block, table)) by {
                            match block.end {
                                End::End => {}
                                End::If(v, _, _) => {
                                    match v {
                                        ActionValue::Const(_) => {}
                                        ActionValue::Dynamic(d) => {
                                            lemma_dynamic_resolved_mono(
                                                d,
                                                defined_after_actions(block.actions@, base),
                                                defined_after_actions(block.actions@, table),
                                            );
                                        }
                                    }
                                }
                            }
                        }
                        lemma_blocks_prefix(blocks@, block, Seq::<usize>::empty());
                        assert forall|t: usize| t < this.tag as int implies defined_after_actions(
                            block.actions@,
                            table,
                        ).contains(t) by {
                            assert(defined_after_actions(block.actions@, base).contains(t));
                        }
                    }
                    blocks.push(block);
                }
                Err(e) => {
                    proof {
                        if quiet_within(initial_config(input@), u64::MAX as nat) {
                            assert(state.config() == initial_config(input@));
                            assert(false);
                        }
                    }
                    return Err(e);
                }
            }
        }

        Ok(blocks)
    }
}

/// The tag a materialized unknown names.
pub open spec fn tag_of(v: StackValue) -> usize {
    match v {
        StackValue::Dynamic(DynamicValue::Tagged(t)) => t,
        _ => 0,
    }
}

/// The action the compiler front-end records for one interaction: outputs
/// one to one, reads and materializations under the tag they bind.
pub open spec fn event_action(e: RunEvent) -> Action {
    match e {
        RunEvent::Out(StackValue::Const(i)) => Action::OutputChar(ActionValue::Const(i)),
        RunEvent::Out(StackValue::Dynamic(d)) => Action::OutputChar(ActionValue::Dynamic(d)),
        RunEvent::In(v) => Action::Input(tag_of(v)),
        RunEvent::Dup(d, v) => Action::Tag(tag_of(v), ActionValue::Dynamic(d)),
    }
}

/// The compiler's per-block front-end: accumulates the actions of the block
/// being compiled, and reserves tags and block indices from the driver.
pub struct State {
    /// The driver's counters and queue, carried through the block's run.
    pub compiler: Compiler,
    /// The actions accumulated so far, in execution order.
    pub actions: Vec<Action>,
    /// The tag counter's value when this block began, for stating that the
    /// block only reads tags recorded before or within it.
    pub start_tag: Ghost<usize>,
    /// The interactions answered so far, kept only for specification: the
    /// recorded actions mirror them one to one.
    pub seen: Ghost<Seq<RunEvent>>,
    /// The block-index counter's value when this block began: a branch at
    /// the block's end reserves exactly this index and the next.
    pub start_idx: Ghost<usize>,
    /// The queue's length when this block began: only a branch at the
    /// block's end enqueues anything, namely its two continuations.
    pub start_queue: Ghost<usize>,
}

impl State {
    fn new(compiler: Compiler) -> (r: Self)
        requires
            compiler.idx <= usize::MAX - 2,
        ensures
            r.compiler == compiler,
            r.actions@.len() == 0,
            r.start_tag@ == compiler.tag,
            r.start_idx@ == compiler.idx,
            r.start_queue@ == compiler.queue@.len(),
            r.seen@ == Seq::<RunEvent>::empty(),
            r.inv(),
    {
        let r = Self {
            start_tag: Ghost(compiler.tag),
            start_idx: Ghost(compiler.idx),
            start_queue: Ghost(compiler.queue.len()),
            compiler,
            actions: Vec::new(),
            seen: Ghost(Seq::empty()),
        };
        proof {
            assert(r.seen@.map_values(|e: RunEvent| event_action(e)) =~= Seq::<Action>::empty());
            assert forall|t: usize| t < r.compiler.tag as int implies defined_after_actions(
                r.actions@,
                tag_range(r.start_tag@ as int),
            ).contains(t) by {
                lemma_tag_range_contains(r.start_tag@ as int, t);
            }
        }
        r
    }

    /// Takes the accumulated actions, leaving the buffer empty.
    fn take_actions(&mut self) -> (r: Vec<Action>)
        ensures
            r@ == old(self).actions@,
            final(self).actions@.len() == 0,
            final(self).compiler == old(self).compiler,
            final(self).start_tag == old(self).start_tag,
            final(self).start_idx == old(self).start_idx,
            final(self).start_queue == old(self).start_queue,
            final(self).seen == old(self).seen,
    {
        let mut actions: Vec<Action> = Vec::new();
        core::mem::swap(&mut actions, &mut self.actions);
        actions
    }
}

impl InterpreterCallback for State {
    type End = Block;

    /// The compiler front-end takes symbolic values in stride.
    open spec fn concrete(&self) -> bool {
        false
    }

    /// Two block indices can still be reserved, as a branch needs; the
    /// buffered actions resolve against the tags recorded before the block
    /// began, and together those record every tag handed out so far.
    open spec fn inv(&self) -> bool {
        &&& self.compiler.idx <= usize::MAX - 2
        &&& self.start_tag@ <= self.compiler.tag
        &&& actions_resolved(self.actions@, tag_range(self.start_tag@ as int))
        &&& covers(
            defined_after_actions(self.actions@, tag_range(self.start_tag@ as int)),
            self.compiler.tag as int,
        )
        &&& self.actions@ == self.seen@.map_values(|e: RunEvent| event_action(e))
        &&& self.compiler.idx == self.start_idx@
        &&& self.compiler.queue@.len() == self.start_queue@
    }

    /// Every callback reserves exactly one queued continuation per block
    /// index it hands out, never takes an index or a continuation back,
    /// only grows the tag counter, and bounds the tags of everything it
    /// enqueues.
    open spec fn frame(&self, prev: &Self) -> bool {
        &&& self.compiler.idx >= prev.compiler.idx
        &&& self.compiler.idx as int - prev.compiler.idx as int == self.compiler.queue@.len() as int
            - prev.compiler.queue@.len() as int
        &&& self.compiler.tag >= prev.compiler.tag
        &&& self.start_tag == prev.start_tag
        &&& self.start_idx == prev.start_idx
        &&& self.start_queue == prev.start_queue
        &&& self.compiler.queue@.len() >= prev.compiler.queue@.len()
        &&& self.compiler.queue@.subrange(0, prev.compiler.queue@.len() as int)
            == prev.compiler.queue@
        &&& forall|qi: int|
            prev.compiler.queue@.len() <= qi < self.compiler.queue@.len() ==> queued_below(
                #[trigger] self.compiler.queue@[qi],
                self.compiler.tag as int,
            )
    }

    /// A finished block branches only to reserved indices, resolves its
    /// reads against the tags recorded before or within it, and records
    /// every tag handed out so far.
    open spec fn end_post(&self, r: &Block) -> bool {
        &&& (r.end matches End::If(_, t, f) ==> t < self.compiler.idx && f < self.compiler.idx)
        &&& block_resolved(*r, tag_range(self.start_tag@ as int))
        &&& covers(
            defined_after_actions(r.actions@, tag_range(self.start_tag@ as int)),
            self.compiler.tag as int,
        )
        &&& r.actions@ == self.seen@.map_values(|e: RunEvent| event_action(e))
    }

    open spec fn history(&self) -> Seq<RunEvent> {
        self.seen@
    }

    /// A run ending at the sentinel yields a block closed by `End`; a
    /// branching run yields a block whose terminator branches on the
    /// discriminant to the two indices just reserved, and the two enqueued
    /// continuations are exactly the run's.
    open spec fn matches_outcome(&self, r: &Block, outcome: RunOutcome) -> bool {
        match outcome {
            RunOutcome::Done => r.end == End::End && self.compiler.queue@.len()
                == self.start_queue@,
            RunOutcome::Branched(d, tc, fc) => {
                &&& (r.end matches End::If(v, ti, fi) && v == ActionValue::Dynamic(d) && ti
                    == self.start_idx@ && fi as int == self.start_idx@ as int + 1)
                &&& self.compiler.queue@.len() >= 2
                &&& self.compiler.queue@[self.compiler.queue@.len() - 2].config() == tc
                &&& self.compiler.queue@[self.compiler.queue@.len() - 1].config() == fc
            },
            RunOutcome::Failed(_) => false,
        }
    }

    /// A value is acceptable when its tags were all handed out already.
    open spec fn val_ok(&self, v: StackValue) -> bool {
        tags_below_value(v, self.compiler.tag as int)
    }

    proof fn frame_refl(&self) {
        assert(self.compiler.queue@.subrange(0, self.compiler.queue@.len() as int)
            =~= self.compiler.queue@);
    }

    proof fn frame_trans(&self, mid: &Self, prev: &Self) {
        let a = prev.compiler.queue@.len() as int;
        let b = mid.compiler.queue@.len() as int;
        assert forall|i: int| 0 <= i < a implies self.compiler.queue@[i]
            == prev.compiler.queue@[i] by {
            assert(self.compiler.queue@.subrange(0, b)[i] == self.compiler.queue@[i]);
            assert(mid.compiler.queue@.subrange(0, a)[i] == mid.compiler.queue@[i]);
        }
        assert(self.compiler.queue@.subrange(0, a) =~= prev.compiler.queue@);
        assert forall|qi: int| a <= qi < self.compiler.queue@.len() implies queued_below(
            #[trigger] self.compiler.queue@[qi],
            self.compiler.tag as int,
        ) by {
            if qi < b {
                assert(self.compiler.queue@.subrange(0, b)[qi] == self.compiler.queue@[qi]);
                assert(queued_below(mid.compiler.queue@[qi], mid.compiler.tag as int));
                lemma_queued_below_mono(
                    self.compiler.queue@[qi],
                    mid.compiler.tag as int,
                    self.compiler.tag as int,
                );
            }
        }
    }

    proof fn val_ok_const(&self, i: i32) {
    }

    proof fn val_ok_frame(&self, prev: &Self, v: StackValue) {
        lemma_tags_below_value_mono(v, prev.compiler.tag as int, self.compiler.tag as int);
    }

    proof fn val_ok_combine(&self, lhs: StackValue, rhs: StackValue) {
        assert(self.val_ok(apply_add(lhs, rhs)));
        assert(self.val_ok(apply_mul(lhs, rhs)));
        assert(self.val_ok(apply_sub(lhs, rhs)));
    }

    /// Records one character output, concrete or symbolic, one to one.
    fn output(&mut self, value: StackValue)
        ensures
            final(self).actions@ == old(self).actions@.push(
                match value {
                    StackValue::Const(i) => Action::OutputChar(ActionValue::Const(i)),
                    StackValue::Dynamic(d) => Action::OutputChar(ActionValue::Dynamic(d)),
                },
            ),
            final(self).compiler == old(self).compiler,
    {
        let ghost pre = *self;
        let ghost base = tag_range(self.start_tag@ as int);
        let ghost operand = value;
        let action = match value {
            StackValue::Const(i) => Action::OutputChar(ActionValue::Const(i)),
            StackValue::Dynamic(value) => Action::OutputChar(ActionValue::Dynamic(value)),
        };
        self.seen = Ghost(self.seen@.push(RunEvent::Out(operand)));
        proof {
            lemma_actions_prefix(pre.actions@, action, base);
            match operand {
                StackValue::Const(_) => {}
                StackValue::Dynamic(d) => {
                    lemma_bounded_dynamic_resolves(
                        d,
                        pre.compiler.tag as int,
                        defined_after_actions(pre.actions@, base),
                    );
                }
            }
            assert(event_action(RunEvent::Out(operand)) == action);
            assert(self.seen@.map_values(|e: RunEvent| event_action(e)) =~= pre.seen@.map_values(
                |e: RunEvent| event_action(e),
            ).push(action));
            self.frame_refl();
        }
        self.actions.push(action);
    }

    /// Records one input under a fresh tag and yields the unknown that
    /// names it. Should the tag counter ever be exhausted — beyond any real
    /// run — the first tag is rebound instead.
    fn input(&mut self) -> (r: StackValue)
        ensures
            r matches StackValue::Dynamic(d) && (d matches DynamicValue::Tagged(t)
                && final(self).actions@ == old(self).actions@.push(Action::Input(t)) && (old(
                self,
            ).compiler.tag < usize::MAX ==> t == old(self).compiler.tag)),
            final(self).compiler.idx == old(self).compiler.idx,
            final(self).compiler.queue@ == old(self).compiler.queue@,
    {
        let ghost pre = *self;
        let ghost base = tag_range(self.start_tag@ as int);
        let mut tag = self.compiler.tag();
        if tag == usize::MAX {
            tag = 0;
        }
        let action = Action::Input(tag);
        let value = StackValue::Dynamic(DynamicValue::Tagged(tag));
        self.seen = Ghost(self.seen@.push(RunEvent::In(value)));
        proof {
            lemma_actions_prefix(pre.actions@, action, base);
            let before = defined_after_actions(pre.actions@, base);
            assert forall|t: usize| t < self.compiler.tag as int implies defined_after_actions(
                pre.actions@.push(action),
                base,
            ).contains(t) by {
                lemma_push_contains(before, tag, t);
            }
            assert(event_action(RunEvent::In(value)) == action);
            assert(self.seen@.map_values(|e: RunEvent| event_action(e)) =~= pre.seen@.map_values(
                |e: RunEvent| event_action(e),
            ).push(action));
            self.frame_refl();
        }
        self.actions.push(action);
        value
    }

    /// Binds a symbolic value to a fresh tag once, so both copies on the
    /// stack name the same run-time value instead of recomputing the tree.
    /// Should the tag counter ever be exhausted — beyond any real run — the
    /// first tag is rebound instead.
    fn duplicate(&mut self, value: DynamicValue) -> (r: StackValue)
        ensures
            r matches StackValue::Dynamic(d) && (d matches DynamicValue::Tagged(t)
                && final(self).actions@ == old(self).actions@.push(
                Action::Tag(t, ActionValue::Dynamic(value)),
            ) && (old(self).compiler.tag < usize::MAX ==> t == old(self).compiler.tag)),
            final(self).compiler.idx == old(self).compiler.idx,
            final(self).compiler.queue@ == old(self).compiler.queue@,
    {
        let ghost pre = *self;
        let ghost base = tag_range(self.start_tag@ as int);
        let ghost tree = value;
        let mut tag = self.compiler.tag();
        if tag == usize::MAX {
            tag = 0;
        }
        let action = Action::Tag(tag, ActionValue::Dynamic(value));
        let result = StackValue::Dynamic(DynamicValue::Tagged(tag));
        self.seen = Ghost(self.seen@.push(RunEvent::Dup(tree, result)));
        proof {
            lemma_actions_prefix(pre.actions@, action, base);
            let before = defined_after_actions(pre.actions@, base);
            lemma_bounded_dynamic_resolves(tree, pre.compiler.tag as int, before);
            assert forall|t: usize| t < self.compiler.tag as int implies defined_after_actions(
                pre.actions@.push(action),
                base,
            ).contains(t) by {
                lemma_push_contains(before, tag, t);
            }
            assert(event_action(RunEvent::Dup(tree, result)) == action);
            assert(self.seen@.map_values(|e: RunEvent| event_action(e)) =~= pre.seen@.map_values(
                |e: RunEvent| event_action(e),
            ).push(action));
            self.frame_refl();
        }
        self.actions.push(action);
        result
    }

    /// Finishes the block with a branch: reserves one block index per arm,
    /// enqueues both continuations, and pins the indices in the
    /// terminator — zero to the first, non-zero to the second.
    fn if_zero(&mut self, value: DynamicValue, t: QueuedState, f: QueuedState) -> (r: Block)
        ensures
            r.actions@ == old(self).actions@,
            r.end == End::If(
                ActionValue::Dynamic(value),
                old(self).compiler.idx,
                (old(self).compiler.idx + 1) as usize,
            ),
            final(self).compiler.idx == old(self).compiler.idx + 2,
            final(self).compiler.queue@ == old(self).compiler.queue@.push(t).push(f),
    {
        let ghost pre = *self;
        let ghost base = tag_range(self.start_tag@ as int);
        let ghost tree = value;
        let t_idx = self.compiler.push(t);
        let f_idx = self.compiler.push(f);
        let actions = self.take_actions();
        proof {
            lemma_bounded_dynamic_resolves(
                tree,
                pre.compiler.tag as int,
                defined_after_actions(actions@, base),
            );
            assert(self.compiler.queue@.subrange(0, pre.compiler.queue@.len() as int)
                =~= pre.compiler.queue@);
        }
        Block::new(actions, End::If(ActionValue::Dynamic(value), t_idx, f_idx))
    }

    /// Finishes the block at the end-of-program sentinel.
    fn end(&mut self) -> (r: Block)
        ensures
            r.actions@ == old(self).actions@,
            r.end == End::End,
            final(self).compiler == old(self).compiler,
    {
        let actions = self.take_actions();
        proof {
            self.frame_refl();
        }
        Block::new(actions, End::End)
    }
}

} // verus!
