use vstd::prelude::*;

use crate::compiler::ir::Action;
use crate::compiler::ir::ActionValue;
use crate::compiler::ir::Block;
use crate::host;
use crate::interpreter::value::DynamicValue;
use crate::translator::action_resolved;
use crate::translator::action_value_resolved;
use crate::translator::actions_resolved;
use crate::translator::defined_after;
use crate::translator::defined_after_actions;
use crate::translator::dynamic_resolved;

verus! {

/// One observable event of a block's actions. A pass may regroup actions —
/// say, five single-character outputs into one string output — but the
/// flattened sequence of events must stay exactly the same.
pub enum Event {
    /// The character with this code is emitted.
    Out(i32),
    /// The character computed from this symbolic tree is emitted.
    OutDynamic(DynamicValue),
    /// One character is read and bound to this tag.
    Read(usize),
    /// This value is bound to this tag.
    Bind(usize, ActionValue),
}

/// The events of a single action, in order.
pub open spec fn action_events(a: Action) -> Seq<Event> {
    match a {
        Action::OutputChar(ActionValue::Const(i)) => seq![Event::Out(i)],
        Action::OutputChar(ActionValue::Dynamic(d)) => seq![Event::OutDynamic(d)],
        Action::OutputString(s) => s@.map_values(|c: char| Event::Out((c as u32) as i32)),
        Action::Input(t) => seq![Event::Read(t)],
        Action::Tag(t, v) => seq![Event::Bind(t, v)],
    }
}

/// The flattened events of a list of actions, in execution order.
pub open spec fn trace(actions: Seq<Action>) -> Seq<Event>
    decreases actions.len(),
{
    if actions.len() == 0 {
        Seq::empty()
    } else {
        trace(actions.drop_last()) + action_events(actions.last())
    }
}

/// The trace of one more action is the trace so far followed by that
/// action's events.
proof fn lemma_trace_push(actions: Seq<Action>, a: Action)
    ensures
        trace(actions.push(a)) == trace(actions) + action_events(a),
{
    assert(actions.push(a).drop_last() =~= actions);
    assert(actions.push(a).last() == a);
}

/// Appends the pending run of characters as one bulk output, if any.
fn flush_run(actions: &mut Vec<Action>, run: &mut String)
    ensures
        old(run)@.len() == 0 ==> final(actions)@ == old(actions)@ && final(run)@ == old(run)@,
        old(run)@.len() > 0 ==> final(actions)@ == old(actions)@.push(
            Action::OutputString(*old(run)),
        ),
        final(run)@.len() == 0,
{
    if run.as_str().unicode_len() > 0 {
        let mut taken = String::new();
        core::mem::swap(&mut taken, run);
        actions.push(Action::OutputString(taken));
    }
}

/// Resolution judged on the event stream alone: walking the events in
/// order, every symbolic read resolves against the tags the reads and
/// bindings so far recorded.
pub open spec fn events_resolved(events: Seq<Event>, defined: Seq<usize>) -> bool
    decreases events.len(),
{
    if events.len() == 0 {
        true
    } else {
        match events[0] {
            Event::Out(_) => events_resolved(events.drop_first(), defined),
            Event::OutDynamic(d) => dynamic_resolved(d, defined) && events_resolved(
                events.drop_first(),
                defined,
            ),
            Event::Read(t) => events_resolved(events.drop_first(), defined.push(t)),
            Event::Bind(t, v) => action_value_resolved(v, defined) && events_resolved(
                events.drop_first(),
                defined.push(t),
            ),
        }
    }
}

/// The recorded tags after walking all the events in order.
pub open spec fn defined_after_events(events: Seq<Event>, defined: Seq<usize>) -> Seq<usize>
    decreases events.len(),
{
    if events.len() == 0 {
        defined
    } else {
        match events[0] {
            Event::Out(_) => defined_after_events(events.drop_first(), defined),
            Event::OutDynamic(_) => defined_after_events(events.drop_first(), defined),
            Event::Read(t) => defined_after_events(events.drop_first(), defined.push(t)),
            Event::Bind(t, _) => defined_after_events(events.drop_first(), defined.push(t)),
        }
    }
}

/// Splitting an event walk at a concatenation.
proof fn lemma_events_append(e1: Seq<Event>, e2: Seq<Event>, defined: Seq<usize>)
    ensures
        events_resolved(e1 + e2, defined) == (events_resolved(e1, defined) && events_resolved(
            e2,
            defined_after_events(e1, defined),
        )),
        defined_after_events(e1 + e2, defined) == defined_after_events(
            e2,
            defined_after_events(e1, defined),
        ),
    decreases e1.len(),
{
    if e1.len() == 0 {
        assert(e1 + e2 =~= e2);
    } else {
        assert((e1 + e2)[0] == e1[0]);
        assert((e1 + e2).drop_first() =~= e1.drop_first() + e2);
        match e1[0] {
            Event::Out(_) => {
                lemma_events_append(e1.drop_first(), e2, defined);
            }
            Event::OutDynamic(_) => {
                lemma_events_append(e1.drop_first(), e2, defined);
            }
            Event::Read(t) => {
                lemma_events_append(e1.drop_first(), e2, defined.push(t));
            }
            Event::Bind(t, _) => {
                lemma_events_append(e1.drop_first(), e2, defined.push(t));
            }
        }
    }
}

/// A pure run of character outputs resolves anywhere and records nothing.
proof fn lemma_out_events(cs: Seq<char>, defined: Seq<usize>)
    ensures
        events_resolved(cs.map_values(|c: char| Event::Out((c as u32) as i32)), defined),
        defined_after_events(cs.map_values(|c: char| Event::Out((c as u32) as i32)), defined)
            == defined,
    decreases cs.len(),
{
    let events = cs.map_values(|c: char| Event::Out((c as u32) as i32));
    if cs.len() > 0 {
        assert(events[0] == Event::Out((cs[0] as u32) as i32));
        assert(events.drop_first() =~= cs.drop_first().map_values(
            |c: char| Event::Out((c as u32) as i32),
        ));
        lemma_out_events(cs.drop_first(), defined);
    }
}

/// One action's events resolve exactly as the action does, and record the
/// same tags.
proof fn lemma_action_events_resolution(a: Action, defined: Seq<usize>)
    ensures
        events_resolved(action_events(a), defined) == action_resolved(a, defined),
        defined_after_events(action_events(a), defined) == defined_after(a, defined),
{
    reveal_with_fuel(events_resolved, 2);
    reveal_with_fuel(defined_after_events, 2);
    match a {
        Action::OutputString(s) => {
            assert(action_events(a) =~= s@.map_values(|c: char| Event::Out((c as u32) as i32)));
            lemma_out_events(s@, defined);
        }
        Action::OutputChar(ActionValue::Const(i)) => {
            assert(action_events(a)[0] == Event::Out(i));
            assert(action_events(a).drop_first() =~= Seq::<Event>::empty());
        }
        Action::OutputChar(ActionValue::Dynamic(d)) => {
            assert(action_events(a)[0] == Event::OutDynamic(d));
            assert(action_events(a).drop_first() =~= Seq::<Event>::empty());
        }
        Action::Input(t) => {
            assert(action_events(a)[0] == Event::Read(t));
            assert(action_events(a).drop_first() =~= Seq::<Event>::empty());
        }
        Action::Tag(t, v) => {
            assert(action_events(a)[0] == Event::Bind(t, v));
            assert(action_events(a).drop_first() =~= Seq::<Event>::empty());
        }
    }
}

/// The front-to-back decomposition of a trace.
proof fn lemma_trace_first(actions: Seq<Action>)
    requires
        actions.len() > 0,
    ensures
        trace(actions) == action_events(actions[0]) + trace(actions.drop_first()),
    decreases actions.len(),
{
    if actions.len() == 1 {
        assert(actions.drop_last() =~= Seq::<Action>::empty());
        assert(actions.drop_first() =~= Seq::<Action>::empty());
        assert(actions.last() == actions[0]);
        assert(trace(actions) =~= action_events(actions[0]) + trace(actions.drop_first()));
    } else {
        lemma_trace_first(actions.drop_last());
        assert(actions.drop_last()[0] == actions[0]);
        assert(actions.drop_last().drop_first() =~= actions.drop_first().drop_last());
        assert(actions.drop_first().last() == actions.last());
        assert(trace(actions) == (action_events(actions[0]) + trace(
            actions.drop_first().drop_last(),
        )) + action_events(actions.last()));
        assert((action_events(actions[0]) + trace(actions.drop_first().drop_last()))
            + action_events(actions.last()) =~= action_events(actions[0]) + (trace(
            actions.drop_first().drop_last(),
        ) + action_events(actions.last())));
        assert(trace(actions.drop_first()) == trace(actions.drop_first().drop_last())
            + action_events(actions.drop_first().last()));
    }
}

/// Resolution and the recorded tags are functions of the trace alone.
proof fn lemma_trace_resolution(actions: Seq<Action>, defined: Seq<usize>)
    ensures
        actions_resolved(actions, defined) == events_resolved(trace(actions), defined),
        defined_after_actions(actions, defined) == defined_after_events(
            trace(actions),
            defined,
        ),
    decreases actions.len(),
{
    if actions.len() == 0 {
    } else {
        lemma_trace_first(actions);
        lemma_events_append(action_events(actions[0]), trace(actions.drop_first()), defined);
        lemma_action_events_resolution(actions[0], defined);
        lemma_trace_resolution(actions.drop_first(), defined_after(actions[0], defined));
    }
}

/// Two action lists with one trace resolve alike and record the same tags:
/// a trace-preserving rewrite cannot break the backend's tag table.
pub proof fn lemma_trace_preserves_resolution(a1: Seq<Action>, a2: Seq<Action>, defined: Seq<usize>)
    requires
        trace(a1) == trace(a2),
    ensures
        actions_resolved(a1, defined) == actions_resolved(a2, defined),
        defined_after_actions(a1, defined) == defined_after_actions(a2, defined),
{
    lemma_trace_resolution(a1, defined);
    lemma_trace_resolution(a2, defined);
}

/// A code the pass may put into a string: a non-negative value that is a
/// valid scalar, so it converts to a character and back without loss.
pub open spec fn scalar_code(i: i32) -> bool {
    i >= 0 && (i < 0xD800 || (0xE000 <= i && i <= 0x10FFFF))
}

/// No single-character output remains whose code could have joined a run.
pub open spec fn no_loose_char_outputs(actions: Seq<Action>) -> bool {
    forall|i: int|
        0 <= i < actions.len() ==> !(#[trigger] actions[i] matches Action::OutputChar(
            ActionValue::Const(c),
        ) && scalar_code(c))
}

/// No two bulk string outputs stand next to each other: every run is
/// maximal.
pub open spec fn strings_separated(actions: Seq<Action>) -> bool {
    forall|i: int|
        0 <= i < actions.len() - 1 ==> !(#[trigger] actions[i] is OutputString && actions[i
            + 1] is OutputString)
}

/// Every bulk string output emits at least one character.
pub open spec fn strings_nonempty(actions: Seq<Action>) -> bool {
    forall|i: int|
        0 <= i < actions.len() ==> (#[trigger] actions[i] matches Action::OutputString(str) ==> str@.len()
            > 0)
}

/// No bulk string output occurs among the actions.
pub open spec fn no_strings(actions: Seq<Action>) -> bool {
    forall|i: int| 0 <= i < actions.len() ==> !(#[trigger] actions[i] is OutputString)
}

/// The optimizer's constant-run coalescing pass.
pub struct StringPrintPass;

impl StringPrintPass {
    /// Rewrites one block: every maximal run of concrete character outputs
    /// whose codes are valid scalars becomes a single bulk string output.
    /// All other actions — symbolic outputs, reads, bindings, and concrete
    /// outputs with no valid scalar — are kept verbatim in their places,
    /// and so is the terminator: the block's event trace is unchanged.
    pub fn optimize_block(block: Block) -> (r: Block)
        ensures
            trace(r.actions@) == trace(block.actions@),
            r.end == block.end,
            no_loose_char_outputs(r.actions@),
            no_strings(block.actions@) ==> strings_separated(r.actions@) && strings_nonempty(
                r.actions@,
            ),
    {
        let Block { actions: mut input, end } = block;
        let ghost input0 = input@;

        let mut actions: Vec<Action> = Vec::new();
        let mut run = String::new();
        let ghost mut k: int = 0;

        proof {
            assert(input0.subrange(0, 0) =~= Seq::<Action>::empty());
            assert(run@.map_values(|c: char| Event::Out((c as u32) as i32)) =~= Seq::<Event>::empty());
        }

        while input.len() > 0
            invariant
                input@ =~= input0.subrange(k, input0.len() as int),
                0 <= k <= input0.len(),
                trace(input0.subrange(0, k)) =~= trace(actions@) + run@.map_values(
                    |c: char| Event::Out((c as u32) as i32),
                ),
                no_loose_char_outputs(actions@),
                no_strings(input0) ==> {
                    &&& strings_separated(actions@)
                    &&& strings_nonempty(actions@)
                    &&& actions@.len() > 0 ==> !(actions@.last() is OutputString)
                },
            decreases input@.len(),
        {
            let a = input.remove(0);
            proof {
                assert(a == input0[k]);
                assert(input0.subrange(0, k + 1) =~= input0.subrange(0, k).push(a));
                lemma_trace_push(input0.subrange(0, k), a);
            }
            let ghost run_events = run@.map_values(|c: char| Event::Out((c as u32) as i32));

            let coalesced: bool = match &a {
                Action::OutputChar(ActionValue::Const(i)) if *i >= 0 => {
                    match host::char_from_u32(*i as u32) {
                        Some(c) => {
                            proof {
                                vstd::utf8::char_is_scalar(c);
                                assert((c as u32) as i32 == *i);
                                assert(action_events(a) =~= seq![Event::Out((c as u32) as i32)]);
                            }
                            host::push_char(&mut run, c);
                            proof {
                                assert(run@.map_values(|c: char| Event::Out((c as u32) as i32))
                                    =~= run_events.push(Event::Out((c as u32) as i32)));
                            }
                            true
                        }
                        None => false,
                    }
                }
                _ => false,
            };

            if !coalesced {
                let ghost actions_before = actions@;
                let ghost run_before = run;
                flush_run(&mut actions, &mut run);
                proof {
                    if run_events.len() > 0 {
                        lemma_trace_push(actions_before, Action::OutputString(run_before));
                        assert(action_events(Action::OutputString(run_before)) == run_events);
                        assert(trace(actions@) =~= trace(actions_before) + run_events);
                    } else {
                        assert(run_events =~= Seq::<Event>::empty());
                        assert(trace(actions@) + run_events =~= trace(actions@));
                    }
                }
                let ghost actions_mid = actions@;
                actions.push(a);
                proof {
                    lemma_trace_push(actions_mid, a);
                }
            }

            proof {
                k = k + 1;
            }
        }

        proof {
            assert(input0.subrange(0, input0.len() as int) =~= input0);
        }
        let ghost actions_before = actions@;
        let ghost run_before = run;
        let ghost run_events = run@.map_values(|c: char| Event::Out((c as u32) as i32));
        flush_run(&mut actions, &mut run);
        proof {
            if run_events.len() > 0 {
                lemma_trace_push(actions_before, Action::OutputString(run_before));
                assert(action_events(Action::OutputString(run_before)) == run_events);
                assert(trace(actions@) =~= trace(actions_before) + run_events);
            } else {
                assert(run_events =~= Seq::<Event>::empty());
                assert(trace(actions@) + run_events =~= trace(actions@));
            }
            assert(trace(actions@) =~= trace(input0));
        }

        Block::new(actions, end)
    }

    /// Applies the pass to every block of the table. Block indices do not
    /// move, terminators are untouched, and each block's event trace is
    /// unchanged.
    pub fn optimize(input: Vec<Block>) -> (r: Vec<Block>)
        ensures
            r@.len() == input@.len(),
            forall|i: int|
                0 <= i < input@.len() ==> #[trigger] r@[i].end == input@[i].end && trace(
                    r@[i].actions@,
                ) == trace(input@[i].actions@),
            forall|i: int|
                0 <= i < input@.len() ==> #[trigger] no_loose_char_outputs(r@[i].actions@) && (
                no_strings(input@[i].actions@) ==> strings_separated(r@[i].actions@)
                    && strings_nonempty(r@[i].actions@)),
    {
        let ghost input0 = input@;
        let mut input = input;
        let mut out: Vec<Block> = Vec::new();

        while input.len() > 0
            invariant
                input@ =~= input0.subrange(out@.len() as int, input0.len() as int),
                out@.len() <= input0.len(),
                forall|i: int|
                    0 <= i < out@.len() ==> #[trigger] out@[i].end == input0[i].end && trace(
                        out@[i].actions@,
                    ) == trace(input0[i].actions@),
                forall|i: int|
                    0 <= i < out@.len() ==> #[trigger] no_loose_char_outputs(out@[i].actions@) && (
                    no_strings(input0[i].actions@) ==> strings_separated(out@[i].actions@)
                        && strings_nonempty(out@[i].actions@)),
            decreases input@.len(),
        {
            let ghost n = out@.len() as int;
            let block = input.remove(0);
            proof {
                assert(block == input0[n]);
            }
            out.push(Self::optimize_block(block));
        }

        out
    }
}

} // verus!
