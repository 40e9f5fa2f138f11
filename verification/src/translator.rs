//! The checks the backend translation of the block table relies on.
//!
//! The native-code backend walks the table in index order with one value
//! table: reads and bindings record their tag, and computing a symbolic tree
//! looks every `Tagged` leaf up, failing loudly on a tag that was never
//! recorded. A branch targets blocks by index. This module states both
//! soundness conditions — every referenced tag was recorded earlier in the
//! walk, every branch target is a valid index — and decides them, so a host
//! can refuse a table the backend could not translate.

use vstd::prelude::*;

use crate::compiler::ir::Action;
use crate::compiler::ir::ActionValue;
use crate::compiler::ir::Block;
use crate::compiler::ir::End;
use crate::compiler::ir::ends_in_range;
use crate::interpreter::value::DynamicValue;
use crate::interpreter::value::StackValue;

verus! {

/// Every `Tagged` leaf under the value is among the recorded tags.
pub open spec fn value_resolved(v: StackValue, defined: Seq<usize>) -> bool
    decreases v,
{
    match v {
        StackValue::Const(_) => true,
        StackValue::Dynamic(d) => dynamic_resolved(d, defined),
    }
}

/// Every `Tagged` leaf under the tree is among the recorded tags.
pub open spec fn dynamic_resolved(d: DynamicValue, defined: Seq<usize>) -> bool
    decreases d,
{
    match d {
        DynamicValue::Tagged(t) => defined.contains(t),
        DynamicValue::Add(l, r) => value_resolved(*l, defined) && value_resolved(*r, defined),
        DynamicValue::Mul(l, r) => value_resolved(*l, defined) && value_resolved(*r, defined),
        DynamicValue::Sub(l, r) => value_resolved(*l, defined) && value_resolved(*r, defined),
    }
}

/// Every `Tagged` leaf under the action value is among the recorded tags.
pub open spec fn action_value_resolved(v: ActionValue, defined: Seq<usize>) -> bool {
    match v {
        ActionValue::Const(_) => true,
        ActionValue::Dynamic(d) => dynamic_resolved(d, defined),
    }
}

/// The symbolic values this action reads all resolve against the recorded
/// tags.
pub open spec fn action_resolved(a: Action, defined: Seq<usize>) -> bool {
    match a {
        Action::OutputChar(v) => action_value_resolved(v, defined),
        Action::OutputString(_) => true,
        Action::Input(_) => true,
        Action::Tag(_, v) => action_value_resolved(v, defined),
    }
}

/// The recorded tags after this action: reads and bindings record theirs.
pub open spec fn defined_after(a: Action, defined: Seq<usize>) -> Seq<usize> {
    match a {
        Action::Input(t) => defined.push(t),
        Action::Tag(t, _) => defined.push(t),
        _ => defined,
    }
}

/// Walking the actions in order, every symbolic read resolves against the
/// tags recorded so far.
pub open spec fn actions_resolved(actions: Seq<Action>, defined: Seq<usize>) -> bool
    decreases actions.len(),
{
    if actions.len() == 0 {
        true
    } else {
        action_resolved(actions[0], defined) && actions_resolved(
            actions.drop_first(),
            defined_after(actions[0], defined),
        )
    }
}

/// The recorded tags after walking all the actions in order.
pub open spec fn defined_after_actions(actions: Seq<Action>, defined: Seq<usize>) -> Seq<usize>
    decreases actions.len(),
{
    if actions.len() == 0 {
        defined
    } else {
        defined_after_actions(actions.drop_first(), defined_after(actions[0], defined))
    }
}

/// Walking one block's actions in order, every symbolic read resolves, and
/// so does a branching terminator's discriminant at the end of the walk.
pub open spec fn block_resolved(block: Block, defined: Seq<usize>) -> bool {
    &&& actions_resolved(block.actions@, defined)
    &&& match block.end {
        End::End => true,
        End::If(v, _, _) => action_value_resolved(
            v,
            defined_after_actions(block.actions@, defined),
        ),
    }
}

/// Walking the blocks in index order with one table of recorded tags, every
/// symbolic read — in an action or in a branching terminator — resolves
/// against the tags recorded up to that point.
pub open spec fn blocks_resolved(blocks: Seq<Block>, defined: Seq<usize>) -> bool
    decreases blocks.len(),
{
    if blocks.len() == 0 {
        true
    } else {
        &&& block_resolved(blocks[0], defined)
        &&& blocks_resolved(
            blocks.drop_first(),
            defined_after_actions(blocks[0].actions@, defined),
        )
    }
}

/// The recorded tags after walking all the blocks in index order.
pub open spec fn defined_after_blocks(blocks: Seq<Block>, defined: Seq<usize>) -> Seq<usize>
    decreases blocks.len(),
{
    if blocks.len() == 0 {
        defined
    } else {
        defined_after_blocks(
            blocks.drop_first(),
            defined_after_actions(blocks[0].actions@, defined),
        )
    }
}

/// Splitting one block off the back of a walk.
pub(crate) proof fn lemma_blocks_prefix(prefix: Seq<Block>, b: Block, defined: Seq<usize>)
    ensures
        blocks_resolved(prefix.push(b), defined) == (blocks_resolved(prefix, defined)
            && block_resolved(b, defined_after_blocks(prefix, defined))),
        defined_after_blocks(prefix.push(b), defined) == defined_after_actions(
            b.actions@,
            defined_after_blocks(prefix, defined),
        ),
    decreases prefix.len(),
{
    if prefix.len() == 0 {
        assert(prefix.push(b)[0] == b);
        assert(prefix.push(b).drop_first() =~= Seq::<Block>::empty());
        assert(blocks_resolved(prefix.push(b), defined) == (block_resolved(b, defined)
            && blocks_resolved(Seq::<Block>::empty(), defined_after_actions(b.actions@, defined))));
        assert(defined_after_blocks(prefix.push(b), defined) == defined_after_blocks(
            Seq::<Block>::empty(),
            defined_after_actions(b.actions@, defined),
        ));
    } else {
        assert(prefix.push(b)[0] == prefix[0]);
        assert(prefix.push(b).drop_first() =~= prefix.drop_first().push(b));
        lemma_blocks_prefix(
            prefix.drop_first(),
            b,
            defined_after_actions(prefix[0].actions@, defined),
        );
        assert(blocks_resolved(prefix.push(b), defined) == (block_resolved(prefix[0], defined)
            && blocks_resolved(
            prefix.drop_first().push(b),
            defined_after_actions(prefix[0].actions@, defined),
        )));
        assert(blocks_resolved(prefix, defined) == (block_resolved(prefix[0], defined)
            && blocks_resolved(
            prefix.drop_first(),
            defined_after_actions(prefix[0].actions@, defined),
        )));
        assert(defined_after_blocks(prefix.push(b), defined) == defined_after_blocks(
            prefix.drop_first().push(b),
            defined_after_actions(prefix[0].actions@, defined),
        ));
        assert(defined_after_blocks(prefix, defined) == defined_after_blocks(
            prefix.drop_first(),
            defined_after_actions(prefix[0].actions@, defined),
        ));
    }
}

/// Every tag under the value lies below the bound.
pub open spec fn tags_below_value(v: StackValue, bound: int) -> bool
    decreases v,
{
    match v {
        StackValue::Const(_) => true,
        StackValue::Dynamic(d) => tags_below_dynamic(d, bound),
    }
}

/// Every tag under the tree lies below the bound.
pub open spec fn tags_below_dynamic(d: DynamicValue, bound: int) -> bool
    decreases d,
{
    match d {
        DynamicValue::Tagged(t) => t < bound,
        DynamicValue::Add(l, r) => tags_below_value(*l, bound) && tags_below_value(*r, bound),
        DynamicValue::Mul(l, r) => tags_below_value(*l, bound) && tags_below_value(*r, bound),
        DynamicValue::Sub(l, r) => tags_below_value(*l, bound) && tags_below_value(*r, bound),
    }
}

/// The recorded tags include every tag below the bound.
pub open spec fn covers(defined: Seq<usize>, bound: int) -> bool {
    forall|t: usize| t < bound ==> defined.contains(t)
}

/// A value whose tags all lie below a bound resolves against any table that
/// records every tag below that bound.
pub(crate) proof fn lemma_bounded_value_resolves(v: StackValue, bound: int, defined: Seq<usize>)
    requires
        tags_below_value(v, bound),
        covers(defined, bound),
    ensures
        value_resolved(v, defined),
    decreases v,
{
    match v {
        StackValue::Const(_) => {}
        StackValue::Dynamic(d) => {
            lemma_bounded_dynamic_resolves(d, bound, defined);
        }
    }
}

/// A tree whose tags all lie below a bound resolves against any table that
/// records every tag below that bound.
pub(crate) proof fn lemma_bounded_dynamic_resolves(d: DynamicValue, bound: int, defined: Seq<usize>)
    requires
        tags_below_dynamic(d, bound),
        covers(defined, bound),
    ensures
        dynamic_resolved(d, defined),
    decreases d,
{
    match d {
        DynamicValue::Tagged(t) => {
            assert(defined.contains(t));
        }
        DynamicValue::Add(l, r) => {
            lemma_bounded_value_resolves(*l, bound, defined);
            lemma_bounded_value_resolves(*r, bound, defined);
        }
        DynamicValue::Mul(l, r) => {
            lemma_bounded_value_resolves(*l, bound, defined);
            lemma_bounded_value_resolves(*r, bound, defined);
        }
        DynamicValue::Sub(l, r) => {
            lemma_bounded_value_resolves(*l, bound, defined);
            lemma_bounded_value_resolves(*r, bound, defined);
        }
    }
}

/// The table that records exactly the tags below `n`, in order.
pub open spec fn tag_range(n: int) -> Seq<usize> {
    Seq::new(if n >= 0 {
        n as nat
    } else {
        0
    }, |i: int| i as usize)
}

/// `tag_range(n)` records a tag exactly when it lies below `n`.
pub(crate) proof fn lemma_tag_range_contains(n: int, t: usize)
    ensures
        tag_range(n).contains(t) <==> t < n,
{
    if t < n {
        assert(tag_range(n)[t as int] == t);
    }
}

/// Every tag the first table records, the second records too.
pub open spec fn tags_subset(d1: Seq<usize>, d2: Seq<usize>) -> bool {
    forall|t: usize| d1.contains(t) ==> d2.contains(t)
}

/// Resolution of a value only grows with the table.
pub(crate) proof fn lemma_value_resolved_mono(v: StackValue, d1: Seq<usize>, d2: Seq<usize>)
    requires
        tags_subset(d1, d2),
        value_resolved(v, d1),
    ensures
        value_resolved(v, d2),
    decreases v,
{
    match v {
        StackValue::Const(_) => {}
        StackValue::Dynamic(d) => {
            lemma_dynamic_resolved_mono(d, d1, d2);
        }
    }
}

/// Resolution of a tree only grows with the table.
pub(crate) proof fn lemma_dynamic_resolved_mono(d: DynamicValue, d1: Seq<usize>, d2: Seq<usize>)
    requires
        tags_subset(d1, d2),
        dynamic_resolved(d, d1),
    ensures
        dynamic_resolved(d, d2),
    decreases d,
{
    match d {
        DynamicValue::Tagged(t) => {
            assert(d1.contains(t));
        }
        DynamicValue::Add(l, r) => {
            lemma_value_resolved_mono(*l, d1, d2);
            lemma_value_resolved_mono(*r, d1, d2);
        }
        DynamicValue::Mul(l, r) => {
            lemma_value_resolved_mono(*l, d1, d2);
            lemma_value_resolved_mono(*r, d1, d2);
        }
        DynamicValue::Sub(l, r) => {
            lemma_value_resolved_mono(*l, d1, d2);
            lemma_value_resolved_mono(*r, d1, d2);
        }
    }
}

/// A whole walk's resolution only grows with the starting table, and the
/// containment persists to the tables after the walk.
pub(crate) proof fn lemma_actions_resolved_mono(actions: Seq<Action>, d1: Seq<usize>, d2: Seq<usize>)
    requires
        tags_subset(d1, d2),
    ensures
        actions_resolved(actions, d1) ==> actions_resolved(actions, d2),
        tags_subset(defined_after_actions(actions, d1), defined_after_actions(actions, d2)),
    decreases actions.len(),
{
    if actions.len() == 0 {
    } else {
        let a = actions[0];
        assert forall|t: usize| defined_after(a, d1).contains(t) implies defined_after(
            a,
            d2,
        ).contains(t) by {
            match a {
                Action::Input(tag) => {
                    lemma_push_contains(d1, tag, t);
                    lemma_push_contains(d2, tag, t);
                }
                Action::Tag(tag, _) => {
                    lemma_push_contains(d1, tag, t);
                    lemma_push_contains(d2, tag, t);
                }
                _ => {}
            }
        }
        lemma_actions_resolved_mono(actions.drop_first(), defined_after(a, d1), defined_after(a, d2));
        if actions_resolved(actions, d1) {
            match a {
                Action::OutputChar(ActionValue::Dynamic(d)) => {
                    lemma_dynamic_resolved_mono(d, d1, d2);
                }
                Action::Tag(_, ActionValue::Dynamic(d)) => {
                    lemma_dynamic_resolved_mono(d, d1, d2);
                }
                _ => {}
            }
        }
    }
}

/// Membership after a push: the pushed tag, or one already recorded.
pub(crate) proof fn lemma_push_contains(d: Seq<usize>, pushed: usize, t: usize)
    ensures
        d.push(pushed).contains(t) <==> (d.contains(t) || t == pushed),
{
    if d.contains(t) {
        let i = choose|i: int| 0 <= i < d.len() && d[i] == t;
        assert(d.push(pushed)[i] == t);
    }
    if t == pushed {
        assert(d.push(pushed)[d.len() as int] == t);
    }
    if d.push(pushed).contains(t) {
        let i = choose|i: int| 0 <= i < d.push(pushed).len() && d.push(pushed)[i] == t;
        if i < d.len() {
            assert(d[i] == t);
        }
    }
}

/// Bounded tags stay bounded as the bound grows.
pub(crate) proof fn lemma_tags_below_value_mono(v: StackValue, b1: int, b2: int)
    requires
        tags_below_value(v, b1),
        b1 <= b2,
    ensures
        tags_below_value(v, b2),
    decreases v,
{
    match v {
        StackValue::Const(_) => {}
        StackValue::Dynamic(d) => {
            lemma_tags_below_dynamic_mono(d, b1, b2);
        }
    }
}

/// Bounded tags stay bounded as the bound grows.
pub(crate) proof fn lemma_tags_below_dynamic_mono(d: DynamicValue, b1: int, b2: int)
    requires
        tags_below_dynamic(d, b1),
        b1 <= b2,
    ensures
        tags_below_dynamic(d, b2),
    decreases d,
{
    match d {
        DynamicValue::Tagged(_) => {}
        DynamicValue::Add(l, r) => {
            lemma_tags_below_value_mono(*l, b1, b2);
            lemma_tags_below_value_mono(*r, b1, b2);
        }
        DynamicValue::Mul(l, r) => {
            lemma_tags_below_value_mono(*l, b1, b2);
            lemma_tags_below_value_mono(*r, b1, b2);
        }
        DynamicValue::Sub(l, r) => {
            lemma_tags_below_value_mono(*l, b1, b2);
            lemma_tags_below_value_mono(*r, b1, b2);
        }
    }
}

fn tag_recorded(defined: &Vec<usize>, t: usize) -> (r: bool)
    ensures
        r == defined@.contains(t),
{
    let mut i: usize = 0;
    while i < defined.len()
        invariant
            0 <= i <= defined@.len(),
            forall|j: int| 0 <= j < i ==> defined@[j] != t,
        decreases defined@.len() - i,
    {
        if defined[i] == t {
            return true;
        }
        i += 1;
    }
    false
}

fn check_value(v: &StackValue, defined: &Vec<usize>) -> (r: bool)
    ensures
        r == value_resolved(*v, defined@),
    decreases *v,
{
    match v {
        StackValue::Const(_) => true,
        StackValue::Dynamic(d) => check_dynamic(d, defined),
    }
}

fn check_dynamic(d: &DynamicValue, defined: &Vec<usize>) -> (r: bool)
    ensures
        r == dynamic_resolved(*d, defined@),
    decreases *d,
{
    match d {
        DynamicValue::Tagged(t) => tag_recorded(defined, *t),
        DynamicValue::Add(l, r) => check_value(l, defined) && check_value(r, defined),
        DynamicValue::Mul(l, r) => check_value(l, defined) && check_value(r, defined),
        DynamicValue::Sub(l, r) => check_value(l, defined) && check_value(r, defined),
    }
}

fn check_action_value(v: &ActionValue, defined: &Vec<usize>) -> (r: bool)
    ensures
        r == action_value_resolved(*v, defined@),
{
    match v {
        ActionValue::Const(_) => true,
        ActionValue::Dynamic(d) => check_dynamic(d, defined),
    }
}

/// Decides whether every symbolic read in the table resolves, walking the
/// blocks the way the backend does.
pub fn tags_resolved(blocks: &Vec<Block>) -> (r: bool)
    ensures
        r == blocks_resolved(blocks@, Seq::<usize>::empty()),
{
    let mut defined: Vec<usize> = Vec::new();
    let mut b: usize = 0;
    let mut ok = true;
    proof {
        assert(blocks@.subrange(0, blocks@.len() as int) =~= blocks@);
    }

    while b < blocks.len()
        invariant
            0 <= b <= blocks@.len(),
            ok ==> blocks_resolved(blocks@, Seq::<usize>::empty()) == blocks_resolved(
                blocks@.subrange(b as int, blocks@.len() as int),
                defined@,
            ),
            !ok ==> !blocks_resolved(blocks@, Seq::<usize>::empty()),
        decreases blocks@.len() - b,
    {
        let ghost rest = blocks@.subrange(b as int, blocks@.len() as int);
        let block = &blocks[b];
        let ghost defined0 = defined@;

        let mut i: usize = 0;
        let mut actions_ok = true;
        while i < block.actions.len()
            invariant
                0 <= i <= block.actions@.len(),
                defined@ == defined_after_actions(block.actions@.subrange(0, i as int), defined0),
                actions_ok == actions_resolved(block.actions@.subrange(0, i as int), defined0),
            decreases block.actions@.len() - i,
        {
            let ghost prefix = block.actions@.subrange(0, i as int);
            let ghost prefix1 = block.actions@.subrange(0, i + 1 as int);
            proof {
                lemma_actions_prefix(prefix, block.actions@[i as int], defined0);
                assert(prefix1 =~= prefix.push(block.actions@[i as int]));
            }
            let a = &block.actions[i];
            if !check_action_value(
                match a {
                    Action::OutputChar(v) => v,
                    Action::Tag(_, v) => v,
                    _ => &ActionValue::Const(0),
                },
                &defined,
            ) {
                actions_ok = false;
            }
            match a {
                Action::Input(t) => defined.push(*t),
                Action::Tag(t, _) => defined.push(*t),
                _ => (),
            }
            i += 1;
        }
        proof {
            assert(block.actions@.subrange(0, block.actions@.len() as int) =~= block.actions@);
        }

        let end_ok: bool = match &block.end {
            End::End => true,
            End::If(v, _, _) => check_action_value(v, &defined),
        };

        if !(actions_ok && end_ok) {
            ok = false;
        }
        proof {
            assert(rest[0] == blocks@[b as int]);
            assert(rest.drop_first() =~= blocks@.subrange(b + 1 as int, blocks@.len() as int));
        }
        b += 1;
    }
    ok
}

/// Decides whether every branching terminator targets a valid index, as the
/// backend's branch emission relies on.
pub fn ends_valid(blocks: &Vec<Block>) -> (r: bool)
    ensures
        r == ends_in_range(blocks@, blocks@.len() as int),
{
    let mut b: usize = 0;
    let mut ok = true;
    while b < blocks.len()
        invariant
            0 <= b <= blocks@.len(),
            ok == (forall|i: int|
                0 <= i < b ==> (#[trigger] blocks@[i].end matches End::If(_, t, f) ==> t
                    < blocks@.len() && f < blocks@.len())),
        decreases blocks@.len() - b,
    {
        match &blocks[b].end {
            End::End => (),
            End::If(_, t, f) => {
                if !(*t < blocks.len() && *f < blocks.len()) {
                    ok = false;
                }
            }
        }
        b += 1;
    }
    ok
}

/// Splitting one action off the back of a walk.
pub(crate) proof fn lemma_actions_prefix(prefix: Seq<Action>, a: Action, defined: Seq<usize>)
    ensures
        actions_resolved(prefix.push(a), defined) == (actions_resolved(prefix, defined)
            && action_resolved(a, defined_after_actions(prefix, defined))),
        defined_after_actions(prefix.push(a), defined) == defined_after(
            a,
            defined_after_actions(prefix, defined),
        ),
    decreases prefix.len(),
{
    if prefix.len() == 0 {
        assert(prefix.push(a)[0] == a);
        assert(prefix.push(a).drop_first() =~= Seq::<Action>::empty());
        assert(actions_resolved(prefix.push(a), defined) == (action_resolved(a, defined)
            && actions_resolved(Seq::<Action>::empty(), defined_after(a, defined))));
        assert(defined_after_actions(prefix.push(a), defined) == defined_after_actions(
            Seq::<Action>::empty(),
            defined_after(a, defined),
        ));
    } else {
        assert(prefix.push(a)[0] == prefix[0]);
        assert(prefix.push(a).drop_first() =~= prefix.drop_first().push(a));
        lemma_actions_prefix(prefix.drop_first(), a, defined_after(prefix[0], defined));
        assert(actions_resolved(prefix.push(a), defined) == (action_resolved(prefix[0], defined)
            && actions_resolved(prefix.drop_first().push(a), defined_after(prefix[0], defined))));
        assert(actions_resolved(prefix, defined) == (action_resolved(prefix[0], defined)
            && actions_resolved(prefix.drop_first(), defined_after(prefix[0], defined))));
        assert(defined_after_actions(prefix.push(a), defined) == defined_after_actions(
            prefix.drop_first().push(a),
            defined_after(prefix[0], defined),
        ));
        assert(defined_after_actions(prefix, defined) == defined_after_actions(
            prefix.drop_first(),
            defined_after(prefix[0], defined),
        ));
    }
}

} // verus!
