//! Redirecting every reference to a replaced function to its replacement.

use vstd::prelude::*;
use walrus::ir::InstrSeqId;
use walrus::{ElementId, FunctionId, GlobalId, Module, ValType};

use crate::wasm::module::{
    block_len, delete_function, element_ids, element_members, element_type, function_entry,
    function_ids, function_is_local, global_ids, global_ref_func, instr_shape, set_call_target,
    set_element_members, set_global_ref_func, with_blocks,
};
use crate::wasm::{
    children, closed, contents, ends, function_wf, functions_wf, lists, op_children, wf, without,
    ElementView, FunctionBody, FunctionView, GlobalInit, GlobalView, ModuleView, Op, Shape,
    WALK_BUDGET,
};

verus! {

/// Which function replaces which: pairs of a replaced function and its
/// replacement, no function replaced twice.
pub struct FuncMap {
    entries: Vec<(FunctionId, FunctionId)>,
}

/// The replacement that `entries` gives for `f`, if it gives one.
pub open spec fn lookup(entries: Seq<(FunctionId, FunctionId)>, f: FunctionId) -> Option<FunctionId>
    decreases entries.len(),
{
    if entries.len() == 0 {
        None
    } else if entries.last().0 == f {
        Some(entries.last().1)
    } else {
        lookup(entries.drop_last(), f)
    }
}

/// The function that a reference to `f` is redirected to: the replacement
/// of `f`, or `f` itself where it is not replaced.
pub open spec fn relink(entries: Seq<(FunctionId, FunctionId)>, f: FunctionId) -> FunctionId {
    match lookup(entries, f) {
        Some(n) => n,
        None => f,
    }
}

/// Whether `entries` replaces `f`.
pub open spec fn replaces(entries: Seq<(FunctionId, FunctionId)>, f: FunctionId) -> bool {
    lookup(entries, f) is Some
}

/// Whether no function is replaced twice.
pub open spec fn distinct_keys(entries: Seq<(FunctionId, FunctionId)>) -> bool {
    forall|i: int, j: int| 0 <= i < j < entries.len() ==> entries[i].0 != entries[j].0
}

/// Whether no replacement is itself replaced.
pub open spec fn fresh_values(entries: Seq<(FunctionId, FunctionId)>) -> bool {
    forall|i: int| 0 <= i < entries.len() ==> !replaces(entries, (#[trigger] entries[i]).1)
}

/// An instruction with its call redirected.
pub open spec fn relink_op(op: Op, entries: Seq<(FunctionId, FunctionId)>) -> Op {
    match op {
        Op::Call(f) => Op::Call(relink(entries, f)),
        _ => op,
    }
}

/// A block with its calls redirected.
pub open spec fn relink_code(code: Seq<Op>, entries: Seq<(FunctionId, FunctionId)>) -> Seq<Op> {
    Seq::new(code.len(), |i: int| relink_op(code[i], entries))
}

/// The blocks of a function after the walk: the block on top of the stack
/// gets its calls redirected, and the blocks that it opens go on the stack,
/// until the stack is empty.
pub open spec fn walk(
    blocks: Map<InstrSeqId, Seq<Op>>,
    stack: Seq<InstrSeqId>,
    budget: nat,
    entries: Seq<(FunctionId, FunctionId)>,
) -> Map<InstrSeqId, Seq<Op>>
    decreases budget,
{
    if budget == 0 || stack.len() == 0 {
        blocks
    } else {
        let seq = stack.last();
        walk(
            blocks.insert(seq, relink_code(blocks[seq], entries)),
            stack.drop_last() + children(blocks[seq]),
            (budget - 1) as nat,
            entries,
        )
    }
}

/// A function after relinking: a local one has the blocks that the walk
/// from its entry leaves.
pub open spec fn relink_function(
    v: FunctionView,
    entries: Seq<(FunctionId, FunctionId)>,
) -> FunctionView {
    match v.body {
        FunctionBody::Import(_) => v,
        FunctionBody::Local { args, entry, blocks } => with_blocks(
            v,
            walk(blocks, seq![entry], WALK_BUDGET as nat, entries),
        ),
    }
}

/// A member of an element segment after relinking.
pub open spec fn relink_member(
    m: Option<FunctionId>,
    entries: Seq<(FunctionId, FunctionId)>,
) -> Option<
    FunctionId,
> {
    match m {
        Some(f) => Some(relink(entries, f)),
        None => None,
    }
}

/// An element segment after relinking: one of function references has its
/// members redirected.
pub open spec fn relink_element(
    e: ElementView,
    entries: Seq<(FunctionId, FunctionId)>,
) -> ElementView {
    if e.ty == ValType::Funcref {
        ElementView {
            members: Seq::new(e.members.len(), |i: int| relink_member(e.members[i], entries)),
            ..e
        }
    } else {
        e
    }
}

/// A global after relinking: one that starts as a function reference has
/// that reference redirected.
pub open spec fn relink_global(
    g: GlobalView,
    entries: Seq<(FunctionId, FunctionId)>,
) -> GlobalView {
    match g.init {
        GlobalInit::RefFunc(f) => GlobalView { init: GlobalInit::RefFunc(relink(entries, f)), ..g },
        _ => g,
    }
}

/// `order` without the functions that `entries` replaces.
pub open spec fn without_keys(
    order: Seq<FunctionId>,
    entries: Seq<(FunctionId, FunctionId)>,
) -> Seq<
    FunctionId,
>
    decreases entries.len(),
{
    if entries.len() == 0 {
        order
    } else {
        without(without_keys(order, entries.drop_last()), entries.last().0)
    }
}

impl View for FuncMap {
    type V = Seq<(FunctionId, FunctionId)>;

    closed spec fn view(&self) -> Seq<(FunctionId, FunctionId)> {
        self.entries@
    }
}

impl FuncMap {
    /// Whether no function is replaced twice. Every map that [`FuncMap::new`]
    /// and [`FuncMap::insert`] make is such a map.
    pub open spec fn wf(&self) -> bool {
        distinct_keys(self@)
    }

    /// A map that replaces nothing.
    pub fn new() -> (map: FuncMap)
        ensures
            map@ == Seq::<(FunctionId, FunctionId)>::empty(),
            map.wf(),
    {
        FuncMap { entries: Vec::new() }
    }

    /// How many functions are replaced.
    pub fn len(&self) -> (n: usize)
        ensures
            n == self@.len(),
    {
        self.entries.len()
    }

    /// The pair at `index`.
    pub fn entry(&self, index: usize) -> (pair: (FunctionId, FunctionId))
        requires
            index < self@.len(),
        ensures
            pair == self@[index as int],
    {
        self.entries[index]
    }

    /// The replacement of `f`, if it is replaced.
    pub fn get(&self, f: FunctionId) -> (r: Option<FunctionId>)
        ensures
            r == lookup(self@, f),
    {
        let mut i = self.entries.len();
        assert(self.entries@.subrange(0, i as int) =~= self.entries@);
        while i > 0
            invariant
                i <= self.entries@.len(),
                lookup(self.entries@, f) == lookup(self.entries@.subrange(0, i as int), f),
            decreases i,
        {
            i -= 1;
            let (from, to) = self.entries[i];
            let ghost upto = self.entries@.subrange(0, i + 1);
            assert(upto.last() == self.entries@[i as int]);
            assert(upto.drop_last() =~= self.entries@.subrange(0, i as int));
            if from == f {
                return Some(to);
            }
        }
        None
    }

    /// Makes `to` the replacement of `from`. Where `from` was replaced
    /// already, it keeps the replacement that it had.
    pub fn insert(&mut self, from: FunctionId, to: FunctionId)
        requires
            old(self).wf(),
        ensures
            final(self).wf(),
            replaces(old(self)@, from) ==> final(self)@ == old(self)@,
            !replaces(old(self)@, from) ==> final(self)@ == old(self)@.push((from, to)),
    {
        if self.get(from).is_none() {
            proof {
                lemma_lookup_none(self.entries@, from);
            }
            self.entries.push((from, to));
        }
    }
}

/// A function that is not replaced is the key of no pair.
pub proof fn lemma_lookup_none(entries: Seq<(FunctionId, FunctionId)>, f: FunctionId)
    requires
        lookup(entries, f) is None,
    ensures
        forall|i: int| 0 <= i < entries.len() ==> (#[trigger] entries[i]).0 != f,
    decreases entries.len(),
{
    if entries.len() > 0 {
        lemma_lookup_none(entries.drop_last(), f);
        assert forall|i: int| 0 <= i < entries.len() implies (#[trigger] entries[i]).0 != f by {
            if i < entries.len() - 1 {
                assert(entries.drop_last()[i] == entries[i]);
            }
        }
    }
}

/// The key of every pair is replaced.
pub proof fn lemma_lookup_key(entries: Seq<(FunctionId, FunctionId)>, i: int)
    requires
        0 <= i < entries.len(),
    ensures
        replaces(entries, entries[i].0),
    decreases entries.len(),
{
    if entries.last().0 != entries[i].0 {
        assert(entries.drop_last()[i] == entries[i]);
        lemma_lookup_key(entries.drop_last(), i);
    }
}

/// What a function is redirected to is the second half of some pair, or the
/// function itself.
pub proof fn lemma_lookup_value(entries: Seq<(FunctionId, FunctionId)>, f: FunctionId)
    requires
        lookup(entries, f) is Some,
    ensures
        exists|i: int| 0 <= i < entries.len() && (#[trigger] entries[i]).1 == lookup(entries, f)->0,
    decreases entries.len(),
{
    if entries.last().0 == f {
        assert(entries[entries.len() - 1].1 == lookup(entries, f)->0);
    } else {
        lemma_lookup_value(entries.drop_last(), f);
        let i = choose|i: int|
            0 <= i < entries.drop_last().len() && (#[trigger] entries.drop_last()[i]).1 == lookup(
                entries.drop_last(),
                f,
            )->0;
        assert(entries[i] == entries.drop_last()[i]);
    }
}

/// Where no replacement is itself replaced, no redirected reference names a
/// replaced function.
pub proof fn lemma_relink_complete(entries: Seq<(FunctionId, FunctionId)>, f: FunctionId)
    requires
        fresh_values(entries),
    ensures
        !replaces(entries, relink(entries, f)),
{
    if lookup(entries, f) is Some {
        lemma_lookup_value(entries, f);
    }
}

/// The blocks that the walk redirects.
pub open spec fn visited(
    blocks: Map<InstrSeqId, Seq<Op>>,
    stack: Seq<InstrSeqId>,
    budget: nat,
    entries: Seq<(FunctionId, FunctionId)>,
) -> Set<InstrSeqId>
    decreases budget,
{
    if budget == 0 || stack.len() == 0 {
        Set::empty()
    } else {
        let seq = stack.last();
        visited(
            blocks.insert(seq, relink_code(blocks[seq], entries)),
            stack.drop_last() + children(blocks[seq]),
            (budget - 1) as nat,
            entries,
        ).insert(seq)
    }
}

/// Whether the walk comes to its end before its budget does.
pub open spec fn completes(
    blocks: Map<InstrSeqId, Seq<Op>>,
    stack: Seq<InstrSeqId>,
    budget: nat,
    entries: Seq<(FunctionId, FunctionId)>,
) -> bool
    decreases budget,
{
    if stack.len() == 0 {
        true
    } else if budget == 0 {
        false
    } else {
        let seq = stack.last();
        completes(
            blocks.insert(seq, relink_code(blocks[seq], entries)),
            stack.drop_last() + children(blocks[seq]),
            (budget - 1) as nat,
            entries,
        )
    }
}

/// Whether no call of `code` goes to a function that `entries` replaces.
pub open spec fn avoids(code: Seq<Op>, entries: Seq<(FunctionId, FunctionId)>) -> bool {
    forall|i: int|
        0 <= i < code.len() ==> match #[trigger] code[i] {
            Op::Call(f) => !replaces(entries, f),
            _ => true,
        }
}

/// Whether two blocks open the same blocks, instruction by instruction.
pub open spec fn same_children(a: Seq<Op>, b: Seq<Op>) -> bool {
    a.len() == b.len() && forall|i: int|
        0 <= i < a.len() ==> op_children(#[trigger] a[i]) == op_children(b[i])
}

/// Blocks that open the same blocks instruction by instruction have the
/// same children.
proof fn lemma_children_same(a: Seq<Op>, b: Seq<Op>)
    requires
        same_children(a, b),
    ensures
        children(a) == children(b),
    decreases a.len(),
{
    if a.len() > 0 {
        assert(same_children(a.drop_last(), b.drop_last())) by {
            assert forall|i: int| 0 <= i < a.drop_last().len() implies op_children(
                #[trigger] a.drop_last()[i],
            ) == op_children(b.drop_last()[i]) by {
                assert(a.drop_last()[i] == a[i]);
                assert(b.drop_last()[i] == b[i]);
            }
        }
        lemma_children_same(a.drop_last(), b.drop_last());
        assert(op_children(a[a.len() - 1]) == op_children(b[a.len() - 1]));
    }
}

/// Every block that an instruction opens is among the children of its block.
proof fn lemma_child_listed(code: Seq<Op>, i: int, k: int)
    requires
        0 <= i < code.len(),
        0 <= k < op_children(code[i]).len(),
    ensures
        children(code).contains(op_children(code[i])[k]),
    decreases code.len(),
{
    let before = children(code.drop_last());
    let here = op_children(code.last());
    if i == code.len() - 1 {
        assert((before + here)[before.len() + k] == here[k]);
    } else {
        assert(code.drop_last()[i] == code[i]);
        lemma_child_listed(code.drop_last(), i, k);
        let at = choose|at: int| 0 <= at < before.len() && before[at] == op_children(code[i])[k];
        assert((before + here)[at] == before[at]);
    }
}

/// What the walk leaves: the blocks that it does not redirect are as they
/// were, and every block opens the blocks that it opened.
proof fn lemma_walk_frame(
    blocks: Map<InstrSeqId, Seq<Op>>,
    stack: Seq<InstrSeqId>,
    budget: nat,
    entries: Seq<(FunctionId, FunctionId)>,
)
    requires
        forall|k: int| 0 <= k < stack.len() ==> blocks.dom().contains(#[trigger] stack[k]),
        closed(blocks),
    ensures
        walk(blocks, stack, budget, entries).dom() == blocks.dom(),
        forall|s: InstrSeqId|
            #[trigger] blocks.dom().contains(s) ==> same_children(
                walk(blocks, stack, budget, entries)[s],
                blocks[s],
            ),
        forall|s: InstrSeqId|
            #[trigger] blocks.dom().contains(s) && !visited(blocks, stack, budget, entries).contains(
                s,
            ) ==> walk(blocks, stack, budget, entries)[s] == blocks[s],
    decreases budget,
{
    if budget > 0 && stack.len() > 0 {
        let seq = stack.last();
        let next = blocks.insert(seq, relink_code(blocks[seq], entries));
        let rest = stack.drop_last() + children(blocks[seq]);
        lemma_relink_closed(blocks, seq, entries);
        lemma_children_closed(blocks, seq, blocks[seq].len() as int);
        assert(blocks[seq].subrange(0, blocks[seq].len() as int) =~= blocks[seq]);
        assert forall|k: int| 0 <= k < rest.len() implies next.dom().contains(#[trigger] rest[k]) by {
            if k < stack.len() - 1 {
                assert(rest[k] == stack[k]);
            } else {
                assert(rest[k] == children(blocks[seq])[k - (stack.len() - 1)]);
            }
        }
        lemma_walk_frame(next, rest, (budget - 1) as nat, entries);
        let done = walk(blocks, stack, budget, entries);
        assert forall|s: InstrSeqId| #[trigger] blocks.dom().contains(s) implies same_children(
            walk(blocks, stack, budget, entries)[s],
            blocks[s],
        ) by {
            assert(next.dom().contains(s));
            assert(same_children(walk(next, rest, (budget - 1) as nat, entries)[s], next[s]));
            assert(same_children(next[s], blocks[s]));
        }
        assert forall|s: InstrSeqId|
            #[trigger] blocks.dom().contains(s) && !visited(blocks, stack, budget, entries).contains(
                s,
            ) implies walk(blocks, stack, budget, entries)[s] == blocks[s] by {
            assert(next.dom().contains(s));
            assert(!visited(next, rest, (budget - 1) as nat, entries).contains(s));
            assert(s != seq);
        }
    }
}

/// The walk that comes to its end leaves no call to a replaced function in
/// any block that it has to reach: it redirects every block on its stack
/// and every block that a redirected block opens, and no call in a
/// redirected block goes to a function that is replaced.
pub proof fn lemma_walk_complete(
    blocks: Map<InstrSeqId, Seq<Op>>,
    stack: Seq<InstrSeqId>,
    budget: nat,
    entries: Seq<(FunctionId, FunctionId)>,
)
    requires
        forall|k: int| 0 <= k < stack.len() ==> blocks.dom().contains(#[trigger] stack[k]),
        closed(blocks),
        fresh_values(entries),
        completes(blocks, stack, budget, entries),
    ensures
        forall|k: int|
            0 <= k < stack.len() ==> visited(blocks, stack, budget, entries).contains(
                #[trigger] stack[k],
            ),
        forall|s: InstrSeqId, i: int, k: int|
            visited(blocks, stack, budget, entries).contains(s) && 0 <= i < blocks[s].len() && 0
                <= k < op_children(blocks[s][i]).len() ==> visited(
                blocks,
                stack,
                budget,
                entries,
            ).contains(#[trigger] op_children(blocks[s][i])[k]),
        forall|s: InstrSeqId|
            #[trigger] visited(blocks, stack, budget, entries).contains(s) ==> blocks.dom().contains(
                s,
            ) && avoids(walk(blocks, stack, budget, entries)[s], entries),
    decreases budget,
{
    if stack.len() > 0 {
        let seq = stack.last();
        let next = blocks.insert(seq, relink_code(blocks[seq], entries));
        let rest = stack.drop_last() + children(blocks[seq]);
        let seen = visited(blocks, stack, budget, entries);
        let later = visited(next, rest, (budget - 1) as nat, entries);
        let done = walk(blocks, stack, budget, entries);
        lemma_relink_closed(blocks, seq, entries);
        lemma_children_closed(blocks, seq, blocks[seq].len() as int);
        assert(blocks[seq].subrange(0, blocks[seq].len() as int) =~= blocks[seq]);
        assert forall|k: int| 0 <= k < rest.len() implies next.dom().contains(#[trigger] rest[k]) by {
            if k < stack.len() - 1 {
                assert(rest[k] == stack[k]);
            } else {
                assert(rest[k] == children(blocks[seq])[k - (stack.len() - 1)]);
            }
        }
        lemma_walk_complete(next, rest, (budget - 1) as nat, entries);
        lemma_walk_frame(next, rest, (budget - 1) as nat, entries);
        assert forall|k: int| 0 <= k < stack.len() implies seen.contains(#[trigger] stack[k]) by {
            if k < stack.len() - 1 {
                assert(rest[k] == stack[k]);
            }
        }
        assert forall|s: InstrSeqId, i: int, k: int|
            seen.contains(s) && 0 <= i < blocks[s].len() && 0 <= k < op_children(
                blocks[s][i],
            ).len() implies seen.contains(#[trigger] op_children(blocks[s][i])[k]) by {
            let child = op_children(blocks[s][i])[k];
            if later.contains(s) {
                assert(op_children(next[s][i]) == op_children(blocks[s][i]));
                assert(later.contains(op_children(next[s][i])[k]));
            } else {
                assert(s == seq);
                lemma_child_listed(blocks[seq], i, k);
                let at = choose|at: int|
                    0 <= at < children(blocks[seq]).len() && children(blocks[seq])[at] == child;
                assert(rest[stack.len() - 1 + at] == child);
            }
        }
        assert forall|s: InstrSeqId| #[trigger]
            visited(blocks, stack, budget, entries).contains(s) implies blocks.dom().contains(s)
            && avoids(walk(blocks, stack, budget, entries)[s], entries) by {
            assert(budget > 0);
            assert(done == walk(next, rest, (budget - 1) as nat, entries));
            assert(next.dom() == blocks.dom());
            if later.contains(s) {
                assert(visited(next, rest, (budget - 1) as nat, entries).contains(s));
                assert(avoids(walk(next, rest, (budget - 1) as nat, entries)[s], entries)
                    && next.dom().contains(s));
            } else {
                assert(s == seq);
                assert(next.dom().contains(s));
                assert(walk(next, rest, (budget - 1) as nat, entries)[s] == next[s]);
                assert(done[s] == next[s]);
                assert forall|i: int| 0 <= i < next[s].len() implies match #[trigger] next[s][i] {
                    Op::Call(f) => !replaces(entries, f),
                    _ => true,
                } by {
                    match blocks[s][i] {
                        Op::Call(f) => {
                            lemma_relink_complete(entries, f);
                        },
                        _ => {},
                    }
                }
            }
        }
    } else {
        assert(visited(blocks, stack, budget, entries) =~= Set::<InstrSeqId>::empty());
    }
}

/// A walk that ends over some blocks ends over blocks that open the same
/// blocks.
pub proof fn lemma_ends_same(
    a: Map<InstrSeqId, Seq<Op>>,
    b: Map<InstrSeqId, Seq<Op>>,
    stack: Seq<InstrSeqId>,
    budget: nat,
)
    requires
        forall|k: int| 0 <= k < stack.len() ==> a.dom().contains(#[trigger] stack[k]),
        closed(a),
        forall|s: InstrSeqId| #[trigger] a.dom().contains(s) ==> children(b[s]) == children(a[s]),
        ends(a, stack, budget),
    ensures
        ends(b, stack, budget),
    decreases budget,
{
    if stack.len() > 0 {
        let seq = stack.last();
        let rest = stack.drop_last() + children(a[seq]);
        assert(a.dom().contains(seq));
        lemma_children_closed(a, seq, a[seq].len() as int);
        assert(a[seq].subrange(0, a[seq].len() as int) =~= a[seq]);
        assert forall|k: int| 0 <= k < rest.len() implies a.dom().contains(#[trigger] rest[k]) by {
            if k < stack.len() - 1 {
                assert(rest[k] == stack[k]);
            } else {
                assert(rest[k] == children(a[seq])[k - (stack.len() - 1)]);
            }
        }
        lemma_ends_same(a, b, rest, (budget - 1) as nat);
    }
}

/// Where the plain walk over the blocks `a` ends, the walk that redirects
/// calls comes to its end over blocks that open the same blocks.
pub proof fn lemma_ends_completes(
    a: Map<InstrSeqId, Seq<Op>>,
    b: Map<InstrSeqId, Seq<Op>>,
    stack: Seq<InstrSeqId>,
    budget: nat,
    entries: Seq<(FunctionId, FunctionId)>,
)
    requires
        forall|k: int| 0 <= k < stack.len() ==> a.dom().contains(#[trigger] stack[k]),
        closed(a),
        forall|s: InstrSeqId| #[trigger] a.dom().contains(s) ==> children(b[s]) == children(a[s]),
        ends(a, stack, budget),
    ensures
        completes(b, stack, budget, entries),
    decreases budget,
{
    if stack.len() > 0 {
        let seq = stack.last();
        let rest = stack.drop_last() + children(a[seq]);
        let next = b.insert(seq, relink_code(b[seq], entries));
        assert(a.dom().contains(seq));
        lemma_children_closed(a, seq, a[seq].len() as int);
        assert(a[seq].subrange(0, a[seq].len() as int) =~= a[seq]);
        assert forall|k: int| 0 <= k < rest.len() implies a.dom().contains(#[trigger] rest[k]) by {
            if k < stack.len() - 1 {
                assert(rest[k] == stack[k]);
            } else {
                assert(rest[k] == children(a[seq])[k - (stack.len() - 1)]);
            }
        }
        assert(same_children(relink_code(b[seq], entries), b[seq]));
        lemma_children_same(relink_code(b[seq], entries), b[seq]);
        assert forall|s: InstrSeqId| #[trigger] a.dom().contains(s) implies children(next[s])
            == children(a[s]) by {
            if s != seq {
                assert(next[s] == b[s]);
            }
        }
        lemma_ends_completes(a, next, rest, (budget - 1) as nat, entries);
    }
}

/// The walk over a well-formed function comes to its end.
pub proof fn lemma_wf_completes(v: FunctionView, entries: Seq<(FunctionId, FunctionId)>)
    requires
        function_wf(v),
        v.body is Local,
    ensures
        completes(v.body->blocks, seq![v.body->entry], WALK_BUDGET as nat, entries),
{
    let blocks = v.body->blocks;
    let stack = seq![v.body->entry];
    assert forall|k: int| 0 <= k < stack.len() implies blocks.dom().contains(#[trigger] stack[k]) by {
        assert(stack[k] == v.body->entry);
    }
    lemma_ends_completes(blocks, blocks, stack, WALK_BUDGET as nat, entries);
}

/// A well-formed function is well formed after relinking.
pub proof fn lemma_relink_wf(v: FunctionView, entries: Seq<(FunctionId, FunctionId)>)
    requires
        function_wf(v),
    ensures
        function_wf(relink_function(v, entries)),
{
    match v.body {
        FunctionBody::Local { args, entry, blocks } => {
            let stack = seq![entry];
            let done = walk(blocks, stack, WALK_BUDGET as nat, entries);
            assert forall|k: int| 0 <= k < stack.len() implies blocks.dom().contains(
                #[trigger] stack[k],
            ) by {
                assert(stack[k] == entry);
            }
            lemma_walk_frame(blocks, stack, WALK_BUDGET as nat, entries);
            assert forall|s: InstrSeqId| #[trigger] blocks.dom().contains(s) implies children(
                done[s],
            ) == children(blocks[s]) by {
                lemma_children_same(done[s], blocks[s]);
            }
            lemma_ends_same(blocks, done, stack, WALK_BUDGET as nat);
            assert(closed(done)) by {
                assert forall|s: InstrSeqId, i: int, k: int|
                    done.dom().contains(s) && 0 <= i < done[s].len() && 0 <= k < op_children(
                        done[s][i],
                    ).len() implies done.dom().contains(#[trigger] op_children(done[s][i])[k]) by {
                    assert(blocks.dom().contains(s));
                    assert(same_children(done[s], blocks[s]));
                    assert(op_children(done[s][i]) == op_children(blocks[s][i]));
                    assert(blocks.dom().contains(op_children(blocks[s][i])[k]));
                }
            }
        },
        _ => {},
    }
}

/// Whether no instruction of `code` is a call.
pub open spec fn plain(code: Seq<Op>) -> bool {
    forall|i: int| 0 <= i < code.len() ==> !(#[trigger] code[i] is Call)
}

/// Whether `v` is a function that the module defines and that calls no
/// function.
pub open spec fn calls_nothing(v: FunctionView) -> bool {
    &&& v.body is Local
    &&& forall|s: InstrSeqId| #[trigger] v.body->blocks.dom().contains(s) ==> plain(v.body->blocks[s])
}

/// The walk over blocks without calls leaves them as they are.
pub proof fn lemma_walk_plain(
    blocks: Map<InstrSeqId, Seq<Op>>,
    stack: Seq<InstrSeqId>,
    budget: nat,
    entries: Seq<(FunctionId, FunctionId)>,
)
    requires
        forall|k: int| 0 <= k < stack.len() ==> blocks.dom().contains(#[trigger] stack[k]),
        closed(blocks),
        forall|s: InstrSeqId| #[trigger] blocks.dom().contains(s) ==> plain(blocks[s]),
    ensures
        walk(blocks, stack, budget, entries) == blocks,
    decreases budget,
{
    if budget > 0 && stack.len() > 0 {
        let seq = stack.last();
        let next = blocks.insert(seq, relink_code(blocks[seq], entries));
        let rest = stack.drop_last() + children(blocks[seq]);
        assert(plain(blocks[seq]));
        assert(relink_code(blocks[seq], entries) =~= blocks[seq]);
        assert(next =~= blocks);
        lemma_children_closed(blocks, seq, blocks[seq].len() as int);
        assert(blocks[seq].subrange(0, blocks[seq].len() as int) =~= blocks[seq]);
        assert forall|k: int| 0 <= k < rest.len() implies next.dom().contains(#[trigger] rest[k]) by {
            if k < stack.len() - 1 {
                assert(rest[k] == stack[k]);
            } else {
                assert(rest[k] == children(blocks[seq])[k - (stack.len() - 1)]);
            }
        }
        lemma_walk_plain(next, rest, (budget - 1) as nat, entries);
    }
}

/// Relinking leaves a well-formed function that calls nothing as it is.
pub proof fn lemma_relink_plain(v: FunctionView, entries: Seq<(FunctionId, FunctionId)>)
    requires
        function_wf(v),
        calls_nothing(v),
    ensures
        relink_function(v, entries) == v,
{
    let blocks = v.body->blocks;
    let stack = seq![v.body->entry];
    assert forall|k: int| 0 <= k < stack.len() implies blocks.dom().contains(#[trigger] stack[k]) by {
        assert(stack[k] == v.body->entry);
    }
    lemma_walk_plain(blocks, stack, WALK_BUDGET as nat, entries);
}

/// Where `new` is `old` relinked, every well-formed function of `old` that
/// the module defines and that calls nothing is a function of `new`, as it
/// was, unless it is one of those replaced.
pub proof fn lemma_relinked_plain(
    old: ModuleView,
    new: ModuleView,
    entries: Seq<(FunctionId, FunctionId)>,
    f: FunctionId,
)
    requires
        relinked(old, new, entries),
        old.funcs.dom().contains(f),
        function_wf(old.funcs[f]),
        calls_nothing(old.funcs[f]),
        !replaces(entries, f),
    ensures
        new.funcs.dom().contains(f),
        new.funcs[f] == old.funcs[f],
{
    lemma_relink_plain(old.funcs[f], entries);
}

/// Whether every function of `old` that the module defines and that calls
/// nothing is a function of `new`, as it was.
pub open spec fn plain_kept(old: ModuleView, new: ModuleView) -> bool {
    forall|f: FunctionId|
        old.funcs.dom().contains(f) && calls_nothing(#[trigger] old.funcs[f])
            ==> new.funcs.dom().contains(f) && new.funcs[f] == old.funcs[f]
}

/// Where a module grows and is then relinked with imported functions
/// replaced, every function that it defined and that calls nothing is left
/// as it was.
pub proof fn lemma_plain_kept(
    start: ModuleView,
    mid: ModuleView,
    end: ModuleView,
    entries: Seq<(FunctionId, FunctionId)>,
)
    requires
        start.funcs.submap_of(mid.funcs),
        functions_wf(mid),
        relinked(mid, end, entries),
        forall|k: int| 0 <= k < entries.len() ==> mid.funcs[(#[trigger] entries[k]).0].body is Import,
    ensures
        plain_kept(start, end),
{
    assert forall|f: FunctionId|
        start.funcs.dom().contains(f) && calls_nothing(
            #[trigger] start.funcs[f],
        ) implies end.funcs.dom().contains(f) && end.funcs[f] == start.funcs[f] by {
        assert(mid.funcs.dom().contains(f));
        assert(mid.funcs[f] == start.funcs[f]);
        assert(function_wf(mid.funcs[f]));
        if replaces(entries, f) {
            lemma_lookup_key_index(entries, f);
        }
        lemma_relinked_plain(mid, end, entries, f);
    }
}

/// A block whose first `upto` instructions have their calls redirected.
pub open spec fn relink_prefix(
    code: Seq<Op>,
    entries: Seq<(FunctionId, FunctionId)>,
    upto: int,
) -> Seq<Op> {
    Seq::new(code.len(), |k: int| if k < upto { relink_op(code[k], entries) } else { code[k] })
}

/// The children of a block up to an instruction and those of the instruction.
proof fn lemma_children_step(code: Seq<Op>, i: int)
    requires
        0 <= i < code.len(),
    ensures
        children(code.subrange(0, i + 1)) == children(code.subrange(0, i)) + op_children(code[i]),
{
    assert(code.subrange(0, i + 1).drop_last() =~= code.subrange(0, i));
}

/// In blocks that are closed, the children of a block are among the blocks.
proof fn lemma_children_closed(blocks: Map<InstrSeqId, Seq<Op>>, seq: InstrSeqId, upto: int)
    requires
        closed(blocks),
        blocks.dom().contains(seq),
        0 <= upto <= blocks[seq].len(),
    ensures
        forall|k: int|
            0 <= k < children(blocks[seq].subrange(0, upto)).len() ==> blocks.dom().contains(
                #[trigger] children(blocks[seq].subrange(0, upto))[k],
            ),
    decreases upto,
{
    if upto > 0 {
        lemma_children_closed(blocks, seq, upto - 1);
        lemma_children_step(blocks[seq], upto - 1);
        let before = children(blocks[seq].subrange(0, upto - 1));
        let here = op_children(blocks[seq][upto - 1]);
        assert forall|k: int| 0 <= k < (before + here).len() implies blocks.dom().contains(
            #[trigger] (before + here)[k],
        ) by {
            if k >= before.len() {
                assert((before + here)[k] == op_children(blocks[seq][upto - 1])[k - before.len()]);
            }
        }
    }
}

/// Redirecting the calls of a block leaves closed blocks closed.
proof fn lemma_relink_closed(
    blocks: Map<InstrSeqId, Seq<Op>>,
    seq: InstrSeqId,
    entries: Seq<(FunctionId, FunctionId)>,
)
    requires
        closed(blocks),
        blocks.dom().contains(seq),
    ensures
        closed(blocks.insert(seq, relink_code(blocks[seq], entries))),
        blocks.insert(seq, relink_code(blocks[seq], entries)).dom() == blocks.dom(),
{
    let after = blocks.insert(seq, relink_code(blocks[seq], entries));
    assert(after.dom() =~= blocks.dom());
    assert forall|s: InstrSeqId, i: int, k: int|
        after.dom().contains(s) && 0 <= i < after[s].len() && 0 <= k < op_children(
            after[s][i],
        ).len() implies after.dom().contains(#[trigger] op_children(after[s][i])[k]) by {
        assert(op_children(after[s][i]) == op_children(blocks[s][i]));
        assert(blocks.dom().contains(op_children(blocks[s][i])[k]));
    }
}

/// Redirects the calls of one block, and puts the blocks that it opens on
/// `stack`.
fn relink_block(
    module: &mut Module,
    f: FunctionId,
    seq: InstrSeqId,
    map: &FuncMap,
    stack: &mut Vec<InstrSeqId>,
)
    requires
        contents(*old(module)).funcs.dom().contains(f),
        contents(*old(module)).funcs[f].body is Local,
        contents(*old(module)).funcs[f].body->blocks.dom().contains(seq),
    ensures
        contents(*final(module)) == (ModuleView {
            funcs: contents(*old(module)).funcs.insert(
                f,
                with_blocks(
                    contents(*old(module)).funcs[f],
                    contents(*old(module)).funcs[f].body->blocks.insert(
                        seq,
                        relink_code(contents(*old(module)).funcs[f].body->blocks[seq], map@),
                    ),
                ),
            ),
            ..contents(*old(module))
        }),
        final(stack)@ == old(stack)@ + children(
            contents(*old(module)).funcs[f].body->blocks[seq],
        ),
{
    let n = block_len(module, f, seq);
    let ghost start = contents(*module);
    let ghost fv = start.funcs[f];
    let ghost blocks = fv.body->blocks;
    let ghost code = blocks[seq];
    let ghost stack0 = stack@;
    let mut i: usize = 0;
    proof {
        assert(relink_prefix(code, map@, 0) =~= code);
        assert(blocks.insert(seq, code) =~= blocks);
        assert(with_blocks(fv, blocks) == fv);
        assert(start.funcs.insert(f, fv) =~= start.funcs);
        assert(code.subrange(0, 0) =~= Seq::<Op>::empty());
        assert(stack0 + children(code.subrange(0, 0)) =~= stack0);
    }
    while i < n
        invariant
            i <= n,
            n == code.len(),
            start.funcs.dom().contains(f),
            fv == start.funcs[f],
            fv.body is Local,
            blocks == fv.body->blocks,
            blocks.dom().contains(seq),
            code == blocks[seq],
            contents(*module) == (ModuleView {
                funcs: start.funcs.insert(
                    f,
                    with_blocks(fv, blocks.insert(seq, relink_prefix(code, map@, i as int))),
                ),
                ..start
            }),
            stack@ == stack0 + children(code.subrange(0, i as int)),
        decreases n - i,
    {
        let ghost before = contents(*module);
        let ghost partly = relink_prefix(code, map@, i as int);
        let ghost stack_before = stack@;
        proof {
            lemma_children_step(code, i as int);
            assert(before.funcs[f].body->blocks[seq] == partly);
            assert(partly[i as int] == code[i as int]);
        }
        match instr_shape(module, f, seq, i) {
            Shape::Call(t) => {
                match map.get(t) {
                    Some(to) => {
                        set_call_target(module, f, seq, i, to);
                        proof {
                            let next = relink_prefix(code, map@, i + 1);
                            assert(partly.update(i as int, Op::Call(to)) =~= next);
                            assert(blocks.insert(seq, partly).insert(seq, next) =~= blocks.insert(
                                seq,
                                next,
                            ));
                            assert(before.funcs.insert(
                                f,
                                with_blocks(fv, blocks.insert(seq, next)),
                            ) =~= start.funcs.insert(f, with_blocks(fv, blocks.insert(seq, next))));
                        }
                    },
                    None => {
                        assert(relink_prefix(code, map@, i + 1) =~= partly);
                    },
                }
                assert(stack_before + Seq::<InstrSeqId>::empty() =~= stack_before);
            },
            Shape::Block(c) => {
                stack.push(c);
                assert(relink_prefix(code, map@, i + 1) =~= partly);
                assert(stack@ =~= stack_before + seq![c]);
            },
            Shape::Loop(c) => {
                stack.push(c);
                assert(relink_prefix(code, map@, i + 1) =~= partly);
                assert(stack@ =~= stack_before + seq![c]);
            },
            Shape::IfElse(a, b) => {
                stack.push(b);
                stack.push(a);
                assert(relink_prefix(code, map@, i + 1) =~= partly);
                assert(stack@ =~= stack_before + seq![b, a]);
            },
            Shape::Other => {
                assert(relink_prefix(code, map@, i + 1) =~= partly);
                assert(stack_before + Seq::<InstrSeqId>::empty() =~= stack_before);
            },
        }
        i += 1;
        proof {
            assert(stack0 + (children(code.subrange(0, i - 1)) + op_children(code[i - 1]))
                =~= stack0 + children(code.subrange(0, i - 1)) + op_children(code[i - 1]));
        }
    }
    proof {
        assert(relink_prefix(code, map@, n as int) =~= relink_code(code, map@));
        assert(code.subrange(0, n as int) =~= code);
    }
}

/// Redirects the calls of a local function: walks its blocks from the entry
/// block on.
pub fn relink_body(module: &mut Module, f: FunctionId, map: &FuncMap)
    requires
        contents(*old(module)).funcs.dom().contains(f),
        contents(*old(module)).funcs[f].body is Local,
        function_wf(contents(*old(module)).funcs[f]),
    ensures
        contents(*final(module)) == (ModuleView {
            funcs: contents(*old(module)).funcs.insert(
                f,
                relink_function(contents(*old(module)).funcs[f], map@),
            ),
            ..contents(*old(module))
        }),
        function_wf(relink_function(contents(*old(module)).funcs[f], map@)),
{
    let ghost start = contents(*module);
    let ghost fv = start.funcs[f];
    let ghost blocks0 = fv.body->blocks;
    let entry = function_entry(module, f);
    let mut stack: Vec<InstrSeqId> = Vec::new();
    stack.push(entry);
    let mut budget: u64 = WALK_BUDGET;
    let ghost mut blocks = blocks0;
    proof {
        assert(stack@ =~= seq![entry]);
        assert(with_blocks(fv, blocks) == fv);
        assert(start.funcs.insert(f, fv) =~= start.funcs);
    }
    while budget > 0 && stack.len() > 0
        invariant
            start.funcs.dom().contains(f),
            fv == start.funcs[f],
            fv.body is Local,
            contents(*module) == (ModuleView {
                funcs: start.funcs.insert(f, with_blocks(fv, blocks)),
                ..start
            }),
            closed(blocks),
            blocks.dom() == blocks0.dom(),
            blocks0.dom().contains(fv.body->entry),
            forall|k: int| 0 <= k < stack@.len() ==> blocks.dom().contains(#[trigger] stack@[k]),
            walk(blocks0, seq![fv.body->entry], WALK_BUDGET as nat, map@) == walk(
                blocks,
                stack@,
                budget as nat,
                map@,
            ),
        decreases budget,
    {
        let ghost full = stack@;
        let ghost before = contents(*module);
        let seq = stack.pop().unwrap();
        assert(seq == full.last());
        assert(stack@ =~= full.drop_last());
        relink_block(module, f, seq, map, &mut stack);
        budget -= 1;
        proof {
            let next = blocks.insert(seq, relink_code(blocks[seq], map@));
            lemma_relink_closed(blocks, seq, map@);
            lemma_children_closed(blocks, seq, blocks[seq].len() as int);
            assert(blocks[seq].subrange(0, blocks[seq].len() as int) =~= blocks[seq]);
            assert(before.funcs[f] == with_blocks(fv, blocks));
            assert(with_blocks(with_blocks(fv, blocks), next) == with_blocks(fv, next));
            assert(before.funcs.insert(f, with_blocks(fv, next)) =~= start.funcs.insert(
                f,
                with_blocks(fv, next),
            ));
            assert forall|k: int| 0 <= k < stack@.len() implies next.dom().contains(
                #[trigger] stack@[k],
            ) by {
                if k < full.len() - 1 {
                    assert(stack@[k] == full[k]);
                } else {
                    assert(stack@[k] == children(blocks[seq])[k - (full.len() - 1)]);
                }
            }
            blocks = next;
        }
    }
    proof {
        assert(walk(blocks, stack@, budget as nat, map@) == blocks);
        lemma_relink_wf(fv, map@);
    }
}

/// Redirects the calls of every function that the module defines.
pub fn relink_calls(module: &mut Module, map: &FuncMap)
    requires
        functions_wf(contents(*old(module))),
    ensures
        contents(*final(module)) == (ModuleView {
            funcs: contents(*final(module)).funcs,
            ..contents(*old(module))
        }),
        contents(*final(module)).funcs.dom() == contents(*old(module)).funcs.dom(),
        forall|g: FunctionId|
            contents(*old(module)).funcs.dom().contains(g) ==> #[trigger] contents(
                *final(module),
            ).funcs[g] == relink_function(contents(*old(module)).funcs[g], map@),
        functions_wf(contents(*final(module))),
{
    let ids = function_ids(module);
    let ghost start = contents(*module);
    let n = ids.len();
    let mut i: usize = 0;
    while i < n
        invariant
            i <= n,
            n == ids@.len(),
            lists(ids@, start.funcs.dom()),
            functions_wf(start),
            contents(*module) == (ModuleView { funcs: contents(*module).funcs, ..start }),
            contents(*module).funcs.dom() == start.funcs.dom(),
            forall|g: FunctionId|
                start.funcs.dom().contains(g) ==> #[trigger] contents(*module).funcs[g] == (if ids@.subrange(
                    0,
                    i as int,
                ).contains(g) {
                    relink_function(start.funcs[g], map@)
                } else {
                    start.funcs[g]
                }),
            forall|g: FunctionId|
                start.funcs.dom().contains(g) ==> function_wf(
                    #[trigger] contents(*module).funcs[g],
                ),
        decreases n - i,
    {
        let f = ids[i];
        let ghost before = contents(*module);
        proof {
            assert(ids@.contains(f));
            assert(!ids@.subrange(0, i as int).contains(f)) by {
                if ids@.subrange(0, i as int).contains(f) {
                    let k = choose|k: int|
                        0 <= k < ids@.subrange(0, i as int).len() && ids@.subrange(0, i as int)[k]
                            == f;
                    assert(ids@[k] == ids@[i as int]);
                }
            }
        }
        if function_is_local(module, f) {
            relink_body(module, f, map);
            proof {
                assert(contents(*module).funcs.dom() =~= start.funcs.dom());
            }
        }
        proof {
            let done = ids@.subrange(0, i as int);
            let next = ids@.subrange(0, i + 1);
            assert(next =~= done.push(f));
            assert forall|g: FunctionId| start.funcs.dom().contains(g) implies #[trigger] contents(
                *module,
            ).funcs[g] == (if next.contains(g) {
                relink_function(start.funcs[g], map@)
            } else {
                start.funcs[g]
            }) by {
                if g == f {
                    assert(next[i as int] == f);
                } else {
                    if next.contains(g) {
                        let k = choose|k: int| 0 <= k < next.len() && next[k] == g;
                        assert(done[k] == g);
                    }
                    if done.contains(g) {
                        let k = choose|k: int| 0 <= k < done.len() && done[k] == g;
                        assert(next[k] == g);
                    }
                }
            }
        }
        i += 1;
    }
    proof {
        assert(ids@.subrange(0, n as int) =~= ids@);
    }
}

/// The first `i + 1` members of `order` are the first `i` and the one at `i`.
pub proof fn lemma_prefix_step<T>(order: Seq<T>, i: int, x: T)
    requires
        0 <= i < order.len(),
    ensures
        order.subrange(0, i + 1).contains(x) <==> (order.subrange(0, i).contains(x) || order[i]
            == x),
{
    let done = order.subrange(0, i);
    let next = order.subrange(0, i + 1);
    if next.contains(x) {
        let k = choose|k: int| 0 <= k < next.len() && next[k] == x;
        if k < i {
            assert(done[k] == x);
        }
    }
    if done.contains(x) {
        let k = choose|k: int| 0 <= k < done.len() && done[k] == x;
        assert(next[k] == x);
    }
    if order[i] == x {
        assert(next[i] == x);
    }
}

/// In a list without duplicates no member occurs before its place.
pub proof fn lemma_not_in_prefix<T>(order: Seq<T>, i: int)
    requires
        0 <= i < order.len(),
        order.no_duplicates(),
    ensures
        !order.subrange(0, i).contains(order[i]),
{
    let done = order.subrange(0, i);
    if done.contains(order[i]) {
        let k = choose|k: int| 0 <= k < done.len() && done[k] == order[i];
        assert(order[k] == order[i]);
    }
}

/// Redirects the members of every element segment of function references.
pub fn relink_elements(module: &mut Module, map: &FuncMap)
    ensures
        contents(*final(module)) == (ModuleView {
            elements: contents(*final(module)).elements,
            ..contents(*old(module))
        }),
        contents(*final(module)).elements.dom() == contents(*old(module)).elements.dom(),
        forall|e: ElementId|
            contents(*old(module)).elements.dom().contains(e) ==> #[trigger] contents(
                *final(module),
            ).elements[e] == relink_element(contents(*old(module)).elements[e], map@),
{
    let ids = element_ids(module);
    let ghost start = contents(*module);
    let n = ids.len();
    let mut i: usize = 0;
    while i < n
        invariant
            i <= n,
            n == ids@.len(),
            lists(ids@, start.elements.dom()),
            contents(*module) == (ModuleView { elements: contents(*module).elements, ..start }),
            contents(*module).elements.dom() == start.elements.dom(),
            forall|e: ElementId|
                start.elements.dom().contains(e) ==> #[trigger] contents(*module).elements[e] == (if ids@.subrange(
                    0,
                    i as int,
                ).contains(e) {
                    relink_element(start.elements[e], map@)
                } else {
                    start.elements[e]
                }),
        decreases n - i,
    {
        let e = ids[i];
        proof {
            assert(ids@.contains(e));
            lemma_not_in_prefix(ids@, i as int);
        }
        match element_type(module, e) {
            ValType::Funcref => {
                let members = element_members(module, e);
                let redirected = relink_members(&members, map);
                set_element_members(module, e, redirected);
                proof {
                    assert(contents(*module).elements.dom() =~= start.elements.dom());
                }
            },
            _ => {},
        }
        proof {
            assert forall|x: ElementId| start.elements.dom().contains(x) implies #[trigger] contents(
                *module,
            ).elements[x] == (if ids@.subrange(0, i + 1).contains(x) {
                relink_element(start.elements[x], map@)
            } else {
                start.elements[x]
            }) by {
                lemma_prefix_step(ids@, i as int, x);
            }
        }
        i += 1;
    }
    proof {
        assert(ids@.subrange(0, n as int) =~= ids@);
    }
}

/// The members of an element segment, each redirected.
pub fn relink_members(members: &Vec<Option<FunctionId>>, map: &FuncMap) -> (r: Vec<Option<FunctionId>>)
    ensures
        r@ == Seq::new(members@.len(), |i: int| relink_member(members@[i], map@)),
{
    let n = members.len();
    let mut r: Vec<Option<FunctionId>> = Vec::new();
    let mut i: usize = 0;
    while i < n
        invariant
            i <= n,
            n == members@.len(),
            r@ == Seq::new(i as nat, |k: int| relink_member(members@[k], map@)),
        decreases n - i,
    {
        let m = match members[i] {
            Some(f) => match map.get(f) {
                Some(to) => Some(to),
                None => Some(f),
            },
            None => None,
        };
        r.push(m);
        i += 1;
        assert(r@ =~= Seq::new(i as nat, |k: int| relink_member(members@[k], map@)));
    }
    r
}

/// Redirects the initialiser of every global that starts as a reference to
/// a function.
pub fn relink_globals(module: &mut Module, map: &FuncMap)
    ensures
        contents(*final(module)) == (ModuleView {
            globals: contents(*final(module)).globals,
            ..contents(*old(module))
        }),
        contents(*final(module)).globals.dom() == contents(*old(module)).globals.dom(),
        forall|g: GlobalId|
            contents(*old(module)).globals.dom().contains(g) ==> #[trigger] contents(
                *final(module),
            ).globals[g] == relink_global(contents(*old(module)).globals[g], map@),
{
    let ids = global_ids(module);
    let ghost start = contents(*module);
    let n = ids.len();
    let mut i: usize = 0;
    while i < n
        invariant
            i <= n,
            n == ids@.len(),
            lists(ids@, start.globals.dom()),
            contents(*module) == (ModuleView { globals: contents(*module).globals, ..start }),
            contents(*module).globals.dom() == start.globals.dom(),
            forall|g: GlobalId|
                start.globals.dom().contains(g) ==> #[trigger] contents(*module).globals[g] == (if ids@.subrange(
                    0,
                    i as int,
                ).contains(g) {
                    relink_global(start.globals[g], map@)
                } else {
                    start.globals[g]
                }),
        decreases n - i,
    {
        let g = ids[i];
        proof {
            assert(ids@.contains(g));
            lemma_not_in_prefix(ids@, i as int);
        }
        match global_ref_func(module, g) {
            Some(f) => match map.get(f) {
                Some(to) => {
                    set_global_ref_func(module, g, to);
                    proof {
                        assert(contents(*module).globals.dom() =~= start.globals.dom());
                    }
                },
                None => {},
            },
            None => {},
        }
        proof {
            assert forall|x: GlobalId| start.globals.dom().contains(x) implies #[trigger] contents(
                *module,
            ).globals[x] == (if ids@.subrange(0, i + 1).contains(x) {
                relink_global(start.globals[x], map@)
            } else {
                start.globals[x]
            }) by {
                lemma_prefix_step(ids@, i as int, x);
            }
        }
        i += 1;
    }
    proof {
        assert(ids@.subrange(0, n as int) =~= ids@);
    }
}

/// Whether every function that `entries` replaces is alive in `view`.
pub open spec fn keys_alive(view: ModuleView, entries: Seq<(FunctionId, FunctionId)>) -> bool {
    forall|i: int| 0 <= i < entries.len() ==> view.funcs.dom().contains((#[trigger] entries[i]).0)
}

/// Deletes every function that `map` replaces.
pub fn delete_keys(module: &mut Module, map: &FuncMap)
    requires
        map.wf(),
        keys_alive(contents(*old(module)), map@),
    ensures
        contents(*final(module)) == (ModuleView {
            funcs: contents(*final(module)).funcs,
            func_order: without_keys(contents(*old(module)).func_order, map@),
            ..contents(*old(module))
        }),
        forall|g: FunctionId|
            #[trigger] contents(*final(module)).funcs.dom().contains(g) <==> contents(
                *old(module),
            ).funcs.dom().contains(g) && !replaces(map@, g),
        forall|g: FunctionId|
            contents(*final(module)).funcs.dom().contains(g) ==> #[trigger] contents(
                *final(module),
            ).funcs[g] == contents(*old(module)).funcs[g],
{
    let ghost start = contents(*module);
    let n = map.len();
    let mut i: usize = 0;
    proof {
        assert(map@.subrange(0, 0) =~= Seq::<(FunctionId, FunctionId)>::empty());
    }
    while i < n
        invariant
            i <= n,
            n == map@.len(),
            map.wf(),
            keys_alive(start, map@),
            contents(*module) == (ModuleView {
                funcs: contents(*module).funcs,
                func_order: without_keys(start.func_order, map@.subrange(0, i as int)),
                ..start
            }),
            forall|g: FunctionId|
                #[trigger] contents(*module).funcs.dom().contains(g) <==> start.funcs.dom().contains(
                    g,
                ) && !replaces(map@.subrange(0, i as int), g),
            forall|g: FunctionId|
                contents(*module).funcs.dom().contains(g) ==> #[trigger] contents(*module).funcs[g]
                    == start.funcs[g],
        decreases n - i,
    {
        let (key, _) = map.entry(i);
        let ghost done = map@.subrange(0, i as int);
        let ghost next = map@.subrange(0, i + 1);
        proof {
            assert(next.drop_last() =~= done);
            assert(next.last() == map@[i as int]);
            assert(!replaces(done, key)) by {
                if replaces(done, key) {
                    lemma_lookup_key_index(done, key);
                    let k = choose|k: int| 0 <= k < done.len() && (#[trigger] done[k]).0 == key;
                    assert(map@[k].0 == map@[i as int].0);
                }
            }
        }
        delete_function(module, key);
        i += 1;
    }
    proof {
        assert(map@.subrange(0, n as int) =~= map@);
    }
}

/// A function that is replaced is the key of some pair.
pub proof fn lemma_lookup_key_index(entries: Seq<(FunctionId, FunctionId)>, f: FunctionId)
    requires
        replaces(entries, f),
    ensures
        exists|k: int| 0 <= k < entries.len() && (#[trigger] entries[k]).0 == f,
    decreases entries.len(),
{
    if entries.last().0 == f {
        assert(entries[entries.len() - 1].0 == f);
    } else {
        lemma_lookup_key_index(entries.drop_last(), f);
        let k = choose|k: int|
            0 <= k < entries.drop_last().len() && (#[trigger] entries.drop_last()[k]).0 == f;
        assert(entries[k] == entries.drop_last()[k]);
    }
}

/// Whether no export of `view` hands out a function that `entries` replaces.
pub open spec fn exports_free(view: ModuleView, entries: Seq<(FunctionId, FunctionId)>) -> bool {
    forall|e: walrus::ExportId|
        view.exports.dom().contains(e) ==> match (#[trigger] view.exports[e]).item {
            walrus::ExportItem::Function(f) => !replaces(entries, f),
            _ => true,
        }
}

/// Whether no export and no import of `view` refers to a function that
/// `entries` replaces.
pub open spec fn detached(view: ModuleView, entries: Seq<(FunctionId, FunctionId)>) -> bool {
    &&& forall|e: walrus::ExportId|
        view.exports.dom().contains(e) ==> match (#[trigger] view.exports[e]).item {
            walrus::ExportItem::Function(f) => !replaces(entries, f),
            _ => true,
        }
    &&& forall|i: walrus::ImportId|
        view.imports.dom().contains(i) ==> match (#[trigger] view.imports[i]).kind {
            walrus::ImportKind::Function(f) => !replaces(entries, f),
            _ => true,
        }
}

/// Whether `new` is `old` relinked: the functions that `entries` replaces
/// are gone; in what is left, the direct calls in every block that the walk
/// over a function's body reaches, the members of every element segment of
/// function references and the initialiser of every global that starts as a
/// function reference are redirected; nothing else differs.
pub open spec fn relinked(
    old: ModuleView,
    new: ModuleView,
    entries: Seq<(FunctionId, FunctionId)>,
) -> bool {
    &&& new == (ModuleView {
        funcs: new.funcs,
        func_order: without_keys(old.func_order, entries),
        elements: new.elements,
        globals: new.globals,
        ..old
    })
    &&& forall|g: FunctionId|
        #[trigger] new.funcs.dom().contains(g) <==> old.funcs.dom().contains(g) && !replaces(
            entries,
            g,
        )
    &&& forall|g: FunctionId|
        new.funcs.dom().contains(g) ==> #[trigger] new.funcs[g] == relink_function(
            old.funcs[g],
            entries,
        )
    &&& new.elements.dom() == old.elements.dom()
    &&& forall|e: ElementId|
        old.elements.dom().contains(e) ==> #[trigger] new.elements[e] == relink_element(
            old.elements[e],
            entries,
        )
    &&& new.globals.dom() == old.globals.dom()
    &&& forall|g: GlobalId|
        old.globals.dom().contains(g) ==> #[trigger] new.globals[g] == relink_global(
            old.globals[g],
            entries,
        )
}

/// Whether every block of `blocks` that can be reached from `entry` is in
/// `reached`, and none of them calls a function that `entries` replaces.
pub open spec fn calls_avoid(
    blocks: Map<InstrSeqId, Seq<Op>>,
    entry: InstrSeqId,
    reached: Set<InstrSeqId>,
    entries: Seq<(FunctionId, FunctionId)>,
) -> bool {
    &&& reached.contains(entry)
    &&& forall|s: InstrSeqId, i: int, k: int|
        reached.contains(s) && 0 <= i < blocks[s].len() && 0 <= k < op_children(
            blocks[s][i],
        ).len() ==> reached.contains(#[trigger] op_children(blocks[s][i])[k])
    &&& forall|s: InstrSeqId| #[trigger] reached.contains(s) ==> avoids(blocks[s], entries)
}

/// After relinking with replacements that are not themselves replaced, the
/// module refers to no replaced function: the replaced functions are gone;
/// no member of an element segment of function references and no
/// initialiser of a global is one of them; and in every function no block
/// that can be reached from the entry block calls one of them.
pub proof fn lemma_relinked_avoids(
    old: ModuleView,
    new: ModuleView,
    entries: Seq<(FunctionId, FunctionId)>,
)
    requires
        relinked(old, new, entries),
        fresh_values(entries),
        functions_wf(old),
    ensures
        forall|g: FunctionId| replaces(entries, g) ==> !(#[trigger] new.funcs.dom().contains(g)),
        forall|e: ElementId, i: int|
            new.elements.dom().contains(e) && new.elements[e].ty == ValType::Funcref && 0 <= i
                < new.elements[e].members.len() ==> match #[trigger] new.elements[e].members[i] {
                Some(f) => !replaces(entries, f),
                None => true,
            },
        forall|g: GlobalId|
            new.globals.dom().contains(g) ==> match (#[trigger] new.globals[g]).init {
                GlobalInit::RefFunc(f) => !replaces(entries, f),
                _ => true,
            },
        forall|g: FunctionId|
            #[trigger] new.funcs.dom().contains(g) ==> match old.funcs[g].body {
                FunctionBody::Local { args, entry, blocks } => calls_avoid(
                    new.funcs[g].body->blocks,
                    entry,
                    visited(blocks, seq![entry], WALK_BUDGET as nat, entries),
                    entries,
                ),
                _ => true,
            },
{
    assert forall|e: ElementId, i: int|
        new.elements.dom().contains(e) && new.elements[e].ty == ValType::Funcref && 0 <= i
            < new.elements[e].members.len() implies match #[trigger] new.elements[e].members[i] {
        Some(f) => !replaces(entries, f),
        None => true,
    } by {
        assert(new.elements[e] == relink_element(old.elements[e], entries));
        match old.elements[e].members[i] {
            Some(f) => {
                lemma_relink_complete(entries, f);
            },
            None => {},
        }
    }
    assert forall|g: GlobalId| new.globals.dom().contains(g) implies match (
        #[trigger] new.globals[g]).init {
        GlobalInit::RefFunc(f) => !replaces(entries, f),
        _ => true,
    } by {
        assert(new.globals[g] == relink_global(old.globals[g], entries));
        match old.globals[g].init {
            GlobalInit::RefFunc(f) => {
                lemma_relink_complete(entries, f);
            },
            _ => {},
        }
    }
    assert forall|g: FunctionId| #[trigger] new.funcs.dom().contains(g) implies match old.funcs[g].body {
        FunctionBody::Local { args, entry, blocks } => calls_avoid(
            new.funcs[g].body->blocks,
            entry,
            visited(blocks, seq![entry], WALK_BUDGET as nat, entries),
            entries,
        ),
        _ => true,
    } by {
        assert(old.funcs.dom().contains(g));
        assert(new.funcs[g] == relink_function(old.funcs[g], entries));
        assert(function_wf(old.funcs[g]));
        match old.funcs[g].body {
            FunctionBody::Local { args, entry, blocks } => {
                lemma_wf_completes(old.funcs[g], entries);
                if completes(blocks, seq![entry], WALK_BUDGET as nat, entries) {
                    let stack = seq![entry];
                    let budget = WALK_BUDGET as nat;
                    let reached = visited(blocks, stack, budget, entries);
                    let done = new.funcs[g].body->blocks;
                    assert(done == walk(blocks, stack, budget, entries));
                    lemma_walk_complete(blocks, stack, budget, entries);
                    lemma_walk_frame(blocks, stack, budget, entries);
                    assert(reached.contains(stack[0]));
                    assert forall|s: InstrSeqId, i: int, k: int|
                        reached.contains(s) && 0 <= i < done[s].len() && 0 <= k < op_children(
                            done[s][i],
                        ).len() implies reached.contains(#[trigger] op_children(done[s][i])[k]) by {
                        assert(blocks.dom().contains(s));
                        assert(same_children(done[s], blocks[s]));
                        assert(op_children(done[s][i]) == op_children(blocks[s][i]));
                        assert(reached.contains(op_children(blocks[s][i])[k]));
                    }
                }
            },
            _ => {},
        }
    }
}

/// Redirects every reference to a replaced function to its replacement, and
/// deletes the replaced functions.
pub fn map_substitute_funcs(module: &mut Module, func_map: &FuncMap)
    requires
        func_map.wf(),
        functions_wf(contents(*old(module))),
        keys_alive(contents(*old(module)), func_map@),
    ensures
        relinked(contents(*old(module)), contents(*final(module)), func_map@),
        functions_wf(contents(*final(module))),
        wf(contents(*old(module))) && detached(contents(*old(module)), func_map@) ==> wf(
            contents(*final(module)),
        ),
{
    let ghost start = contents(*module);
    relink_calls(module, func_map);
    relink_elements(module, func_map);
    relink_globals(module, func_map);
    let ghost before = contents(*module);
    proof {
        assert(keys_alive(before, func_map@));
    }
    delete_keys(module, func_map);
    proof {
        let end = contents(*module);
        assert forall|g: FunctionId| end.funcs.dom().contains(g) implies function_wf(
            #[trigger] end.funcs[g],
        ) by {
            assert(end.funcs[g] == before.funcs[g]);
        }
        if wf(start) && detached(start, func_map@) {
            assert forall|e: walrus::ExportId| end.exports.dom().contains(e) implies match (
                #[trigger] end.exports[e]).item {
                walrus::ExportItem::Function(f) => end.funcs.dom().contains(f),
                _ => true,
            } by {
                assert(end.exports[e] == start.exports[e]);
                match start.exports[e].item {
                    walrus::ExportItem::Function(f) => {
                        assert(end.funcs[f] == relink_function(start.funcs[f], func_map@));
                    },
                    _ => {},
                }
            }
            assert forall|i: walrus::ImportId| end.imports.dom().contains(i) implies match (
                #[trigger] end.imports[i]).kind {
                walrus::ImportKind::Function(f) => end.funcs.dom().contains(f) && end.funcs[f].body
                    == FunctionBody::Import(i),
                _ => true,
            } by {
                assert(end.imports[i] == start.imports[i]);
                match start.imports[i].kind {
                    walrus::ImportKind::Function(f) => {
                        assert(end.funcs[f] == relink_function(start.funcs[f], func_map@));
                    },
                    _ => {},
                }
            }
            assert(wf(end));
        }
    }
}

} // verus!
