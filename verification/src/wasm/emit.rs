//! Building functions from lists of instructions.

use vstd::prelude::*;
use walrus::ir::InstrSeqId;
use walrus::{FunctionBuilder, FunctionId, LocalId, Module, ValType};

use crate::wasm::builder::{
    entry_block, new_builder, push_binop, push_block, push_br, push_br_if, push_call,
    push_global_get, push_global_set, push_i32_const, push_if_else, push_load, push_local_get,
    push_local_set, push_local_tee, push_loop, push_ref_func, push_ref_is_null, push_ref_null,
    push_return, push_store, push_table_get, push_table_grow, push_table_set, push_table_size,
    push_unop, push_unreachable, set_name,
};
use crate::wasm::module::{add_local, finish};
use crate::wasm::{
    building, children, contents, ends, function_wf, op_children, BuilderView, FunctionView,
    ModuleView, Op, Signature, WALK_BUDGET,
};

verus! {

/// Whether every instruction of `code` is one that this library can write.
pub open spec fn writable(code: Seq<Op>) -> bool {
    forall|i: int| 0 <= i < code.len() ==> !(#[trigger] code[i] is Other)
}

/// Whether no instruction of `code` opens a block.
pub open spec fn flat(code: Seq<Op>) -> bool {
    forall|i: int| 0 <= i < code.len() ==> op_children(#[trigger] code[i]).len() == 0
}

/// A block whose instructions open no block has no children.
pub proof fn lemma_flat_children(code: Seq<Op>)
    requires
        flat(code),
    ensures
        children(code) == Seq::<InstrSeqId>::empty(),
    decreases code.len(),
{
    if code.len() > 0 {
        assert(flat(code.drop_last())) by {
            assert forall|i: int| 0 <= i < code.drop_last().len() implies op_children(
                #[trigger] code.drop_last()[i],
            ).len() == 0 by {
                assert(code.drop_last()[i] == code[i]);
            }
        }
        lemma_flat_children(code.drop_last());
        assert(op_children(code[code.len() - 1]).len() == 0);
        assert(children(code) =~= Seq::<InstrSeqId>::empty());
    }
}

/// A block of which one instruction alone opens blocks has the children of
/// that instruction.
pub proof fn lemma_one_child(code: Seq<Op>, at: int)
    requires
        0 <= at < code.len(),
        forall|i: int| 0 <= i < code.len() && i != at ==> op_children(#[trigger] code[i]).len() == 0,
    ensures
        children(code) == op_children(code[at]),
    decreases code.len(),
{
    let front = code.drop_last();
    if at == code.len() - 1 {
        assert(flat(front)) by {
            assert forall|i: int| 0 <= i < front.len() implies op_children(#[trigger] front[i]).len()
                == 0 by {
                assert(front[i] == code[i]);
            }
        }
        lemma_flat_children(front);
        assert(children(code) =~= op_children(code[at]));
    } else {
        assert forall|i: int| 0 <= i < front.len() && i != at implies op_children(
            #[trigger] front[i],
        ).len() == 0 by {
            assert(front[i] == code[i]);
        }
        lemma_one_child(front, at);
        assert(front[at] == code[at]);
        assert(op_children(code[code.len() - 1]).len() == 0);
        assert(children(code) =~= op_children(code[at]));
    }
}

/// A function whose body is one block of instructions that open no block
/// holds every block that it refers to.
pub proof fn lemma_straight_wf(
    v: FunctionView,
    sig: Signature,
    name: Seq<char>,
    args: Seq<LocalId>,
    code: Seq<Op>,
)
    requires
        is_straight(v, sig, name, args, code),
        flat(code),
    ensures
        function_wf(v),
{
    let blocks = v.body->blocks;
    assert(blocks.dom().contains(v.body->entry));
    assert forall|s: InstrSeqId, i: int, k: int|
        blocks.dom().contains(s) && 0 <= i < blocks[s].len() && 0 <= k < op_children(
            blocks[s][i],
        ).len() implies blocks.dom().contains(#[trigger] op_children(blocks[s][i])[k]) by {
        assert(s == v.body->entry);
        assert(op_children(code[i]).len() == 0);
    }
    lemma_flat_children(code);
    let stack = seq![v.body->entry];
    assert(stack.drop_last() + children(blocks[stack.last()]) =~= Seq::<InstrSeqId>::empty());
    assert(ends(blocks, stack, WALK_BUDGET as nat)) by {
        reveal_with_fuel(ends, 2);
    }
}

/// A typed function of the module whose body is one block that holds `code`.
pub open spec fn is_straight(
    v: FunctionView,
    sig: Signature,
    name: Seq<char>,
    args: Seq<LocalId>,
    code: Seq<Op>,
) -> bool {
    &&& v.typed
    &&& v.sig == sig
    &&& v.name == Some(name)
    &&& v.body is Local
    &&& v.body->args == args
    &&& v.body->blocks == Map::<InstrSeqId, Seq<Op>>::empty().insert(v.body->entry, code)
}

/// Appends `op` to block `seq` of the function under construction.
pub fn emit(builder: &mut FunctionBuilder, seq: InstrSeqId, op: Op)
    requires
        building(*old(builder)).blocks.dom().contains(seq),
        !(op is Other),
    ensures
        building(*final(builder)) == building(*old(builder)).push(seq, op),
{
    match op {
        Op::Block(b) => push_block(builder, seq, b),
        Op::Loop(b) => push_loop(builder, seq, b),
        Op::IfElse(a, b) => push_if_else(builder, seq, a, b),
        Op::Br(b) => push_br(builder, seq, b),
        Op::BrIf(b) => push_br_if(builder, seq, b),
        Op::Return => push_return(builder, seq),
        Op::Unreachable => push_unreachable(builder, seq),
        Op::Call(f) => push_call(builder, seq, f),
        Op::RefFunc(f) => push_ref_func(builder, seq, f),
        Op::LocalGet(l) => push_local_get(builder, seq, l),
        Op::LocalSet(l) => push_local_set(builder, seq, l),
        Op::LocalTee(l) => push_local_tee(builder, seq, l),
        Op::GlobalGet(g) => push_global_get(builder, seq, g),
        Op::GlobalSet(g) => push_global_set(builder, seq, g),
        Op::I32Const(v) => push_i32_const(builder, seq, v),
        Op::Binop(o) => push_binop(builder, seq, o),
        Op::Unop(o) => push_unop(builder, seq, o),
        Op::RefNull(t) => push_ref_null(builder, seq, t),
        Op::RefIsNull => push_ref_is_null(builder, seq),
        Op::TableGet(t) => push_table_get(builder, seq, t),
        Op::TableSet(t) => push_table_set(builder, seq, t),
        Op::TableSize(t) => push_table_size(builder, seq, t),
        Op::TableGrow(t) => push_table_grow(builder, seq, t),
        Op::Load(m, k, a) => push_load(builder, seq, m, k, a),
        Op::Store(m, k, a) => push_store(builder, seq, m, k, a),
        Op::Other => {},
    }
}

/// Appends `code` to block `seq` of the function under construction.
pub fn emit_all(builder: &mut FunctionBuilder, seq: InstrSeqId, code: &Vec<Op>)
    requires
        building(*old(builder)).blocks.dom().contains(seq),
        writable(code@),
    ensures
        building(*final(builder)) == (BuilderView {
            blocks: building(*old(builder)).blocks.insert(
                seq,
                building(*old(builder)).blocks[seq] + code@,
            ),
            ..building(*old(builder))
        }),
{
    let n = code.len();
    let mut i: usize = 0;
    let ghost start = building(*builder);
    assert(start.blocks.insert(seq, start.blocks[seq] + code@.subrange(0, 0)) =~= start.blocks);
    while i < n
        invariant
            i <= n,
            n == code@.len(),
            writable(code@),
            start.blocks.dom().contains(seq),
            building(*builder) == (BuilderView {
                blocks: start.blocks.insert(seq, start.blocks[seq] + code@.subrange(0, i as int)),
                ..start
            }),
        decreases n - i,
    {
        let ghost before = building(*builder);
        emit(builder, seq, code[i]);
        i += 1;
        proof {
            assert(start.blocks[seq] + code@.subrange(0, i as int) =~= (start.blocks[seq]
                + code@.subrange(0, i - 1)).push(code@[i - 1]));
            assert(building(*builder).blocks =~= start.blocks.insert(
                seq,
                start.blocks[seq] + code@.subrange(0, i as int),
            ));
        }
    }
    assert(code@.subrange(0, n as int) =~= code@);
}

/// Adds a function to the module whose body is one block that holds `code`.
pub fn add_function(
    module: &mut Module,
    name: String,
    params: &Vec<ValType>,
    results: &Vec<ValType>,
    args: Vec<LocalId>,
    code: &Vec<Op>,
) -> (f: FunctionId)
    requires
        writable(code@),
    ensures
        !contents(*old(module)).funcs.dom().contains(f),
        contents(*final(module)) == contents(*old(module)).with_function(
            f,
            contents(*final(module)).funcs[f],
        ),
        is_straight(
            contents(*final(module)).funcs[f],
            Signature { params: params@, results: results@ },
            name@,
            args@,
            code@,
        ),
{
    let ghost n = name@;
    let ghost a = args@;
    let mut builder = new_builder(module, params.as_slice(), results.as_slice());
    set_name(&mut builder, name);
    let entry = entry_block(&builder);
    emit_all(&mut builder, entry, code);
    proof {
        let b = building(builder);
        assert(Seq::<Op>::empty() + code@ =~= code@);
        assert(b.blocks =~= Map::<InstrSeqId, Seq<Op>>::empty().insert(b.entry, code@));
    }
    let f = finish(builder, args, module);
    f
}

/// A part of a part is a part.
pub proof fn lemma_submap_trans<K, V>(a: Map<K, V>, b: Map<K, V>, c: Map<K, V>)
    requires
        a.submap_of(b),
        b.submap_of(c),
    ensures
        a.submap_of(c),
{
    assert forall|k: K| a.dom().contains(k) implies #[trigger] c.dom().contains(k) && a[k]
        == c[k] by {
        assert(b.dom().contains(k));
        assert(a[k] == b[k]);
        assert(c.dom().contains(k));
        assert(b[k] == c[k]);
    }
}

/// A map is a part of itself with one more key.
pub proof fn lemma_submap_insert<K, V>(a: Map<K, V>, k: K, v: V)
    requires
        !a.dom().contains(k),
    ensures
        a.submap_of(a.insert(k, v)),
{
}

/// Adds one local of each of the given kinds to the module: new locals, no
/// two of them the same.
pub fn add_locals(module: &mut Module, kinds: &Vec<ValType>) -> (locals: Vec<LocalId>)
    ensures
        locals@.len() == kinds@.len(),
        locals@.no_duplicates(),
        forall|i: int|
            0 <= i < locals@.len() ==> !contents(*old(module)).locals.dom().contains(
                #[trigger] locals@[i],
            ),
        contents(*final(module)) == (ModuleView {
            locals: contents(*final(module)).locals,
            ..contents(*old(module))
        }),
        contents(*old(module)).locals.submap_of(contents(*final(module)).locals),
        forall|i: int|
            0 <= i < locals@.len() ==> contents(*final(module)).locals.dom().contains(
                #[trigger] locals@[i],
            ) && contents(*final(module)).locals[locals@[i]] == kinds@[i],
{
    let ghost start = contents(*module);
    let n = kinds.len();
    let mut locals: Vec<LocalId> = Vec::new();
    let mut i: usize = 0;
    while i < n
        invariant
            i <= n,
            n == kinds@.len(),
            locals@.len() == i,
            contents(*module) == (ModuleView { locals: contents(*module).locals, ..start }),
            start.locals.submap_of(contents(*module).locals),
            start == contents(*old(module)),
            locals@.no_duplicates(),
            forall|k: int| 0 <= k < locals@.len() ==> !start.locals.dom().contains(#[trigger] locals@[k]),
            forall|k: int|
                0 <= k < locals@.len() ==> contents(*module).locals.dom().contains(
                    #[trigger] locals@[k],
                ) && contents(*module).locals[locals@[k]] == kinds@[k],
        decreases n - i,
    {
        let ghost before = contents(*module);
        let ghost sofar = locals@;
        let local = add_local(module, kinds[i]);
        locals.push(local);
        i += 1;
        proof {
            let now = contents(*module);
            assert(!start.locals.dom().contains(local)) by {
                if start.locals.dom().contains(local) {
                    assert(before.locals.dom().contains(local));
                }
            }
            assert forall|a: int, b: int| 0 <= a < locals@.len() && 0 <= b < locals@.len() && a
                != b implies locals@[a] != locals@[b] by {
                if a < sofar.len() && b < sofar.len() {
                    assert(sofar[a] != sofar[b]);
                } else if a < sofar.len() {
                    assert(before.locals.dom().contains(sofar[a]));
                } else {
                    assert(before.locals.dom().contains(sofar[b]));
                }
            }
            assert(start.locals.submap_of(now.locals)) by {
                assert forall|k: LocalId| start.locals.dom().contains(k) implies #[trigger] now.locals.dom().contains(
                    k,
                ) && start.locals[k] == now.locals[k] by {
                    assert(before.locals.dom().contains(k));
                }
            }
            assert forall|k: int| 0 <= k < locals@.len() implies now.locals.dom().contains(
                #[trigger] locals@[k],
            ) && now.locals[locals@[k]] == kinds@[k] by {
                if k < locals@.len() - 1 {
                    assert(before.locals.dom().contains(locals@[k]));
                }
            }
        }
    }
    locals
}

} // verus!
