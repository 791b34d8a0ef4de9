//! The operations of a `walrus::FunctionBuilder` that the rewriting calls.
//!
//! None of these is proved: each states what the `walrus` source shows of the
//! operation in its body. Every operation that appends an instruction does so
//! through `InstrSeqBuilder::instr`, which indexes the builder's blocks and
//! panics on a block that the builder does not hold: each asks for one that
//! it holds.

use vstd::prelude::*;
use walrus::ir::{BinaryOp, InstrSeqId, LoadKind, MemArg, StoreKind, UnaryOp};
use walrus::{FunctionBuilder, FunctionId, GlobalId, LocalId, MemoryId, Module, TableId, ValType};

use crate::wasm::{building, contents, held_types, BuilderView, Op, Signature};

verus! {

/// `FunctionBuilder::new`: a builder for a function of the given type, with
/// an empty entry block and no name. The module holds the type from then
/// on; the types that the builder interns are no part of a module's
/// content.
#[verifier::external_body]
pub(crate) fn new_builder(module: &mut Module, params: &[ValType], results: &[ValType]) -> (builder: FunctionBuilder)
    ensures
        contents(*final(module)) == contents(*old(module)),
        held_types(*final(module)).contains(building(builder).ty),
        building(builder).sig == (Signature { params: params@, results: results@ }),
        building(builder).name is None,
        building(builder).blocks == Map::<InstrSeqId, Seq<Op>>::empty().insert(
            building(builder).entry,
            Seq::empty(),
        ),
{
    FunctionBuilder::new(&mut module.types, params, results)
}

/// `FunctionBuilder::name`.
#[verifier::external_body]
pub(crate) fn set_name(builder: &mut FunctionBuilder, name: String)
    ensures
        building(*final(builder)) == (BuilderView { name: Some(name@), ..building(*old(builder)) }),
{
    builder.name(name);
}

/// `FunctionBuilder::func_body_id`.
#[verifier::external_body]
pub(crate) fn entry_block(builder: &FunctionBuilder) -> (entry: InstrSeqId)
    ensures
        entry == building(*builder).entry,
{
    builder.func_body_id()
}

/// `FunctionBuilder::dangling_instr_seq`: a new, empty block that no
/// instruction refers to yet.
#[verifier::external_body]
pub(crate) fn new_block(builder: &mut FunctionBuilder, ty: Option<ValType>) -> (seq: InstrSeqId)
    ensures
        !building(*old(builder)).blocks.dom().contains(seq),
        building(*final(builder)) == building(*old(builder)).with_block(seq),
{
    builder.dangling_instr_seq(ty).id()
}

/// `InstrSeqBuilder::instr` with a `Block`.
#[verifier::external_body]
pub(crate) fn push_block(builder: &mut FunctionBuilder, seq: InstrSeqId, block: InstrSeqId)
    requires
        building(*old(builder)).blocks.dom().contains(seq),
    ensures
        building(*final(builder)) == building(*old(builder)).push(seq, Op::Block(block)),
{
    builder.instr_seq(seq).instr(walrus::ir::Block { seq: block });
}

/// `InstrSeqBuilder::instr` with a `Loop`.
#[verifier::external_body]
pub(crate) fn push_loop(builder: &mut FunctionBuilder, seq: InstrSeqId, block: InstrSeqId)
    requires
        building(*old(builder)).blocks.dom().contains(seq),
    ensures
        building(*final(builder)) == building(*old(builder)).push(seq, Op::Loop(block)),
{
    builder.instr_seq(seq).instr(walrus::ir::Loop { seq: block });
}

/// `InstrSeqBuilder::instr` with an `IfElse`.
#[verifier::external_body]
pub(crate) fn push_if_else(
    builder: &mut FunctionBuilder,
    seq: InstrSeqId,
    consequent: InstrSeqId,
    alternative: InstrSeqId,
)
    requires
        building(*old(builder)).blocks.dom().contains(seq),
    ensures
        building(*final(builder)) == building(*old(builder)).push(
            seq,
            Op::IfElse(consequent, alternative),
        ),
{
    builder.instr_seq(seq).instr(walrus::ir::IfElse { consequent, alternative });
}

/// `InstrSeqBuilder::br`.
#[verifier::external_body]
pub(crate) fn push_br(builder: &mut FunctionBuilder, seq: InstrSeqId, block: InstrSeqId)
    requires
        building(*old(builder)).blocks.dom().contains(seq),
    ensures
        building(*final(builder)) == building(*old(builder)).push(seq, Op::Br(block)),
{
    builder.instr_seq(seq).br(block);
}

/// `InstrSeqBuilder::br_if`.
#[verifier::external_body]
pub(crate) fn push_br_if(builder: &mut FunctionBuilder, seq: InstrSeqId, block: InstrSeqId)
    requires
        building(*old(builder)).blocks.dom().contains(seq),
    ensures
        building(*final(builder)) == building(*old(builder)).push(seq, Op::BrIf(block)),
{
    builder.instr_seq(seq).br_if(block);
}

/// `InstrSeqBuilder::return_`.
#[verifier::external_body]
pub(crate) fn push_return(builder: &mut FunctionBuilder, seq: InstrSeqId)
    requires
        building(*old(builder)).blocks.dom().contains(seq),
    ensures
        building(*final(builder)) == building(*old(builder)).push(seq, Op::Return),
{
    builder.instr_seq(seq).return_();
}

/// `InstrSeqBuilder::unreachable`.
#[verifier::external_body]
pub(crate) fn push_unreachable(builder: &mut FunctionBuilder, seq: InstrSeqId)
    requires
        building(*old(builder)).blocks.dom().contains(seq),
    ensures
        building(*final(builder)) == building(*old(builder)).push(seq, Op::Unreachable),
{
    builder.instr_seq(seq).unreachable();
}

/// `InstrSeqBuilder::call`.
#[verifier::external_body]
pub(crate) fn push_call(builder: &mut FunctionBuilder, seq: InstrSeqId, func: FunctionId)
    requires
        building(*old(builder)).blocks.dom().contains(seq),
    ensures
        building(*final(builder)) == building(*old(builder)).push(seq, Op::Call(func)),
{
    builder.instr_seq(seq).call(func);
}

/// `InstrSeqBuilder::ref_func`.
#[verifier::external_body]
pub(crate) fn push_ref_func(builder: &mut FunctionBuilder, seq: InstrSeqId, func: FunctionId)
    requires
        building(*old(builder)).blocks.dom().contains(seq),
    ensures
        building(*final(builder)) == building(*old(builder)).push(seq, Op::RefFunc(func)),
{
    builder.instr_seq(seq).ref_func(func);
}

/// `InstrSeqBuilder::local_get`.
#[verifier::external_body]
pub(crate) fn push_local_get(builder: &mut FunctionBuilder, seq: InstrSeqId, local: LocalId)
    requires
        building(*old(builder)).blocks.dom().contains(seq),
    ensures
        building(*final(builder)) == building(*old(builder)).push(seq, Op::LocalGet(local)),
{
    builder.instr_seq(seq).local_get(local);
}

/// `InstrSeqBuilder::local_set`.
#[verifier::external_body]
pub(crate) fn push_local_set(builder: &mut FunctionBuilder, seq: InstrSeqId, local: LocalId)
    requires
        building(*old(builder)).blocks.dom().contains(seq),
    ensures
        building(*final(builder)) == building(*old(builder)).push(seq, Op::LocalSet(local)),
{
    builder.instr_seq(seq).local_set(local);
}

/// `InstrSeqBuilder::local_tee`.
#[verifier::external_body]
pub(crate) fn push_local_tee(builder: &mut FunctionBuilder, seq: InstrSeqId, local: LocalId)
    requires
        building(*old(builder)).blocks.dom().contains(seq),
    ensures
        building(*final(builder)) == building(*old(builder)).push(seq, Op::LocalTee(local)),
{
    builder.instr_seq(seq).local_tee(local);
}

/// `InstrSeqBuilder::global_get`.
#[verifier::external_body]
pub(crate) fn push_global_get(builder: &mut FunctionBuilder, seq: InstrSeqId, global: GlobalId)
    requires
        building(*old(builder)).blocks.dom().contains(seq),
    ensures
        building(*final(builder)) == building(*old(builder)).push(seq, Op::GlobalGet(global)),
{
    builder.instr_seq(seq).global_get(global);
}

/// `InstrSeqBuilder::global_set`.
#[verifier::external_body]
pub(crate) fn push_global_set(builder: &mut FunctionBuilder, seq: InstrSeqId, global: GlobalId)
    requires
        building(*old(builder)).blocks.dom().contains(seq),
    ensures
        building(*final(builder)) == building(*old(builder)).push(seq, Op::GlobalSet(global)),
{
    builder.instr_seq(seq).global_set(global);
}

/// `InstrSeqBuilder::i32_const`.
#[verifier::external_body]
pub(crate) fn push_i32_const(builder: &mut FunctionBuilder, seq: InstrSeqId, value: i32)
    requires
        building(*old(builder)).blocks.dom().contains(seq),
    ensures
        building(*final(builder)) == building(*old(builder)).push(seq, Op::I32Const(value)),
{
    builder.instr_seq(seq).i32_const(value);
}

/// `InstrSeqBuilder::binop`.
#[verifier::external_body]
pub(crate) fn push_binop(builder: &mut FunctionBuilder, seq: InstrSeqId, op: BinaryOp)
    requires
        building(*old(builder)).blocks.dom().contains(seq),
    ensures
        building(*final(builder)) == building(*old(builder)).push(seq, Op::Binop(op)),
{
    builder.instr_seq(seq).binop(op);
}

/// `InstrSeqBuilder::unop`.
#[verifier::external_body]
pub(crate) fn push_unop(builder: &mut FunctionBuilder, seq: InstrSeqId, op: UnaryOp)
    requires
        building(*old(builder)).blocks.dom().contains(seq),
    ensures
        building(*final(builder)) == building(*old(builder)).push(seq, Op::Unop(op)),
{
    builder.instr_seq(seq).unop(op);
}

/// `InstrSeqBuilder::ref_null`.
#[verifier::external_body]
pub(crate) fn push_ref_null(builder: &mut FunctionBuilder, seq: InstrSeqId, ty: ValType)
    requires
        building(*old(builder)).blocks.dom().contains(seq),
    ensures
        building(*final(builder)) == building(*old(builder)).push(seq, Op::RefNull(ty)),
{
    builder.instr_seq(seq).ref_null(ty);
}

/// `InstrSeqBuilder::ref_is_null`.
#[verifier::external_body]
pub(crate) fn push_ref_is_null(builder: &mut FunctionBuilder, seq: InstrSeqId)
    requires
        building(*old(builder)).blocks.dom().contains(seq),
    ensures
        building(*final(builder)) == building(*old(builder)).push(seq, Op::RefIsNull),
{
    builder.instr_seq(seq).ref_is_null();
}

/// `InstrSeqBuilder::table_get`.
#[verifier::external_body]
pub(crate) fn push_table_get(builder: &mut FunctionBuilder, seq: InstrSeqId, table: TableId)
    requires
        building(*old(builder)).blocks.dom().contains(seq),
    ensures
        building(*final(builder)) == building(*old(builder)).push(seq, Op::TableGet(table)),
{
    builder.instr_seq(seq).table_get(table);
}

/// `InstrSeqBuilder::table_set`.
#[verifier::external_body]
pub(crate) fn push_table_set(builder: &mut FunctionBuilder, seq: InstrSeqId, table: TableId)
    requires
        building(*old(builder)).blocks.dom().contains(seq),
    ensures
        building(*final(builder)) == building(*old(builder)).push(seq, Op::TableSet(table)),
{
    builder.instr_seq(seq).table_set(table);
}

/// `InstrSeqBuilder::table_size`.
#[verifier::external_body]
pub(crate) fn push_table_size(builder: &mut FunctionBuilder, seq: InstrSeqId, table: TableId)
    requires
        building(*old(builder)).blocks.dom().contains(seq),
    ensures
        building(*final(builder)) == building(*old(builder)).push(seq, Op::TableSize(table)),
{
    builder.instr_seq(seq).table_size(table);
}

/// `InstrSeqBuilder::table_grow`.
#[verifier::external_body]
pub(crate) fn push_table_grow(builder: &mut FunctionBuilder, seq: InstrSeqId, table: TableId)
    requires
        building(*old(builder)).blocks.dom().contains(seq),
    ensures
        building(*final(builder)) == building(*old(builder)).push(seq, Op::TableGrow(table)),
{
    builder.instr_seq(seq).table_grow(table);
}

/// `InstrSeqBuilder::load`.
#[verifier::external_body]
pub(crate) fn push_load(
    builder: &mut FunctionBuilder,
    seq: InstrSeqId,
    memory: MemoryId,
    kind: LoadKind,
    arg: MemArg,
)
    requires
        building(*old(builder)).blocks.dom().contains(seq),
    ensures
        building(*final(builder)) == building(*old(builder)).push(seq, Op::Load(memory, kind, arg)),
{
    builder.instr_seq(seq).load(memory, kind, arg);
}

/// `InstrSeqBuilder::store`.
#[verifier::external_body]
pub(crate) fn push_store(
    builder: &mut FunctionBuilder,
    seq: InstrSeqId,
    memory: MemoryId,
    kind: StoreKind,
    arg: MemArg,
)
    requires
        building(*old(builder)).blocks.dom().contains(seq),
    ensures
        building(*final(builder)) == building(*old(builder)).push(seq, Op::Store(memory, kind, arg)),
{
    builder.instr_seq(seq).store(memory, kind, arg);
}

} // verus!
