//! The slot table that stands between the module and the host's references,
//! and the three functions that work on it.
//!
//! The module works with slots: 32-bit integers, of which 0 stands for no
//! reference and `n + 1` for entry `n` of a table of references. A second
//! memory links the free entries of the table: the 16-bit cell of a free
//! entry holds the next free entry, and [`EMPTY`] ends the list.

pub mod imports;
pub mod semantics;
pub mod slots;

use vstd::prelude::*;
use walrus::ir::{BinaryOp, ExtendedLoad, InstrSeqId, LoadKind, MemArg, StoreKind, UnaryOp};
use walrus::{
    ElementId, ElementKind, ExportItem, FunctionId, GlobalId, LocalId, MemoryId, Module, TableId,
    ValType,
};

use crate::error::RewriteError;
use crate::relink::{calls_nothing, plain, plain_kept};
use crate::runtime::imports::{catalogue_names, generate_imports, generated, lemma_wf_grown};
use crate::wasm::builder::{entry_block, new_block, new_builder, set_name};
use crate::wasm::emit::{emit_all, lemma_flat_children, lemma_one_child, lemma_submap_trans};
use crate::wasm::module::{
    add_element, add_global_i32, add_local, add_memory, add_table, export_ids, export_item,
    export_name, finish,
};
use crate::wasm::{
    building, children, closed, contents, ends, exports_spare, function_wf, imports_renewed,
    lemma_typed_grown, lists, op_children, typed, wf, ElementView, FunctionBody, FunctionView,
    GlobalInit, GlobalView, MemoryView, ModuleView, Op, Signature, TableView, WALK_BUDGET,
};

verus! {

/// The link that ends the list of free entries, and the mark of an entry in
/// use: all sixteen bits set.
pub const EMPTY: i32 = 65535;

/// What growing a table gives where it cannot grow.
pub const GROW_FAILED: i32 = -1;

/// The most entries that the table of references can hold. Every entry's
/// index is below [`EMPTY`].
pub const MAX_SLOTS: u32 = 65535;

/// The pages of the memory that links the free entries: two bytes for each
/// entry that the table can hold.
pub const LINK_PAGES: u32 = 2;

/// What the rewriting has installed in a module.
#[derive(Clone, Copy, Debug)]
pub struct RuntimeData {
    /// The memory that the module exports under the name `memory`.
    pub main_memory: MemoryId,
    /// The table of host references; slot `n + 1` of the module is entry `n`.
    pub extern_table: TableId,
    /// The memory that links the free entries of the table.
    pub extern_memory: MemoryId,
    /// The element segment that declares the helpers taken by reference.
    pub declare_funcs: ElementId,
    /// Scratch: where the next reference of a batch is read or written.
    pub index_global: GlobalId,
    /// Scratch: where a batch ends.
    pub limit_global: GlobalId,
    /// The first free entry of the table, or [`EMPTY`].
    pub head_global: GlobalId,
    /// Puts a reference in the table and returns its slot.
    pub alloc_func: FunctionId,
    /// Gives a slot back.
    pub free_func: FunctionId,
    /// The reference in a slot.
    pub get_func: FunctionId,
}

/// Where the slots are kept.
#[derive(Clone, Copy, Debug)]
pub struct SlotStore {
    /// The table of references.
    pub table: TableId,
    /// The memory that links the free entries of the table.
    pub links: MemoryId,
    /// The first free entry of the table, or [`EMPTY`].
    pub head: GlobalId,
}

impl RuntimeData {
    /// Where the slots are kept.
    pub open spec fn store(self) -> SlotStore {
        SlotStore { table: self.extern_table, links: self.extern_memory, head: self.head_global }
    }
}

/// How the generated code stores a link: sixteen bits, with no alignment
/// promised.
pub open spec fn link_store() -> (StoreKind, MemArg) {
    (StoreKind::I32_16 { atomic: false }, MemArg { align: 1, offset: 0 })
}

/// How the generated code loads a link: sixteen bits, the upper bits zero.
pub open spec fn link_load() -> (LoadKind, MemArg) {
    (LoadKind::I32_16 { kind: ExtendedLoad::ZeroExtend }, MemArg { align: 1, offset: 0 })
}

/// The memory that the module exports as `memory`: that of the first export
/// in `order`, from `from` on, that has this name and hands out a memory.
pub open spec fn main_memory(view: ModuleView, from: int) -> Option<MemoryId>
    decreases view.export_order.len() - from,
{
    if from < 0 || from >= view.export_order.len() {
        None
    } else {
        let e = view.exports[view.export_order[from]];
        match e.item {
            ExportItem::Memory(m) if e.name == "memory"@ => Some(m),
            _ => main_memory(view, from + 1),
        }
    }
}

/// Finds the memory that the module exports under the name `memory`.
pub fn find_main_memory(module: &Module) -> (r: Option<MemoryId>)
    ensures
        r == main_memory(contents(*module), 0),
{
    let ids = export_ids(module);
    let wanted = "memory".to_owned();
    let n = ids.len();
    let mut i: usize = 0;
    while i < n
        invariant
            i <= n,
            n == ids@.len(),
            wanted@ == "memory"@,
            ids@ == contents(*module).export_order,
            lists(ids@, contents(*module).exports.dom()),
            main_memory(contents(*module), 0) == main_memory(contents(*module), i as int),
        decreases n - i,
    {
        let e = ids[i];
        assert(ids@.contains(e));
        let name = export_name(module, e);
        if name == wanted {
            match export_item(module, e) {
                ExportItem::Memory(m) => {
                    return Some(m);
                },
                _ => {},
            }
        }
        i += 1;
    }
    None
}

/// The entry block of `alloc`: no slot for no reference.
pub open spec fn alloc_entry(e: LocalId, none: InstrSeqId, some: InstrSeqId) -> Seq<Op> {
    seq![Op::LocalGet(e), Op::RefIsNull, Op::IfElse(none, some)]
}

/// `alloc` for a reference: the first free entry is taken, or the table
/// grows by one entry; the reference goes there, the entry is marked as in
/// use, and its slot is returned.
pub open spec fn alloc_some(
    e: LocalId,
    i: LocalId,
    grow: InstrSeqId,
    pop: InstrSeqId,
    store: SlotStore,
) -> Seq<Op> {
    seq![
        Op::GlobalGet(store.head),
        Op::LocalTee(i),
        Op::TableSize(store.table),
        Op::Binop(BinaryOp::I32GeU),
        Op::IfElse(grow, pop),
        Op::LocalGet(i),
        Op::LocalGet(e),
        Op::TableSet(store.table),
        Op::LocalGet(i),
        Op::I32Const(2),
        Op::Binop(BinaryOp::I32Mul),
        Op::I32Const(EMPTY),
        Op::Store(store.links, link_store().0, link_store().1),
        Op::LocalGet(i),
        Op::I32Const(1),
        Op::Binop(BinaryOp::I32Add),
    ]
}

/// `alloc` with no free entry: the table grows by one entry, which is the
/// one to use. Where it cannot grow, the module traps.
pub open spec fn alloc_grow(
    i: LocalId,
    trap: InstrSeqId,
    go_on: InstrSeqId,
    store: SlotStore,
) -> Seq<Op> {
    seq![
        Op::RefNull(ValType::Externref),
        Op::I32Const(1),
        Op::TableGrow(store.table),
        Op::LocalTee(i),
        Op::I32Const(GROW_FAILED),
        Op::Binop(BinaryOp::I32Eq),
        Op::IfElse(trap, go_on),
    ]
}

/// `alloc` with a free entry: the list of free entries goes on behind it.
pub open spec fn alloc_pop(i: LocalId, store: SlotStore) -> Seq<Op> {
    seq![
        Op::LocalGet(i),
        Op::I32Const(2),
        Op::Binop(BinaryOp::I32Mul),
        Op::Load(store.links, link_load().0, link_load().1),
        Op::GlobalSet(store.head),
    ]
}

/// The entry block of `free`: nothing to do for slot 0.
pub open spec fn free_entry(i: LocalId, some: InstrSeqId, none: InstrSeqId) -> Seq<Op> {
    seq![Op::LocalGet(i), Op::IfElse(some, none)]
}

/// `free` for a slot: its entry is cleared and becomes the first free one.
pub open spec fn free_some(i: LocalId, store: SlotStore) -> Seq<Op> {
    seq![
        Op::LocalGet(i),
        Op::I32Const(1),
        Op::Binop(BinaryOp::I32Sub),
        Op::LocalTee(i),
        Op::RefNull(ValType::Externref),
        Op::TableSet(store.table),
        Op::LocalGet(i),
        Op::I32Const(2),
        Op::Binop(BinaryOp::I32Mul),
        Op::GlobalGet(store.head),
        Op::Store(store.links, link_store().0, link_store().1),
        Op::LocalGet(i),
        Op::GlobalSet(store.head),
    ]
}

/// The entry block of `get`: no reference for slot 0.
pub open spec fn get_entry(i: LocalId, none: InstrSeqId, some: InstrSeqId) -> Seq<Op> {
    seq![Op::LocalGet(i), Op::Unop(UnaryOp::I32Eqz), Op::IfElse(none, some)]
}

/// `get` for a slot: the reference in its entry.
pub open spec fn get_some(i: LocalId, store: SlotStore) -> Seq<Op> {
    seq![
        Op::LocalGet(i),
        Op::I32Const(1),
        Op::Binop(BinaryOp::I32Sub),
        Op::TableGet(store.table),
    ]
}

/// Whether `v` is the function `alloc` over the table, the links and the
/// head that `store` names.
pub open spec fn is_alloc(v: FunctionView, store: SlotStore) -> bool {
    exists|e: LocalId, i: LocalId, none: InstrSeqId, some: InstrSeqId, grow: InstrSeqId, pop: InstrSeqId, trap: InstrSeqId, go_on: InstrSeqId|
        #![trigger alloc_entry(e, none, some), alloc_some(e, i, grow, pop, store), alloc_grow(i, trap, go_on, store)]
        {
            &&& v.typed
            &&& v.sig == (Signature { params: seq![ValType::Externref], results: seq![ValType::I32] })
            &&& v.name == Some("godot_wasm.alloc"@)
            &&& v.body == (FunctionBody::Local {
                args: seq![e],
                entry: v.body->entry,
                blocks: Map::<InstrSeqId, Seq<Op>>::empty().insert(
                    v.body->entry,
                    alloc_entry(e, none, some),
                ).insert(none, seq![Op::I32Const(0)]).insert(
                    some,
                    alloc_some(e, i, grow, pop, store),
                ).insert(grow, alloc_grow(i, trap, go_on, store)).insert(
                    pop,
                    alloc_pop(i, store),
                ).insert(trap, seq![Op::Unreachable]).insert(go_on, Seq::empty()),
            })
            &&& distinct7(v.body->entry, none, some, grow, pop, trap, go_on)
            &&& e != i
        }
}

/// Whether seven blocks are seven different ones.
pub open spec fn distinct7(
    a: InstrSeqId,
    b: InstrSeqId,
    c: InstrSeqId,
    d: InstrSeqId,
    e: InstrSeqId,
    f: InstrSeqId,
    g: InstrSeqId,
) -> bool {
    seq![a, b, c, d, e, f, g].no_duplicates()
}

/// Whether `v` is the function `free` over the table, the links and the
/// head that `store` names.
pub open spec fn is_free(v: FunctionView, store: SlotStore) -> bool {
    exists|i: LocalId, some: InstrSeqId, none: InstrSeqId|
        #![trigger free_entry(i, some, none)]
        {
            &&& v.typed
            &&& v.sig == (Signature { params: seq![ValType::I32], results: Seq::empty() })
            &&& v.name == Some("godot_wasm.free"@)
            &&& v.body == (FunctionBody::Local {
                args: seq![i],
                entry: v.body->entry,
                blocks: Map::<InstrSeqId, Seq<Op>>::empty().insert(
                    v.body->entry,
                    free_entry(i, some, none),
                ).insert(some, free_some(i, store)).insert(none, Seq::empty()),
            })
            &&& v.body->entry != some
            &&& v.body->entry != none
            &&& some != none
        }
}

/// Whether `v` is the function `get` over the table that `store` names.
pub open spec fn is_get(v: FunctionView, store: SlotStore) -> bool {
    exists|i: LocalId, none: InstrSeqId, some: InstrSeqId|
        #![trigger get_entry(i, none, some)]
        {
            &&& v.typed
            &&& v.sig == (Signature { params: seq![ValType::I32], results: seq![ValType::Externref] })
            &&& v.name == Some("godot_wasm.get"@)
            &&& v.body == (FunctionBody::Local {
                args: seq![i],
                entry: v.body->entry,
                blocks: Map::<InstrSeqId, Seq<Op>>::empty().insert(
                    v.body->entry,
                    get_entry(i, none, some),
                ).insert(none, seq![Op::RefNull(ValType::Externref)]).insert(
                    some,
                    get_some(i, store),
                ),
            })
            &&& v.body->entry != some
            &&& v.body->entry != none
            &&& some != none
        }
}

/// A walk over the body of `get` gets through its three blocks.
pub proof fn lemma_get_ends(v: FunctionView, store: SlotStore)
    requires
        is_get(v, store),
    ensures
        ends(v.body->blocks, seq![v.body->entry], WALK_BUDGET as nat),
{
    let (i, none, some) = choose|i: LocalId, none: InstrSeqId, some: InstrSeqId|
        #![trigger get_entry(i, none, some)]
        v.body == (FunctionBody::Local {
            args: seq![i],
            entry: v.body->entry,
            blocks: Map::<InstrSeqId, Seq<Op>>::empty().insert(
                v.body->entry,
                get_entry(i, none, some),
            ).insert(none, seq![Op::RefNull(ValType::Externref)]).insert(some, get_some(i, store)),
        }) && v.body->entry != some && v.body->entry != none && some != none;
    let blocks = v.body->blocks;
    let entry = v.body->entry;
    let budget = WALK_BUDGET as nat;
    lemma_one_child(get_entry(i, none, some), 2);
    lemma_flat_children(seq![Op::RefNull(ValType::Externref)]);
    lemma_flat_children(get_some(i, store));
    let s0 = seq![entry];
    let s1 = seq![some, none];
    let s2 = seq![some];
    let s3 = Seq::<InstrSeqId>::empty();
    assert(s0.drop_last() + children(blocks[s0.last()]) =~= s1);
    assert(s1.drop_last() + children(blocks[s1.last()]) =~= s2);
    assert(s2.drop_last() + children(blocks[s2.last()]) =~= s3);
    assert(ends(blocks, s3, (budget - 3) as nat));
    assert(ends(blocks, s2, (budget - 2) as nat));
    assert(ends(blocks, s1, (budget - 1) as nat));
    assert(ends(blocks, s0, budget));
}

/// A walk over the body of `free` gets through its three blocks.
pub proof fn lemma_free_ends(v: FunctionView, store: SlotStore)
    requires
        is_free(v, store),
    ensures
        ends(v.body->blocks, seq![v.body->entry], WALK_BUDGET as nat),
{
    let (i, some, none) = choose|i: LocalId, some: InstrSeqId, none: InstrSeqId|
        #![trigger free_entry(i, some, none)]
        v.body == (FunctionBody::Local {
            args: seq![i],
            entry: v.body->entry,
            blocks: Map::<InstrSeqId, Seq<Op>>::empty().insert(
                v.body->entry,
                free_entry(i, some, none),
            ).insert(some, free_some(i, store)).insert(none, Seq::empty()),
        }) && v.body->entry != some && v.body->entry != none && some != none;
    let blocks = v.body->blocks;
    let entry = v.body->entry;
    let budget = WALK_BUDGET as nat;
    lemma_one_child(free_entry(i, some, none), 1);
    lemma_flat_children(free_some(i, store));
    lemma_flat_children(Seq::<Op>::empty());
    let s0 = seq![entry];
    let s1 = seq![none, some];
    let s2 = seq![none];
    let s3 = Seq::<InstrSeqId>::empty();
    assert(s0.drop_last() + children(blocks[s0.last()]) =~= s1);
    assert(s1.drop_last() + children(blocks[s1.last()]) =~= s2);
    assert(s2.drop_last() + children(blocks[s2.last()]) =~= s3);
    assert(ends(blocks, s3, (budget - 3) as nat));
    assert(ends(blocks, s2, (budget - 2) as nat));
    assert(ends(blocks, s1, (budget - 1) as nat));
    assert(ends(blocks, s0, budget));
}

/// A walk over the body of `alloc` gets through its seven blocks.
pub proof fn lemma_alloc_ends(v: FunctionView, store: SlotStore)
    requires
        is_alloc(v, store),
    ensures
        ends(v.body->blocks, seq![v.body->entry], WALK_BUDGET as nat),
{
    let (e, i, none, some, grow, pop, trap, go_on) = choose|
        e: LocalId,
        i: LocalId,
        none: InstrSeqId,
        some: InstrSeqId,
        grow: InstrSeqId,
        pop: InstrSeqId,
        trap: InstrSeqId,
        go_on: InstrSeqId,
    |
        #![trigger alloc_entry(e, none, some), alloc_some(e, i, grow, pop, store), alloc_grow(i, trap, go_on, store)]
        v.body == (FunctionBody::Local {
            args: seq![e],
            entry: v.body->entry,
            blocks: Map::<InstrSeqId, Seq<Op>>::empty().insert(
                v.body->entry,
                alloc_entry(e, none, some),
            ).insert(none, seq![Op::I32Const(0)]).insert(
                some,
                alloc_some(e, i, grow, pop, store),
            ).insert(grow, alloc_grow(i, trap, go_on, store)).insert(
                pop,
                alloc_pop(i, store),
            ).insert(trap, seq![Op::Unreachable]).insert(go_on, Seq::empty()),
        }) && distinct7(v.body->entry, none, some, grow, pop, trap, go_on);
    let blocks = v.body->blocks;
    let entry = v.body->entry;
    let budget = WALK_BUDGET as nat;
    let ids = seq![entry, none, some, grow, pop, trap, go_on];
    assert(ids[0] == entry && ids[1] == none && ids[2] == some && ids[3] == grow && ids[4] == pop
        && ids[5] == trap && ids[6] == go_on);
    lemma_one_child(alloc_entry(e, none, some), 2);
    lemma_flat_children(seq![Op::I32Const(0)]);
    lemma_one_child(alloc_some(e, i, grow, pop, store), 4);
    lemma_one_child(alloc_grow(i, trap, go_on, store), 6);
    lemma_flat_children(alloc_pop(i, store));
    lemma_flat_children(seq![Op::Unreachable]);
    lemma_flat_children(Seq::<Op>::empty());
    assert(blocks[entry] == alloc_entry(e, none, some));
    assert(blocks[none] == seq![Op::I32Const(0)]);
    assert(blocks[some] == alloc_some(e, i, grow, pop, store));
    assert(blocks[grow] == alloc_grow(i, trap, go_on, store));
    assert(blocks[pop] == alloc_pop(i, store));
    assert(blocks[trap] == seq![Op::Unreachable]);
    assert(blocks[go_on] == Seq::<Op>::empty());
    let s0 = seq![entry];
    let s1 = seq![some, none];
    let s2 = seq![some];
    let s3 = seq![pop, grow];
    let s4 = seq![pop, go_on, trap];
    let s5 = seq![pop, go_on];
    let s6 = seq![pop];
    let s7 = Seq::<InstrSeqId>::empty();
    assert(s0.drop_last() + children(blocks[s0.last()]) =~= s1);
    assert(s1.drop_last() + children(blocks[s1.last()]) =~= s2);
    assert(s2.drop_last() + children(blocks[s2.last()]) =~= s3);
    assert(s3.drop_last() + children(blocks[s3.last()]) =~= s4);
    assert(s4.drop_last() + children(blocks[s4.last()]) =~= s5);
    assert(s5.drop_last() + children(blocks[s5.last()]) =~= s6);
    assert(s6.drop_last() + children(blocks[s6.last()]) =~= s7);
    assert(ends(blocks, s7, (budget - 7) as nat));
    assert(ends(blocks, s6, (budget - 6) as nat));
    assert(ends(blocks, s5, (budget - 5) as nat));
    assert(ends(blocks, s4, (budget - 4) as nat));
    assert(ends(blocks, s3, (budget - 3) as nat));
    assert(ends(blocks, s2, (budget - 2) as nat));
    assert(ends(blocks, s1, (budget - 1) as nat));
    assert(ends(blocks, s0, budget));
}

/// `get` calls no function.
pub proof fn lemma_get_plain(v: FunctionView, store: SlotStore)
    requires
        is_get(v, store),
    ensures
        calls_nothing(v),
{
    let (i, none, some) = choose|i: LocalId, none: InstrSeqId, some: InstrSeqId|
        #![trigger get_entry(i, none, some)]
        v.body == (FunctionBody::Local {
            args: seq![i],
            entry: v.body->entry,
            blocks: Map::<InstrSeqId, Seq<Op>>::empty().insert(
                v.body->entry,
                get_entry(i, none, some),
            ).insert(none, seq![Op::RefNull(ValType::Externref)]).insert(some, get_some(i, store)),
        });
    assert(plain(get_entry(i, none, some)));
    assert(plain(seq![Op::RefNull(ValType::Externref)]));
    assert(plain(get_some(i, store)));
}

/// `free` calls no function.
pub proof fn lemma_free_plain(v: FunctionView, store: SlotStore)
    requires
        is_free(v, store),
    ensures
        calls_nothing(v),
{
    let (i, some, none) = choose|i: LocalId, some: InstrSeqId, none: InstrSeqId|
        #![trigger free_entry(i, some, none)]
        v.body == (FunctionBody::Local {
            args: seq![i],
            entry: v.body->entry,
            blocks: Map::<InstrSeqId, Seq<Op>>::empty().insert(
                v.body->entry,
                free_entry(i, some, none),
            ).insert(some, free_some(i, store)).insert(none, Seq::empty()),
        });
    assert(plain(free_entry(i, some, none)));
    assert(plain(free_some(i, store)));
    assert(plain(Seq::<Op>::empty()));
}

/// `alloc` calls no function.
pub proof fn lemma_alloc_plain(v: FunctionView, store: SlotStore)
    requires
        is_alloc(v, store),
    ensures
        calls_nothing(v),
{
    let (e, i, none, some, grow, pop, trap, go_on) = choose|
        e: LocalId,
        i: LocalId,
        none: InstrSeqId,
        some: InstrSeqId,
        grow: InstrSeqId,
        pop: InstrSeqId,
        trap: InstrSeqId,
        go_on: InstrSeqId,
    |
        #![trigger alloc_entry(e, none, some), alloc_some(e, i, grow, pop, store), alloc_grow(i, trap, go_on, store)]
        v.body == (FunctionBody::Local {
            args: seq![e],
            entry: v.body->entry,
            blocks: Map::<InstrSeqId, Seq<Op>>::empty().insert(
                v.body->entry,
                alloc_entry(e, none, some),
            ).insert(none, seq![Op::I32Const(0)]).insert(
                some,
                alloc_some(e, i, grow, pop, store),
            ).insert(grow, alloc_grow(i, trap, go_on, store)).insert(
                pop,
                alloc_pop(i, store),
            ).insert(trap, seq![Op::Unreachable]).insert(go_on, Seq::empty()),
        });
    assert(plain(alloc_entry(e, none, some)));
    assert(plain(seq![Op::I32Const(0)]));
    assert(plain(alloc_some(e, i, grow, pop, store)));
    assert(plain(alloc_grow(i, trap, go_on, store)));
    assert(plain(alloc_pop(i, store)));
    assert(plain(seq![Op::Unreachable]));
    assert(plain(Seq::<Op>::empty()));
}

/// Whether the three functions of the slot table are functions of `view`.
pub open spec fn runtime_held(view: ModuleView, runtime: RuntimeData) -> bool {
    &&& view.funcs.dom().contains(runtime.alloc_func)
    &&& view.funcs.dom().contains(runtime.free_func)
    &&& view.funcs.dom().contains(runtime.get_func)
    &&& is_alloc(view.funcs[runtime.alloc_func], runtime.store())
    &&& is_free(view.funcs[runtime.free_func], runtime.store())
    &&& is_get(view.funcs[runtime.get_func], runtime.store())
}

/// The three functions of the slot table stay in a module that keeps the
/// functions that call nothing.
pub proof fn lemma_runtime_kept(old: ModuleView, new: ModuleView, runtime: RuntimeData)
    requires
        runtime_held(old, runtime),
        plain_kept(old, new),
    ensures
        runtime_held(new, runtime),
{
    lemma_alloc_plain(old.funcs[runtime.alloc_func], runtime.store());
    lemma_free_plain(old.funcs[runtime.free_func], runtime.store());
    lemma_get_plain(old.funcs[runtime.get_func], runtime.store());
}

/// Adds the function `get` to the module.
pub fn add_get(module: &mut Module, store: SlotStore) -> (f: FunctionId)
    ensures
        !contents(*old(module)).funcs.dom().contains(f),
        contents(*final(module)) == (ModuleView {
            funcs: contents(*old(module)).funcs.insert(f, contents(*final(module)).funcs[f]),
            func_order: contents(*old(module)).func_order.push(f),
            locals: contents(*final(module)).locals,
            ..contents(*old(module))
        }),
        contents(*old(module)).locals.submap_of(contents(*final(module)).locals),
        is_get(contents(*final(module)).funcs[f], store),
        function_wf(contents(*final(module)).funcs[f]),
        typed(
            contents(*final(module)).locals,
            contents(*final(module)).funcs[f].body->args,
            contents(*final(module)).funcs[f].sig.params,
        ),
{
    let i = add_local(module, ValType::I32);
    let params: Vec<ValType> = vec![ValType::I32];
    let results: Vec<ValType> = vec![ValType::Externref];
    let mut builder = new_builder(module, params.as_slice(), results.as_slice());
    set_name(&mut builder, "godot_wasm.get".to_owned());
    let entry = entry_block(&builder);
    let none = new_block(&mut builder, Some(ValType::Externref));
    let some = new_block(&mut builder, Some(ValType::Externref));
    assert(entry != none && entry != some && none != some);
    let ghost empty = building(builder).blocks;
    assert(empty =~= Map::<InstrSeqId, Seq<Op>>::empty().insert(entry, Seq::empty()).insert(
        none,
        Seq::empty(),
    ).insert(some, Seq::empty()));
    let none_code: Vec<Op> = vec![Op::RefNull(ValType::Externref)];
    let some_code: Vec<Op> = vec![
        Op::LocalGet(i),
        Op::I32Const(1),
        Op::Binop(BinaryOp::I32Sub),
        Op::TableGet(store.table),
    ];
    let entry_code: Vec<Op> = vec![
        Op::LocalGet(i),
        Op::Unop(UnaryOp::I32Eqz),
        Op::IfElse(none, some),
    ];
    emit_all(&mut builder, none, &none_code);
    emit_all(&mut builder, some, &some_code);
    emit_all(&mut builder, entry, &entry_code);
    let ghost built = building(builder);
    let args: Vec<LocalId> = vec![i];
    let f = finish(builder, args, module);
    proof {
        let v = contents(*module).funcs[f];
        let blocks = Map::<InstrSeqId, Seq<Op>>::empty().insert(entry, get_entry(i, none, some)).insert(
            none,
            seq![Op::RefNull(ValType::Externref)],
        ).insert(some, get_some(i, store));
        assert(Seq::<Op>::empty() + none_code@ =~= none_code@);
        assert(Seq::<Op>::empty() + some_code@ =~= some_code@);
        assert(Seq::<Op>::empty() + entry_code@ =~= entry_code@);
        assert(get_entry(i, none, some) == entry_code@);
        assert(get_some(i, store) == some_code@);
        assert(none_code@ =~= seq![Op::RefNull(ValType::Externref)]);
        assert(built.blocks =~= empty.insert(none, none_code@).insert(some, some_code@).insert(
            entry,
            entry_code@,
        ));
        assert(built.blocks =~= blocks);
        assert(args@ =~= seq![i]);
        assert(v.body == (FunctionBody::Local { args: seq![i], entry, blocks }));
        assert(v.sig.params =~= seq![ValType::I32]);
        assert(v.sig.results =~= seq![ValType::Externref]);
        assert(is_get(v, store));
        lemma_get_ends(v, store);
        assert(closed(blocks)) by {
            assert forall|s: InstrSeqId, x: int, k: int|
                blocks.dom().contains(s) && 0 <= x < blocks[s].len() && 0 <= k < op_children(
                    blocks[s][x],
                ).len() implies blocks.dom().contains(#[trigger] op_children(blocks[s][x])[k]) by {
                if s == some {
                } else if s == none {
                } else {
                    assert(s == entry);
                }
            }
        }
    }
    f
}

/// Adds the function `free` to the module.
pub fn add_free(module: &mut Module, store: SlotStore) -> (f: FunctionId)
    ensures
        !contents(*old(module)).funcs.dom().contains(f),
        contents(*final(module)) == (ModuleView {
            funcs: contents(*old(module)).funcs.insert(f, contents(*final(module)).funcs[f]),
            func_order: contents(*old(module)).func_order.push(f),
            locals: contents(*final(module)).locals,
            ..contents(*old(module))
        }),
        contents(*old(module)).locals.submap_of(contents(*final(module)).locals),
        is_free(contents(*final(module)).funcs[f], store),
        function_wf(contents(*final(module)).funcs[f]),
        typed(
            contents(*final(module)).locals,
            contents(*final(module)).funcs[f].body->args,
            contents(*final(module)).funcs[f].sig.params,
        ),
{
    let i = add_local(module, ValType::I32);
    let params: Vec<ValType> = vec![ValType::I32];
    let results: Vec<ValType> = Vec::new();
    let mut builder = new_builder(module, params.as_slice(), results.as_slice());
    set_name(&mut builder, "godot_wasm.free".to_owned());
    let entry = entry_block(&builder);
    let some = new_block(&mut builder, None);
    let none = new_block(&mut builder, None);
    let some_code: Vec<Op> = vec![
        Op::LocalGet(i),
        Op::I32Const(1),
        Op::Binop(BinaryOp::I32Sub),
        Op::LocalTee(i),
        Op::RefNull(ValType::Externref),
        Op::TableSet(store.table),
        Op::LocalGet(i),
        Op::I32Const(2),
        Op::Binop(BinaryOp::I32Mul),
        Op::GlobalGet(store.head),
        Op::Store(
            store.links,
            StoreKind::I32_16 { atomic: false },
            MemArg { align: 1, offset: 0 },
        ),
        Op::LocalGet(i),
        Op::GlobalSet(store.head),
    ];
    let entry_code: Vec<Op> = vec![Op::LocalGet(i), Op::IfElse(some, none)];
    emit_all(&mut builder, some, &some_code);
    emit_all(&mut builder, entry, &entry_code);
    let ghost built = building(builder);
    let args: Vec<LocalId> = vec![i];
    let f = finish(builder, args, module);
    proof {
        let v = contents(*module).funcs[f];
        let blocks = Map::<InstrSeqId, Seq<Op>>::empty().insert(entry, free_entry(i, some, none)).insert(
            some,
            free_some(i, store),
        ).insert(none, Seq::empty());
        assert(Seq::<Op>::empty() + some_code@ =~= some_code@);
        assert(Seq::<Op>::empty() + entry_code@ =~= entry_code@);
        assert(built.blocks =~= blocks);
        assert(args@ =~= seq![i]);
        assert(v.body == (FunctionBody::Local { args: seq![i], entry, blocks }));
        assert(free_entry(i, some, none) == entry_code@);
        assert(free_some(i, store) == some_code@);
        assert(v.sig.params =~= seq![ValType::I32]);
        assert(v.sig.results =~= Seq::<ValType>::empty());
        assert(is_free(v, store));
        lemma_free_ends(v, store);
        assert(closed(blocks)) by {
            assert forall|s: InstrSeqId, x: int, k: int|
                blocks.dom().contains(s) && 0 <= x < blocks[s].len() && 0 <= k < op_children(
                    blocks[s][x],
                ).len() implies blocks.dom().contains(#[trigger] op_children(blocks[s][x])[k]) by {
                if s == some {
                } else if s == none {
                } else {
                    assert(s == entry);
                }
            }
        }
    }
    f
}

/// Adds the function `alloc` to the module.
pub fn add_alloc(module: &mut Module, store: SlotStore) -> (f: FunctionId)
    ensures
        !contents(*old(module)).funcs.dom().contains(f),
        contents(*final(module)) == (ModuleView {
            funcs: contents(*old(module)).funcs.insert(f, contents(*final(module)).funcs[f]),
            func_order: contents(*old(module)).func_order.push(f),
            locals: contents(*final(module)).locals,
            ..contents(*old(module))
        }),
        contents(*old(module)).locals.submap_of(contents(*final(module)).locals),
        is_alloc(contents(*final(module)).funcs[f], store),
        function_wf(contents(*final(module)).funcs[f]),
        typed(
            contents(*final(module)).locals,
            contents(*final(module)).funcs[f].body->args,
            contents(*final(module)).funcs[f].sig.params,
        ),
{
    let ghost start = contents(*module);
    let e = add_local(module, ValType::Externref);
    let ghost with_e = contents(*module);
    let i = add_local(module, ValType::I32);
    let params: Vec<ValType> = vec![ValType::Externref];
    let results: Vec<ValType> = vec![ValType::I32];
    let mut builder = new_builder(module, params.as_slice(), results.as_slice());
    set_name(&mut builder, "godot_wasm.alloc".to_owned());
    let entry = entry_block(&builder);
    let none = new_block(&mut builder, Some(ValType::I32));
    let some = new_block(&mut builder, Some(ValType::I32));
    let grow = new_block(&mut builder, None);
    let pop = new_block(&mut builder, None);
    let trap = new_block(&mut builder, None);
    let go_on = new_block(&mut builder, None);
    assert(distinct7(entry, none, some, grow, pop, trap, go_on));
    let ghost empty = building(builder).blocks;
    assert(empty =~= Map::<InstrSeqId, Seq<Op>>::empty().insert(entry, Seq::empty()).insert(
        none,
        Seq::empty(),
    ).insert(some, Seq::empty()).insert(grow, Seq::empty()).insert(pop, Seq::empty()).insert(
        trap,
        Seq::empty(),
    ).insert(go_on, Seq::empty()));
    let none_code: Vec<Op> = vec![Op::I32Const(0)];
    let trap_code: Vec<Op> = vec![Op::Unreachable];
    let pop_code: Vec<Op> = vec![
        Op::LocalGet(i),
        Op::I32Const(2),
        Op::Binop(BinaryOp::I32Mul),
        Op::Load(
            store.links,
            LoadKind::I32_16 { kind: ExtendedLoad::ZeroExtend },
            MemArg { align: 1, offset: 0 },
        ),
        Op::GlobalSet(store.head),
    ];
    let grow_code: Vec<Op> = vec![
        Op::RefNull(ValType::Externref),
        Op::I32Const(1),
        Op::TableGrow(store.table),
        Op::LocalTee(i),
        Op::I32Const(GROW_FAILED),
        Op::Binop(BinaryOp::I32Eq),
        Op::IfElse(trap, go_on),
    ];
    let some_code: Vec<Op> = vec![
        Op::GlobalGet(store.head),
        Op::LocalTee(i),
        Op::TableSize(store.table),
        Op::Binop(BinaryOp::I32GeU),
        Op::IfElse(grow, pop),
        Op::LocalGet(i),
        Op::LocalGet(e),
        Op::TableSet(store.table),
        Op::LocalGet(i),
        Op::I32Const(2),
        Op::Binop(BinaryOp::I32Mul),
        Op::I32Const(EMPTY),
        Op::Store(
            store.links,
            StoreKind::I32_16 { atomic: false },
            MemArg { align: 1, offset: 0 },
        ),
        Op::LocalGet(i),
        Op::I32Const(1),
        Op::Binop(BinaryOp::I32Add),
    ];
    let entry_code: Vec<Op> = vec![Op::LocalGet(e), Op::RefIsNull, Op::IfElse(none, some)];
    emit_all(&mut builder, none, &none_code);
    emit_all(&mut builder, trap, &trap_code);
    emit_all(&mut builder, pop, &pop_code);
    emit_all(&mut builder, grow, &grow_code);
    emit_all(&mut builder, some, &some_code);
    emit_all(&mut builder, entry, &entry_code);
    let ghost built = building(builder);
    let args: Vec<LocalId> = vec![e];
    let f = finish(builder, args, module);
    proof {
        let v = contents(*module).funcs[f];
        let blocks = Map::<InstrSeqId, Seq<Op>>::empty().insert(entry, alloc_entry(e, none, some)).insert(
            none,
            seq![Op::I32Const(0)],
        ).insert(some, alloc_some(e, i, grow, pop, store)).insert(
            grow,
            alloc_grow(i, trap, go_on, store),
        ).insert(pop, alloc_pop(i, store)).insert(trap, seq![Op::Unreachable]).insert(
            go_on,
            Seq::empty(),
        );
        assert(Seq::<Op>::empty() + none_code@ =~= none_code@);
        assert(Seq::<Op>::empty() + trap_code@ =~= trap_code@);
        assert(Seq::<Op>::empty() + pop_code@ =~= pop_code@);
        assert(Seq::<Op>::empty() + grow_code@ =~= grow_code@);
        assert(Seq::<Op>::empty() + some_code@ =~= some_code@);
        assert(Seq::<Op>::empty() + entry_code@ =~= entry_code@);
        assert(alloc_entry(e, none, some) == entry_code@);
        assert(alloc_some(e, i, grow, pop, store) == some_code@);
        assert(alloc_grow(i, trap, go_on, store) == grow_code@);
        assert(alloc_pop(i, store) == pop_code@);
        assert(none_code@ =~= seq![Op::I32Const(0)]);
        assert(trap_code@ =~= seq![Op::Unreachable]);
        assert(built.blocks =~= empty.insert(none, none_code@).insert(trap, trap_code@).insert(
            pop,
            pop_code@,
        ).insert(grow, grow_code@).insert(some, some_code@).insert(entry, entry_code@));
        assert(built.blocks =~= blocks);
        assert(args@ =~= seq![e]);
        assert(v.body == (FunctionBody::Local { args: seq![e], entry, blocks }));
        assert(v.sig.params =~= seq![ValType::Externref]);
        assert(v.sig.results =~= seq![ValType::I32]);
        assert(distinct7(entry, none, some, grow, pop, trap, go_on));
        assert(e != i) by {
            assert(with_e.locals.dom().contains(e));
        }
        assert(is_alloc(v, store));
        lemma_alloc_ends(v, store);
        assert(closed(blocks)) by {
            assert forall|s: InstrSeqId, x: int, k: int|
                blocks.dom().contains(s) && 0 <= x < blocks[s].len() && 0 <= k < op_children(
                    blocks[s][x],
                ).len() implies blocks.dom().contains(#[trigger] op_children(blocks[s][x])[k]) by {
                if s == go_on {
                } else if s == trap {
                } else if s == pop {
                } else if s == grow {
                } else if s == some {
                } else if s == none {
                } else {
                    assert(s == entry);
                }
            }
        }
        assert(start.locals.submap_of(contents(*module).locals)) by {
            assert forall|k: LocalId| start.locals.dom().contains(k) implies #[trigger] contents(
                *module,
            ).locals.dom().contains(k) && start.locals[k] == contents(*module).locals[k] by {
                assert(with_e.locals.dom().contains(k));
            }
        }
    }
    f
}

/// Whether `mid` is `old` with the slot table installed as `runtime` says:
/// the table of references, the memory of links, the segment that declares
/// helpers, the two scratch globals and the head of the free list are new,
/// and so are the three functions.
pub open spec fn runtime_installed(old: ModuleView, mid: ModuleView, runtime: RuntimeData) -> bool {
    let scratch = GlobalView { ty: ValType::I32, mutable: true, init: GlobalInit::I32(0) };
    let head = GlobalView { ty: ValType::I32, mutable: true, init: GlobalInit::I32(EMPTY) };
    &&& !old.tables.dom().contains(runtime.extern_table)
    &&& !old.memories.dom().contains(runtime.extern_memory)
    &&& !old.elements.dom().contains(runtime.declare_funcs)
    &&& !old.globals.dom().contains(runtime.index_global)
    &&& !old.globals.dom().contains(runtime.limit_global)
    &&& !old.globals.dom().contains(runtime.head_global)
    &&& !old.funcs.dom().contains(runtime.alloc_func)
    &&& !old.funcs.dom().contains(runtime.free_func)
    &&& !old.funcs.dom().contains(runtime.get_func)
    &&& seq![runtime.index_global, runtime.limit_global, runtime.head_global].no_duplicates()
    &&& seq![runtime.alloc_func, runtime.free_func, runtime.get_func].no_duplicates()
    &&& mid == (ModuleView {
        tables: old.tables.insert(
            runtime.extern_table,
            TableView { initial: 0, maximum: Some(MAX_SLOTS), element: ValType::Externref },
        ),
        memories: old.memories.insert(
            runtime.extern_memory,
            MemoryView { shared: false, initial: LINK_PAGES, maximum: None },
        ),
        elements: old.elements.insert(
            runtime.declare_funcs,
            ElementView { kind: ElementKind::Declared, ty: ValType::Funcref, members: Seq::empty() },
        ),
        element_order: old.element_order.push(runtime.declare_funcs),
        globals: old.globals.insert(runtime.index_global, scratch).insert(
            runtime.limit_global,
            scratch,
        ).insert(runtime.head_global, head),
        global_order: old.global_order.push(runtime.index_global).push(
            runtime.limit_global,
        ).push(runtime.head_global),
        funcs: old.funcs.insert(runtime.alloc_func, mid.funcs[runtime.alloc_func]).insert(
            runtime.free_func,
            mid.funcs[runtime.free_func],
        ).insert(runtime.get_func, mid.funcs[runtime.get_func]),
        func_order: old.func_order.push(runtime.alloc_func).push(runtime.free_func).push(
            runtime.get_func,
        ),
        locals: mid.locals,
        ..old
    })
    &&& old.locals.submap_of(mid.locals)
    &&& is_alloc(mid.funcs[runtime.alloc_func], runtime.store())
    &&& is_free(mid.funcs[runtime.free_func], runtime.store())
    &&& is_get(mid.funcs[runtime.get_func], runtime.store())
}

/// Installs the slot table and its three functions in the module, and
/// replaces the host's fixed imports by adapters that use them.
///
/// The module must export its memory under the name `memory`: the adapters
/// that move batches of slots work in it. The function that a fixed import
/// brought in is deleted, so no export may hand out the function of an
/// import that the catalogue names.
pub fn add_runtime(module: &mut Module) -> (r: Result<RuntimeData, RewriteError>)
    requires
        wf(contents(*old(module))),
        exports_spare(contents(*old(module)), catalogue_names()),
    ensures
        contents(*final(module)).exports == contents(*old(module)).exports,
        contents(*final(module)).export_order == contents(*old(module)).export_order,
        imports_renewed(contents(*old(module)), contents(*final(module))),
        match r {
            Ok(runtime) => {
                &&& runtime_held(contents(*final(module)), runtime)
                &&& main_memory(contents(*old(module)), 0) == Some(runtime.main_memory)
                &&& exists|mid: ModuleView|
                    #![trigger runtime_installed(contents(*old(module)), mid, runtime)]
                    runtime_installed(contents(*old(module)), mid, runtime) && generated(
                        mid,
                        contents(*final(module)),
                        runtime,
                    )
                &&& contents(*final(module)).elements.dom().contains(runtime.declare_funcs)
            },
            Err(e) => {
                &&& e == RewriteError::NoMainMemory
                &&& main_memory(contents(*old(module)), 0) is None
                &&& contents(*final(module)) == contents(*old(module))
            },
        },
        wf(contents(*final(module))),
{
    let ghost start = contents(*module);
    let main_memory = match find_main_memory(module) {
        Some(m) => m,
        None => {
            return Err(RewriteError::NoMainMemory);
        },
    };
    let extern_table = add_table(module, 0, Some(MAX_SLOTS), ValType::Externref);
    let extern_memory = add_memory(module, false, LINK_PAGES, None);
    let declare_funcs = add_element(module, ElementKind::Declared, ValType::Funcref, Vec::new());
    let index_global = add_global_i32(module, true, 0);
    let limit_global = add_global_i32(module, true, 0);
    let head_global = add_global_i32(module, true, EMPTY);
    let ghost with_data = contents(*module);
    let store = SlotStore { table: extern_table, links: extern_memory, head: head_global };
    let alloc_func = add_alloc(module, store);
    let ghost with_alloc = contents(*module);
    let free_func = add_free(module, store);
    let ghost with_free = contents(*module);
    let get_func = add_get(module, store);
    let runtime = RuntimeData {
        main_memory,
        extern_table,
        extern_memory,
        declare_funcs,
        index_global,
        limit_global,
        head_global,
        alloc_func,
        free_func,
        get_func,
    };
    let ghost mid = contents(*module);
    proof {
        assert(runtime.store() == store);
        lemma_submap_trans(start.locals, with_alloc.locals, with_free.locals);
        lemma_submap_trans(start.locals, with_free.locals, mid.locals);
        lemma_submap_trans(with_alloc.locals, with_free.locals, mid.locals);
        lemma_typed_grown(
            with_alloc.locals,
            mid.locals,
            with_alloc.funcs[alloc_func].body->args,
            with_alloc.funcs[alloc_func].sig.params,
        );
        lemma_typed_grown(
            with_free.locals,
            mid.locals,
            with_free.funcs[free_func].body->args,
            with_free.funcs[free_func].sig.params,
        );
        assert(mid.funcs[alloc_func] == with_alloc.funcs[alloc_func]);
        assert(mid.funcs[free_func] == with_free.funcs[free_func]);
        assert(mid.funcs =~= start.funcs.insert(alloc_func, mid.funcs[alloc_func]).insert(
            free_func,
            mid.funcs[free_func],
        ).insert(get_func, mid.funcs[get_func]));
        assert(runtime_installed(start, mid, runtime));
        assert(start.funcs.submap_of(mid.funcs)) by {
            assert forall|f: FunctionId| start.funcs.dom().contains(f) implies #[trigger] mid.funcs.dom().contains(
                f,
            ) && start.funcs[f] == mid.funcs[f] by {
                assert(with_alloc.funcs.dom().contains(f));
                assert(with_free.funcs.dom().contains(f));
            }
        }
        assert forall|f: FunctionId|
            mid.funcs.dom().contains(f) && !start.funcs.dom().contains(f) implies function_wf(
            #[trigger] mid.funcs[f],
        ) by {
            if f == alloc_func {
                assert(mid.funcs[f] == with_alloc.funcs[f]);
            } else if f == free_func {
                assert(mid.funcs[f] == with_free.funcs[f]);
            }
        }
        lemma_wf_grown(start, mid);
        assert(runtime_held(mid, runtime));
        assert(exports_spare(mid, catalogue_names()));
    }
    let r = generate_imports(module, &runtime);
    proof {
        let end = contents(*module);
        lemma_runtime_kept(mid, end, runtime);
        assert forall|i: walrus::ImportId| end.imports.dom().contains(i) implies (
        start.imports.dom().contains(i) && (#[trigger] end.imports[i]) == start.imports[i])
            || match end.imports[i].kind {
            walrus::ImportKind::Function(g) => !start.funcs.dom().contains(g),
            _ => false,
        } by {
            if mid.imports.dom().contains(i) && end.imports[i] == mid.imports[i] {
            } else {
                match end.imports[i].kind {
                    walrus::ImportKind::Function(g) => {
                        if start.funcs.dom().contains(g) {
                            assert(mid.funcs.dom().contains(g));
                        }
                    },
                    _ => {},
                }
            }
        }
    }
    match r {
        Ok(()) => Ok(runtime),
        Err(e) => Err(e),
    }
}

} // verus!
