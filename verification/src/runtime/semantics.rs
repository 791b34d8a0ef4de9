//! What the generated code does when it runs: the meaning of the
//! instructions that the three functions are made of, and the proof that
//! the functions do to the module's table what [`SlotsView`] says.

use vstd::prelude::*;
use walrus::ir::{BinaryOp, ExtendedLoad, InstrSeqId, LoadKind, MemArg, StoreKind, UnaryOp};
use walrus::{LocalId, ValType};

use crate::runtime::slots::{
    lemma_alloc_fresh, lemma_alloc_get, lemma_free_alloc, lemma_free_wf, SlotsView, NO_ENTRY,
};
use crate::runtime::{
    alloc_entry, alloc_grow, alloc_pop, alloc_some, distinct7, free_entry, free_some, get_entry,
    get_some, is_alloc, is_free, is_get, SlotStore, EMPTY, GROW_FAILED, MAX_SLOTS,
};
use crate::wasm::{FunctionBody, FunctionView, Op};

verus! {

/// A value on the stack or in a local: a 32-bit integer, or a reference
/// that may be null.
pub enum Value<R> {
    I32(i32),
    Ref(Option<R>),
}

/// The state that the three functions work on.
pub struct Machine<R> {
    /// The operand stack, the top last.
    pub stack: Seq<Value<R>>,
    /// The locals of the running function.
    pub locals: Map<LocalId, Value<R>>,
    /// The table of references.
    pub table: Seq<Option<R>>,
    /// The memory of links, as sixteen-bit cells: cell `n` is the two bytes
    /// at address `2 * n`.
    pub cells: Seq<u16>,
    /// The global that holds the head of the list of free entries.
    pub head: i32,
}

/// How running a piece of code ends.
pub enum Outcome<R> {
    /// At its end, in this state.
    Done(Machine<R>),
    /// In a trap.
    Trap,
    /// Not at all: the code does something that this description of the
    /// machine does not cover.
    Stuck,
}

/// The integer `x` as thirty-two bits.
pub open spec fn wrap(x: int) -> i32 {
    let low = x % 0x1_0000_0000;
    if low >= 0x8000_0000 {
        (low - 0x1_0000_0000) as i32
    } else {
        low as i32
    }
}

/// Thirty-two bits as an unsigned integer.
pub open spec fn unsigned(x: i32) -> int {
    if x < 0 {
        x + 0x1_0000_0000
    } else {
        x as int
    }
}

/// What a binary operator makes of two integers, the second on top.
pub open spec fn binary(op: BinaryOp, a: i32, b: i32) -> Option<i32> {
    match op {
        BinaryOp::I32Add => Some(wrap(a + b)),
        BinaryOp::I32Sub => Some(wrap(a - b)),
        BinaryOp::I32Mul => Some(wrap(a * b)),
        BinaryOp::I32Eq => Some(if a == b { 1i32 } else { 0i32 }),
        BinaryOp::I32Ne => Some(if a != b { 1i32 } else { 0i32 }),
        BinaryOp::I32GeU => Some(if unsigned(a) >= unsigned(b) { 1i32 } else { 0i32 }),
        _ => None,
    }
}

impl<R> Machine<R> {
    /// This state with `v` on top of the stack.
    pub open spec fn push(self, v: Value<R>) -> Machine<R> {
        Machine { stack: self.stack.push(v), ..self }
    }

    /// This state without the top of the stack.
    pub open spec fn pop(self) -> Machine<R> {
        Machine { stack: self.stack.drop_last(), ..self }
    }

    /// The value `depth` below the top of the stack.
    pub open spec fn top(self, depth: int) -> Value<R> {
        self.stack[self.stack.len() - 1 - depth]
    }
}

/// What one instruction that is not a branch makes of a state. A table
/// grows whenever it is below its limit.
#[verifier::opaque]
pub open spec fn step<R>(op: Op, m: Machine<R>, store: SlotStore) -> Outcome<R> {
    match op {
        Op::I32Const(v) => Outcome::Done(m.push(Value::I32(v))),
        Op::LocalGet(l) => if m.locals.dom().contains(l) {
            Outcome::Done(m.push(m.locals[l]))
        } else {
            Outcome::Stuck
        },
        Op::LocalSet(l) => if m.stack.len() >= 1 {
            Outcome::Done(Machine { locals: m.locals.insert(l, m.top(0)), ..m.pop() })
        } else {
            Outcome::Stuck
        },
        Op::LocalTee(l) => if m.stack.len() >= 1 {
            Outcome::Done(Machine { locals: m.locals.insert(l, m.top(0)), ..m })
        } else {
            Outcome::Stuck
        },
        Op::GlobalGet(g) => if g == store.head {
            Outcome::Done(m.push(Value::I32(m.head)))
        } else {
            Outcome::Stuck
        },
        Op::GlobalSet(g) => if g == store.head && m.stack.len() >= 1 {
            match m.top(0) {
                Value::I32(v) => Outcome::Done(Machine { head: v, ..m.pop() }),
                _ => Outcome::Stuck,
            }
        } else {
            Outcome::Stuck
        },
        Op::Binop(o) => if m.stack.len() >= 2 {
            match (m.top(1), m.top(0), binary(o, m.top(1)->I32_0, m.top(0)->I32_0)) {
                (Value::I32(_), Value::I32(_), Some(r)) => Outcome::Done(
                    m.pop().pop().push(Value::I32(r)),
                ),
                _ => Outcome::Stuck,
            }
        } else {
            Outcome::Stuck
        },
        Op::Unop(o) => if m.stack.len() >= 1 {
            match (o, m.top(0)) {
                (UnaryOp::I32Eqz, Value::I32(v)) => Outcome::Done(
                    m.pop().push(Value::I32(if v == 0 { 1i32 } else { 0i32 })),
                ),
                _ => Outcome::Stuck,
            }
        } else {
            Outcome::Stuck
        },
        Op::RefNull(t) => Outcome::Done(m.push(Value::Ref(None))),
        Op::RefIsNull => if m.stack.len() >= 1 {
            match m.top(0) {
                Value::Ref(r) => Outcome::Done(
                    m.pop().push(Value::I32(if r is None { 1i32 } else { 0i32 })),
                ),
                _ => Outcome::Stuck,
            }
        } else {
            Outcome::Stuck
        },
        Op::TableSize(t) => if t == store.table && m.table.len() <= i32::MAX {
            Outcome::Done(m.push(Value::I32(m.table.len() as i32)))
        } else {
            Outcome::Stuck
        },
        Op::TableGet(t) => if t == store.table && m.stack.len() >= 1 {
            match m.top(0) {
                Value::I32(i) => if unsigned(i) < m.table.len() {
                    Outcome::Done(m.pop().push(Value::Ref(m.table[unsigned(i)])))
                } else {
                    Outcome::Trap
                },
                _ => Outcome::Stuck,
            }
        } else {
            Outcome::Stuck
        },
        Op::TableSet(t) => if t == store.table && m.stack.len() >= 2 {
            match (m.top(1), m.top(0)) {
                (Value::I32(i), Value::Ref(r)) => if unsigned(i) < m.table.len() {
                    Outcome::Done(
                        Machine { table: m.table.update(unsigned(i), r), ..m.pop().pop() },
                    )
                } else {
                    Outcome::Trap
                },
                _ => Outcome::Stuck,
            }
        } else {
            Outcome::Stuck
        },
        Op::TableGrow(t) => if t == store.table && m.stack.len() >= 2 {
            match (m.top(1), m.top(0)) {
                (Value::Ref(r), Value::I32(n)) => if n != 1 {
                    Outcome::Stuck
                } else if m.table.len() < MAX_SLOTS {
                    Outcome::Done(
                        Machine { table: m.table.push(r), ..m.pop().pop() }.push(
                            Value::I32(m.table.len() as i32),
                        ),
                    )
                } else {
                    Outcome::Done(m.pop().pop().push(Value::I32(-1i32)))
                },
                _ => Outcome::Stuck,
            }
        } else {
            Outcome::Stuck
        },
        Op::Load(memory, kind, arg) => if memory == store.links && kind == (LoadKind::I32_16 {
            kind: ExtendedLoad::ZeroExtend,
        }) && arg == (MemArg { align: 1, offset: 0 }) && m.stack.len() >= 1 {
            match m.top(0) {
                Value::I32(a) => if unsigned(a) % 2 != 0 {
                    Outcome::Stuck
                } else if unsigned(a) / 2 < m.cells.len() {
                    Outcome::Done(
                        m.pop().push(Value::I32(m.cells[unsigned(a) / 2] as i32)),
                    )
                } else {
                    Outcome::Trap
                },
                _ => Outcome::Stuck,
            }
        } else {
            Outcome::Stuck
        },
        Op::Store(memory, kind, arg) => if memory == store.links && kind == (StoreKind::I32_16 {
            atomic: false,
        }) && arg == (MemArg { align: 1, offset: 0 }) && m.stack.len() >= 2 {
            match (m.top(1), m.top(0)) {
                (Value::I32(a), Value::I32(v)) => if unsigned(a) % 2 != 0 {
                    Outcome::Stuck
                } else if unsigned(a) / 2 < m.cells.len() {
                    Outcome::Done(
                        Machine {
                            cells: m.cells.update(unsigned(a) / 2, (unsigned(v) % 0x1_0000) as u16),
                            ..m.pop().pop()
                        },
                    )
                } else {
                    Outcome::Trap
                },
                _ => Outcome::Stuck,
            }
        } else {
            Outcome::Stuck
        },
        Op::Unreachable => Outcome::Trap,
        _ => Outcome::Stuck,
    }
}

/// What running `code` from the instruction at `at` on makes of a state.
#[verifier::opaque]
/// An `if` takes the integer on top of the stack and runs the first of its
/// blocks where that is not zero, the second where it is; `depth` bounds
/// how deep such blocks are nested.
pub open spec fn run<R>(
    blocks: Map<InstrSeqId, Seq<Op>>,
    code: Seq<Op>,
    at: int,
    m: Machine<R>,
    store: SlotStore,
    depth: nat,
) -> Outcome<R>
    decreases depth, code.len() - at,
{
    if at < 0 || at >= code.len() {
        Outcome::Done(m)
    } else {
        match code[at] {
            Op::IfElse(then, other) => if depth == 0 || m.stack.len() < 1 {
                Outcome::Stuck
            } else {
                match m.top(0) {
                    Value::I32(c) => {
                        let taken = if c != 0 {
                            then
                        } else {
                            other
                        };
                        if blocks.dom().contains(taken) {
                            match run(blocks, blocks[taken], 0, m.pop(), store, (depth - 1) as nat) {
                                Outcome::Done(after) => run(
                                    blocks,
                                    code,
                                    at + 1,
                                    after,
                                    store,
                                    depth,
                                ),
                                ended => ended,
                            }
                        } else {
                            Outcome::Stuck
                        }
                    },
                    _ => Outcome::Stuck,
                }
            },
            op => match step(op, m, store) {
                Outcome::Done(after) => run(blocks, code, at + 1, after, store, depth),
                ended => ended,
            },
        }
    }
}

/// How deep the blocks of the three functions are nested.
pub const DEPTH: u64 = 3;

/// The locals of a function of one argument when it starts: the argument
/// in the first, zero in every other one.
pub open spec fn locals_at_start<R>(v: FunctionView, arg: Value<R>) -> Map<LocalId, Value<R>> {
    Map::new(|l: LocalId| true, |l: LocalId| if l == v.body->args[0] { arg } else { Value::I32(0) })
}

/// What calling a function of one argument makes of the table, the links
/// and the head, and what it leaves on the stack: the function runs from
/// its entry block.
pub open spec fn call<R>(
    v: FunctionView,
    arg: Value<R>,
    table: Seq<Option<R>>,
    cells: Seq<u16>,
    head: i32,
    store: SlotStore,
) -> Outcome<R> {
    run(
        v.body->blocks,
        v.body->blocks[v.body->entry],
        0,
        Machine { stack: Seq::empty(), locals: locals_at_start(v, arg), table, cells, head },
        store,
        DEPTH as nat,
    )
}

/// Whether the machine holds the slot table `slots`: the same table and
/// head, and the links of its entries in the first cells of a memory of two
/// pages.
pub open spec fn holds<R>(
    table: Seq<Option<R>>,
    cells: Seq<u16>,
    head: i32,
    slots: SlotsView<R>,
) -> bool {
    &&& table == slots.table
    &&& head == slots.head
    &&& cells.len() == 0x1_0000
    &&& forall|i: int| 0 <= i < slots.links.len() ==> #[trigger] cells[i] == slots.links[i]
}

/// Whether `outcome` is the end of a call that returns `result` and leaves
/// the slot table `slots`.
pub open spec fn ends_with<R>(
    outcome: Outcome<R>,
    result: Seq<Value<R>>,
    slots: SlotsView<R>,
) -> bool {
    match outcome {
        Outcome::Done(m) => m.stack == result && holds(m.table, m.cells, m.head, slots),
        _ => false,
    }
}

/// Running on from an instruction that is not a branch: the instruction
/// takes its step, and the code runs on behind it.
pub proof fn lemma_advance<R>(
    blocks: Map<InstrSeqId, Seq<Op>>,
    code: Seq<Op>,
    at: int,
    m: Machine<R>,
    next: Machine<R>,
    store: SlotStore,
    depth: nat,
)
    requires
        0 <= at < code.len(),
        !(code[at] is IfElse),
        step(code[at], m, store) == Outcome::Done(next),
    ensures
        run(blocks, code, at, m, store, depth) == run(blocks, code, at + 1, next, store, depth),
{
    reveal(run);
}

/// Running on from an instruction that traps ends in the trap.
pub proof fn lemma_trap<R>(
    blocks: Map<InstrSeqId, Seq<Op>>,
    code: Seq<Op>,
    at: int,
    m: Machine<R>,
    store: SlotStore,
    depth: nat,
)
    requires
        0 <= at < code.len(),
        code[at] == Op::Unreachable,
    ensures
        run(blocks, code, at, m, store, depth) == Outcome::<R>::Trap,
{
    reveal(run);
    reveal(step);
}

/// Running on from the end of the code is done.
pub proof fn lemma_finish<R>(
    blocks: Map<InstrSeqId, Seq<Op>>,
    code: Seq<Op>,
    m: Machine<R>,
    store: SlotStore,
    depth: nat,
)
    ensures
        run(blocks, code, code.len() as int, m, store, depth) == Outcome::Done(m),
{
    reveal(run);
}

/// Running on from an `if`: the block that the integer on top of the stack
/// selects runs, and the code runs on behind the `if`.
pub proof fn lemma_branch<R>(
    blocks: Map<InstrSeqId, Seq<Op>>,
    code: Seq<Op>,
    at: int,
    m: Machine<R>,
    taken: InstrSeqId,
    store: SlotStore,
    depth: nat,
)
    requires
        0 <= at < code.len(),
        depth > 0,
        m.stack.len() >= 1,
        blocks.dom().contains(taken),
        match (code[at], m.top(0)) {
            (Op::IfElse(then, other), Value::I32(c)) => taken == (if c != 0 {
                then
            } else {
                other
            }),
            _ => false,
        },
    ensures
        run(blocks, code, at, m, store, depth) == (match run(
            blocks,
            blocks[taken],
            0,
            m.pop(),
            store,
            (depth - 1) as nat,
        ) {
            Outcome::Done(after) => run(blocks, code, at + 1, after, store, depth),
            ended => ended,
        }),
{
    reveal(run);
}

/// The state of the machine with this stack, these locals, and this table,
/// memory of links and head.
pub open spec fn machine<R>(
    stack: Seq<Value<R>>,
    locals: Map<LocalId, Value<R>>,
    table: Seq<Option<R>>,
    cells: Seq<u16>,
    head: i32,
) -> Machine<R> {
    Machine { stack, locals, table, cells, head }
}

/// A constant is put on the stack.
proof fn lemma_const<R>(m: Machine<R>, store: SlotStore, v: i32)
    ensures
        step(Op::I32Const(v), m, store) == Outcome::Done(m.push(Value::I32(v))),
{
    reveal(step);
}

/// A local is put on the stack.
proof fn lemma_local_get<R>(m: Machine<R>, store: SlotStore, l: LocalId)
    requires
        m.locals.dom().contains(l),
    ensures
        step(Op::LocalGet(l), m, store) == Outcome::Done(m.push(m.locals[l])),
{
    reveal(step);
}

/// The top of the stack is kept in a local and stays where it is.
proof fn lemma_local_tee<R>(m: Machine<R>, store: SlotStore, l: LocalId)
    requires
        m.stack.len() >= 1,
    ensures
        step(Op::LocalTee(l), m, store) == Outcome::Done(
            machine(m.stack, m.locals.insert(l, m.top(0)), m.table, m.cells, m.head),
        ),
{
    reveal(step);
}

/// The head is put on the stack.
proof fn lemma_global_get<R>(m: Machine<R>, store: SlotStore)
    ensures
        step(Op::GlobalGet(store.head), m, store) == Outcome::Done(m.push(Value::I32(m.head))),
{
    reveal(step);
}

/// The top of the stack becomes the head.
proof fn lemma_global_set<R>(m: Machine<R>, store: SlotStore, v: i32)
    requires
        m.stack.len() >= 1,
        m.top(0) == Value::<R>::I32(v),
    ensures
        step(Op::GlobalSet(store.head), m, store) == Outcome::Done(
            machine(m.stack.drop_last(), m.locals, m.table, m.cells, v),
        ),
{
    reveal(step);
}

/// A binary operator takes two integers off the stack and leaves one.
proof fn lemma_binop<R>(m: Machine<R>, store: SlotStore, op: BinaryOp, a: i32, b: i32, r: i32)
    requires
        m.stack.len() >= 2,
        m.top(1) == Value::<R>::I32(a),
        m.top(0) == Value::<R>::I32(b),
        binary(op, a, b) == Some(r),
    ensures
        step(Op::Binop(op), m, store) == Outcome::Done(m.pop().pop().push(Value::I32(r))),
{
    reveal(step);
}

/// The test for zero takes an integer off the stack and leaves its verdict.
proof fn lemma_eqz<R>(m: Machine<R>, store: SlotStore, v: i32)
    requires
        m.stack.len() >= 1,
        m.top(0) == Value::<R>::I32(v),
    ensures
        step(Op::Unop(UnaryOp::I32Eqz), m, store) == Outcome::Done(
            m.pop().push(Value::I32(if v == 0 { 1i32 } else { 0i32 })),
        ),
{
    reveal(step);
}

/// The null reference is put on the stack.
proof fn lemma_ref_null<R>(m: Machine<R>, store: SlotStore)
    ensures
        step(Op::RefNull(ValType::Externref), m, store) == Outcome::Done(
            m.push(Value::Ref(None)),
        ),
{
    reveal(step);
}

/// The test for null takes a reference off the stack and leaves its verdict.
proof fn lemma_ref_is_null<R>(m: Machine<R>, store: SlotStore, r: Option<R>)
    requires
        m.stack.len() >= 1,
        m.top(0) == Value::Ref(r),
    ensures
        step(Op::RefIsNull, m, store) == Outcome::Done(
            m.pop().push(Value::I32(if r is None { 1i32 } else { 0i32 })),
        ),
{
    reveal(step);
}

/// The size of the table is put on the stack.
proof fn lemma_table_size<R>(m: Machine<R>, store: SlotStore)
    requires
        m.table.len() <= MAX_SLOTS,
    ensures
        step(Op::TableSize(store.table), m, store) == Outcome::Done(
            m.push(Value::I32(m.table.len() as i32)),
        ),
{
    reveal(step);
}

/// An entry of the table takes the place of its index on the stack.
proof fn lemma_table_get<R>(m: Machine<R>, store: SlotStore, at: int)
    requires
        m.stack.len() >= 1,
        0 <= at < m.table.len(),
        at <= MAX_SLOTS,
        m.top(0) == Value::<R>::I32(at as i32),
    ensures
        step(Op::TableGet(store.table), m, store) == Outcome::Done(
            m.pop().push(Value::Ref(m.table[at])),
        ),
{
    reveal(step);
}

/// A reference goes from the stack into the entry whose index is below it.
proof fn lemma_table_set<R>(m: Machine<R>, store: SlotStore, at: int, r: Option<R>)
    requires
        m.stack.len() >= 2,
        0 <= at < m.table.len(),
        at <= MAX_SLOTS,
        m.top(1) == Value::<R>::I32(at as i32),
        m.top(0) == Value::Ref(r),
    ensures
        step(Op::TableSet(store.table), m, store) == Outcome::Done(
            machine(m.stack.drop_last().drop_last(), m.locals, m.table.update(at, r), m.cells, m.head),
        ),
{
    reveal(step);
}

/// The table grows by one entry and its size before is left on the stack,
/// or it is full and the mark of failure is left there.
proof fn lemma_table_grow<R>(m: Machine<R>, store: SlotStore, r: Option<R>)
    requires
        m.stack.len() >= 2,
        m.table.len() <= MAX_SLOTS,
        m.top(1) == Value::Ref(r),
        m.top(0) == Value::<R>::I32(1),
    ensures
        step(Op::TableGrow(store.table), m, store) == Outcome::Done(
            if m.table.len() < MAX_SLOTS {
                machine(
                    m.stack.drop_last().drop_last().push(Value::I32(m.table.len() as i32)),
                    m.locals,
                    m.table.push(r),
                    m.cells,
                    m.head,
                )
            } else {
                m.pop().pop().push(Value::I32(GROW_FAILED))
            },
        ),
{
    reveal(step);
}

/// The link of an entry takes the place of its address on the stack.
proof fn lemma_load<R>(m: Machine<R>, store: SlotStore, at: int)
    requires
        m.stack.len() >= 1,
        0 <= at < m.cells.len(),
        at <= MAX_SLOTS,
        m.top(0) == Value::<R>::I32((at * 2) as i32),
    ensures
        step(
            Op::Load(
                store.links,
                LoadKind::I32_16 { kind: ExtendedLoad::ZeroExtend },
                MemArg { align: 1, offset: 0 },
            ),
            m,
            store,
        ) == Outcome::Done(m.pop().push(Value::I32(m.cells[at] as i32))),
{
    reveal(step);
}

/// An integer below sixteen bits goes from the stack into the link whose
/// address is below it.
proof fn lemma_store<R>(m: Machine<R>, store: SlotStore, at: int, v: i32)
    requires
        m.stack.len() >= 2,
        0 <= at < m.cells.len(),
        at <= MAX_SLOTS,
        0 <= v <= NO_ENTRY,
        m.top(1) == Value::<R>::I32((at * 2) as i32),
        m.top(0) == Value::<R>::I32(v),
    ensures
        step(
            Op::Store(store.links, StoreKind::I32_16 { atomic: false }, MemArg { align: 1, offset: 0 }),
            m,
            store,
        ) == Outcome::Done(
            machine(
                m.stack.drop_last().drop_last(),
                m.locals,
                m.table,
                m.cells.update(at, v as u16),
                m.head,
            ),
        ),
{
    reveal(step);
}

/// The generated `get` returns what [`SlotsView::get`] gives, and leaves the
/// table as it is.
pub proof fn lemma_get_runs<R>(
    v: FunctionView,
    store: SlotStore,
    slots: SlotsView<R>,
    cells: Seq<u16>,
    slot: u32,
)
    requires
        is_get(v, store),
        slots.wf(),
        holds(slots.table, cells, slots.head as i32, slots),
        slot <= slots.table.len(),
    ensures
        ends_with(
            call(v, Value::I32(slot as i32), slots.table, cells, slots.head as i32, store),
            seq![Value::Ref(slots.get(slot))],
            slots,
        ),
{
    let (i, none, some) = choose|i: LocalId, none: InstrSeqId, some: InstrSeqId|
        #![trigger get_entry(i, none, some)]
        {
            &&& v.body == (FunctionBody::Local {
                args: seq![i],
                entry: v.body->entry,
                blocks: Map::<InstrSeqId, Seq<Op>>::empty().insert(
                    v.body->entry,
                    get_entry(i, none, some),
                ).insert(none, seq![Op::RefNull(ValType::Externref)]).insert(
                    some,
                    get_some(i, store),
                ),
            })
            &&& v.body->entry != some
            &&& v.body->entry != none
            &&& some != none
        };
    let blocks = v.body->blocks;
    let code = blocks[v.body->entry];
    let arg = slot as i32;
    let idx = (slot - 1) as i32;
    let head = slots.head as i32;
    let table = slots.table;
    let locals = locals_at_start(v, Value::<R>::I32(arg));
    let depth = DEPTH as nat;
    assert(v.body->args[0] == i);
    assert(locals.dom().contains(i) && locals[i] == Value::<R>::I32(arg));
    assert(code == get_entry(i, none, some));
    let none_code = blocks[none];
    let some_code = blocks[some];
    assert(none_code == seq![Op::RefNull(ValType::Externref)]);
    assert(some_code == get_some(i, store));
    let flag = if slot == 0 {
        1i32
    } else {
        0i32
    };
    let start = machine(Seq::<Value<R>>::empty(), locals, table, cells, head);
    let end = machine(seq![Value::Ref(slots.get(slot))], locals, table, cells, head);
    let s0 = machine(seq![Value::<R>::I32(arg)], locals, table, cells, head);
    let s1 = machine(seq![Value::<R>::I32(flag)], locals, table, cells, head);
    assert(run(blocks, code, 0, start, store, depth) == run(blocks, code, 1, s0, store, depth)) by {
        lemma_local_get(start, store, i);
        assert(step(code[0], start, store) == Outcome::Done(s0)) by {
            assert(step(code[0], start, store)->Done_0.stack =~= s0.stack);
        }
        lemma_advance(blocks, code, 0, start, s0, store, depth);
    }
    assert(run(blocks, code, 1, s0, store, depth) == run(blocks, code, 2, s1, store, depth)) by {
        lemma_eqz(s0, store, arg);
        assert(step(code[1], s0, store) == Outcome::Done(s1)) by {
            assert(step(code[1], s0, store)->Done_0.stack =~= s1.stack);
        }
        lemma_advance(blocks, code, 1, s0, s1, store, depth);
    }
    assert(s1.pop() == start) by {
        assert(s1.pop().stack =~= start.stack);
    }
    if slot == 0 {
        assert(run(blocks, none_code, 0, start, store, 2) == Outcome::Done(end)) by {
            lemma_ref_null(start, store);
            assert(start.push(Value::Ref(None)).stack =~= end.stack);
            lemma_advance(blocks, none_code, 0, start, end, store, 2);
            lemma_finish(blocks, none_code, end, store, 2);
        }
        lemma_branch(blocks, code, 2, s1, none, store, depth);
        lemma_finish(blocks, code, end, store, depth);
    } else {
        let t0 = machine(seq![Value::<R>::I32(arg)], locals, table, cells, head);
        let t1 = machine(seq![Value::<R>::I32(arg), Value::<R>::I32(1)], locals, table, cells, head);
        let t2 = machine(seq![Value::<R>::I32(idx)], locals, table, cells, head);
        assert(run(blocks, some_code, 0, start, store, 2) == run(blocks, some_code, 1, t0, store, 2)) by {
            lemma_local_get(start, store, i);
            assert(step(some_code[0], start, store) == Outcome::Done(t0)) by {
                assert(step(some_code[0], start, store)->Done_0.stack =~= t0.stack);
            }
            lemma_advance(blocks, some_code, 0, start, t0, store, 2);
        }
        assert(run(blocks, some_code, 1, t0, store, 2) == run(blocks, some_code, 2, t1, store, 2)) by {
            lemma_const(t0, store, 1);
            assert(step(some_code[1], t0, store) == Outcome::Done(t1)) by {
                assert(step(some_code[1], t0, store)->Done_0.stack =~= t1.stack);
            }
            lemma_advance(blocks, some_code, 1, t0, t1, store, 2);
        }
        assert(run(blocks, some_code, 2, t1, store, 2) == run(blocks, some_code, 3, t2, store, 2)) by {
            assert(wrap(arg - 1) == idx);
            lemma_binop(t1, store, BinaryOp::I32Sub, arg, 1, idx);
            assert(step(some_code[2], t1, store) == Outcome::Done(t2)) by {
                assert(step(some_code[2], t1, store)->Done_0.stack =~= t2.stack);
            }
            lemma_advance(blocks, some_code, 2, t1, t2, store, 2);
        }
        assert(run(blocks, some_code, 3, t2, store, 2) == Outcome::Done(end)) by {
            lemma_table_get(t2, store, slot - 1);
            assert(t2.pop().push(Value::Ref(table[slot - 1])).stack =~= end.stack);
            lemma_advance(blocks, some_code, 3, t2, end, store, 2);
            lemma_finish(blocks, some_code, end, store, 2);
        }
        lemma_branch(blocks, code, 2, s1, some, store, depth);
        lemma_finish(blocks, code, end, store, depth);
    }
}

/// The generated `free` does to the table what [`SlotsView::free`] says,
/// and returns nothing.
pub proof fn lemma_free_runs<R>(
    v: FunctionView,
    store: SlotStore,
    slots: SlotsView<R>,
    cells: Seq<u16>,
    slot: u32,
)
    requires
        is_free(v, store),
        slots.wf(),
        holds(slots.table, cells, slots.head as i32, slots),
        slot == 0 || slots.in_use(slot),
    ensures
        ends_with(
            call(v, Value::I32(slot as i32), slots.table, cells, slots.head as i32, store),
            Seq::empty(),
            slots.free(slot),
        ),
{
    let (i, some, none) = choose|i: LocalId, some: InstrSeqId, none: InstrSeqId|
        #![trigger free_entry(i, some, none)]
        {
            &&& v.body == (FunctionBody::Local {
                args: seq![i],
                entry: v.body->entry,
                blocks: Map::<InstrSeqId, Seq<Op>>::empty().insert(
                    v.body->entry,
                    free_entry(i, some, none),
                ).insert(some, free_some(i, store)).insert(none, Seq::empty()),
            })
            &&& v.body->entry != some
            &&& v.body->entry != none
            &&& some != none
        };
    let blocks = v.body->blocks;
    let code = blocks[v.body->entry];
    let arg = slot as i32;
    let head = slots.head as i32;
    let table = slots.table;
    let locals = locals_at_start(v, Value::<R>::I32(arg));
    let depth = DEPTH as nat;
    assert(v.body->args[0] == i);
    assert(locals.dom().contains(i) && locals[i] == Value::<R>::I32(arg));
    assert(code == free_entry(i, some, none));
    let none_code = blocks[none];
    let some_code = blocks[some];
    assert(none_code == Seq::<Op>::empty());
    assert(some_code == free_some(i, store));
    let start = machine(Seq::<Value<R>>::empty(), locals, table, cells, head);
    let s0 = machine(seq![Value::<R>::I32(arg)], locals, table, cells, head);
    assert(run(blocks, code, 0, start, store, depth) == run(blocks, code, 1, s0, store, depth)) by {
        lemma_local_get(start, store, i);
        assert(step(code[0], start, store) == Outcome::Done(s0)) by {
            assert(step(code[0], start, store)->Done_0.stack =~= s0.stack);
        }
        lemma_advance(blocks, code, 0, start, s0, store, depth);
    }
    assert(s0.pop() == start) by {
        assert(s0.pop().stack =~= start.stack);
    }
    if slot == 0 {
        lemma_finish(blocks, none_code, start, store, 2);
        lemma_branch(blocks, code, 1, s0, none, store, depth);
        lemma_finish(blocks, code, start, store, depth);
    } else {
        let at = (slot - 1) as int;
        let idx = (slot - 1) as i32;
        let twice = (idx * 2) as i32;
        let low = slots.head as u16;
        let moved = locals.insert(i, Value::<R>::I32(idx));
        let cleared = table.update(at, None);
        let linked = cells.update(at, low);
        assert(moved.dom().contains(i) && moved[i] == Value::<R>::I32(idx));
        let t0 = machine(seq![Value::<R>::I32(arg)], locals, table, cells, head);
        let t1 = machine(seq![Value::<R>::I32(arg), Value::<R>::I32(1)], locals, table, cells, head);
        let t2 = machine(seq![Value::<R>::I32(idx)], locals, table, cells, head);
        let t3 = machine(seq![Value::<R>::I32(idx)], moved, table, cells, head);
        let t4 = machine(seq![Value::<R>::I32(idx), Value::<R>::Ref(None)], moved, table, cells, head);
        let t5 = machine(Seq::<Value<R>>::empty(), moved, cleared, cells, head);
        let t6 = machine(seq![Value::<R>::I32(idx)], moved, cleared, cells, head);
        let t7 = machine(seq![Value::<R>::I32(idx), Value::<R>::I32(2)], moved, cleared, cells, head);
        let t8 = machine(seq![Value::<R>::I32(twice)], moved, cleared, cells, head);
        let t9 = machine(seq![Value::<R>::I32(twice), Value::<R>::I32(head)], moved, cleared, cells, head);
        let t10 = machine(Seq::<Value<R>>::empty(), moved, cleared, linked, head);
        let t11 = machine(seq![Value::<R>::I32(idx)], moved, cleared, linked, head);
        let t12 = machine(Seq::<Value<R>>::empty(), moved, cleared, linked, idx);
        assert(run(blocks, some_code, 0, start, store, 2) == run(blocks, some_code, 1, t0, store, 2)) by {
            lemma_local_get(start, store, i);
            assert(step(some_code[0], start, store) == Outcome::Done(t0)) by {
                assert(step(some_code[0], start, store)->Done_0.stack =~= t0.stack);
            }
            lemma_advance(blocks, some_code, 0, start, t0, store, 2);
        }
        assert(run(blocks, some_code, 1, t0, store, 2) == run(blocks, some_code, 2, t1, store, 2)) by {
            lemma_const(t0, store, 1);
            assert(step(some_code[1], t0, store) == Outcome::Done(t1)) by {
                assert(step(some_code[1], t0, store)->Done_0.stack =~= t1.stack);
            }
            lemma_advance(blocks, some_code, 1, t0, t1, store, 2);
        }
        assert(run(blocks, some_code, 2, t1, store, 2) == run(blocks, some_code, 3, t2, store, 2)) by {
            assert(wrap(arg - 1) == idx);
            lemma_binop(t1, store, BinaryOp::I32Sub, arg, 1, idx);
            assert(step(some_code[2], t1, store) == Outcome::Done(t2)) by {
                assert(step(some_code[2], t1, store)->Done_0.stack =~= t2.stack);
            }
            lemma_advance(blocks, some_code, 2, t1, t2, store, 2);
        }
        assert(run(blocks, some_code, 3, t2, store, 2) == run(blocks, some_code, 4, t3, store, 2)) by {
            lemma_local_tee(t2, store, i);
            assert(step(some_code[3], t2, store) == Outcome::Done(t3)) by {
                assert(step(some_code[3], t2, store)->Done_0.stack =~= t3.stack);
            }
            lemma_advance(blocks, some_code, 3, t2, t3, store, 2);
        }
        assert(run(blocks, some_code, 4, t3, store, 2) == run(blocks, some_code, 5, t4, store, 2)) by {
            lemma_ref_null(t3, store);
            assert(step(some_code[4], t3, store) == Outcome::Done(t4)) by {
                assert(step(some_code[4], t3, store)->Done_0.stack =~= t4.stack);
            }
            lemma_advance(blocks, some_code, 4, t3, t4, store, 2);
        }
        assert(run(blocks, some_code, 5, t4, store, 2) == run(blocks, some_code, 6, t5, store, 2)) by {
            lemma_table_set(t4, store, at, None);
            assert(step(some_code[5], t4, store) == Outcome::Done(t5)) by {
                assert(step(some_code[5], t4, store)->Done_0.stack =~= t5.stack);
            }
            lemma_advance(blocks, some_code, 5, t4, t5, store, 2);
        }
        assert(run(blocks, some_code, 6, t5, store, 2) == run(blocks, some_code, 7, t6, store, 2)) by {
            lemma_local_get(t5, store, i);
            assert(step(some_code[6], t5, store) == Outcome::Done(t6)) by {
                assert(step(some_code[6], t5, store)->Done_0.stack =~= t6.stack);
            }
            lemma_advance(blocks, some_code, 6, t5, t6, store, 2);
        }
        assert(run(blocks, some_code, 7, t6, store, 2) == run(blocks, some_code, 8, t7, store, 2)) by {
            lemma_const(t6, store, 2);
            assert(step(some_code[7], t6, store) == Outcome::Done(t7)) by {
                assert(step(some_code[7], t6, store)->Done_0.stack =~= t7.stack);
            }
            lemma_advance(blocks, some_code, 7, t6, t7, store, 2);
        }
        assert(run(blocks, some_code, 8, t7, store, 2) == run(blocks, some_code, 9, t8, store, 2)) by {
            assert(wrap(idx * 2) == twice);
            lemma_binop(t7, store, BinaryOp::I32Mul, idx, 2, twice);
            assert(step(some_code[8], t7, store) == Outcome::Done(t8)) by {
                assert(step(some_code[8], t7, store)->Done_0.stack =~= t8.stack);
            }
            lemma_advance(blocks, some_code, 8, t7, t8, store, 2);
        }
        assert(run(blocks, some_code, 9, t8, store, 2) == run(blocks, some_code, 10, t9, store, 2)) by {
            lemma_global_get(t8, store);
            assert(step(some_code[9], t8, store) == Outcome::Done(t9)) by {
                assert(step(some_code[9], t8, store)->Done_0.stack =~= t9.stack);
            }
            lemma_advance(blocks, some_code, 9, t8, t9, store, 2);
        }
        assert(run(blocks, some_code, 10, t9, store, 2) == run(blocks, some_code, 11, t10, store, 2)) by {
            lemma_store(t9, store, at, head);
            assert(step(some_code[10], t9, store) == Outcome::Done(t10)) by {
                assert(step(some_code[10], t9, store)->Done_0.stack =~= t10.stack);
            }
            lemma_advance(blocks, some_code, 10, t9, t10, store, 2);
        }
        assert(run(blocks, some_code, 11, t10, store, 2) == run(blocks, some_code, 12, t11, store, 2)) by {
            lemma_local_get(t10, store, i);
            assert(step(some_code[11], t10, store) == Outcome::Done(t11)) by {
                assert(step(some_code[11], t10, store)->Done_0.stack =~= t11.stack);
            }
            lemma_advance(blocks, some_code, 11, t10, t11, store, 2);
        }
        assert(run(blocks, some_code, 12, t11, store, 2) == run(blocks, some_code, 13, t12, store, 2)) by {
            lemma_global_set(t11, store, idx);
            assert(step(some_code[12], t11, store) == Outcome::Done(t12)) by {
                assert(step(some_code[12], t11, store)->Done_0.stack =~= t12.stack);
            }
            lemma_advance(blocks, some_code, 12, t11, t12, store, 2);
        }
        lemma_finish(blocks, some_code, t12, store, 2);
        lemma_branch(blocks, code, 1, s0, some, store, depth);
        lemma_finish(blocks, code, t12, store, depth);
        assert(holds(t12.table, t12.cells, t12.head, slots.free(slot)));
    }
}

/// The blocks of the generated `alloc`, by the names that their parts have
/// here.
pub struct AllocParts {
    pub e: LocalId,
    pub i: LocalId,
    pub entry: InstrSeqId,
    pub none: InstrSeqId,
    pub some: InstrSeqId,
    pub grow: InstrSeqId,
    pub pop: InstrSeqId,
    pub trap: InstrSeqId,
    pub go_on: InstrSeqId,
}

/// Whether `blocks` holds the code of `alloc` under the names of `p`.
pub open spec fn alloc_layout(
    blocks: Map<InstrSeqId, Seq<Op>>,
    p: AllocParts,
    store: SlotStore,
) -> bool {
    &&& p.e != p.i
    &&& blocks.dom().contains(p.entry) && blocks[p.entry] == alloc_entry(p.e, p.none, p.some)
    &&& blocks.dom().contains(p.none) && blocks[p.none] == seq![Op::I32Const(0)]
    &&& blocks.dom().contains(p.some) && blocks[p.some] == alloc_some(
        p.e,
        p.i,
        p.grow,
        p.pop,
        store,
    )
    &&& blocks.dom().contains(p.grow) && blocks[p.grow] == alloc_grow(
        p.i,
        p.trap,
        p.go_on,
        store,
    )
    &&& blocks.dom().contains(p.pop) && blocks[p.pop] == alloc_pop(p.i, store)
    &&& blocks.dom().contains(p.trap) && blocks[p.trap] == seq![Op::Unreachable]
    &&& blocks.dom().contains(p.go_on) && blocks[p.go_on] == Seq::<Op>::empty()
}

/// The end of `alloc`: the reference goes into the entry `at` that the
/// local holds, the entry is marked as in use, and its slot is left on the
/// stack.
proof fn lemma_alloc_tail<R>(
    blocks: Map<InstrSeqId, Seq<Op>>,
    p: AllocParts,
    store: SlotStore,
    locals: Map<LocalId, Value<R>>,
    table: Seq<Option<R>>,
    cells: Seq<u16>,
    head: i32,
    x: R,
    at: int,
)
    requires
        alloc_layout(blocks, p, store),
        locals.dom().contains(p.e),
        locals[p.e] == Value::Ref(Some(x)),
        locals.dom().contains(p.i),
        0 <= at < table.len(),
        at < MAX_SLOTS,
        locals[p.i] == Value::<R>::I32(at as i32),
        cells.len() == 0x1_0000,
    ensures
        run(
            blocks,
            blocks[p.some],
            5,
            machine(Seq::empty(), locals, table, cells, head),
            store,
            2,
        ) == Outcome::Done(
            machine(
                seq![Value::I32((at + 1) as i32)],
                locals,
                table.update(at, Some(x)),
                cells.update(at, NO_ENTRY),
                head,
            ),
        ),
{
    let e = p.e;
    let i = p.i;
    let arg = Value::<R>::Ref(Some(x));
    let some_code = blocks[p.some];
    let idx = at as i32;
    let twice = (at * 2) as i32;
    let slot = (at + 1) as i32;
    let filled = table.update(at, Some(x));
    let marked = cells.update(at, NO_ENTRY);
    let start = machine(Seq::<Value<R>>::empty(), locals, table, cells, head);
    let t0 = machine(seq![Value::<R>::I32(idx)], locals, table, cells, head);
    let t1 = machine(seq![Value::<R>::I32(idx), arg], locals, table, cells, head);
    let t2 = machine(Seq::<Value<R>>::empty(), locals, filled, cells, head);
    let t3 = machine(seq![Value::<R>::I32(idx)], locals, filled, cells, head);
    let t4 = machine(seq![Value::<R>::I32(idx), Value::<R>::I32(2)], locals, filled, cells, head);
    let t5 = machine(seq![Value::<R>::I32(twice)], locals, filled, cells, head);
    let t6 = machine(seq![Value::<R>::I32(twice), Value::<R>::I32(EMPTY)], locals, filled, cells, head);
    let t7 = machine(Seq::<Value<R>>::empty(), locals, filled, marked, head);
    let t8 = machine(seq![Value::<R>::I32(idx)], locals, filled, marked, head);
    let t9 = machine(seq![Value::<R>::I32(idx), Value::<R>::I32(1)], locals, filled, marked, head);
    let t10 = machine(seq![Value::<R>::I32(slot)], locals, filled, marked, head);
    assert(run(blocks, some_code, 5, start, store, 2) == run(blocks, some_code, 6, t0, store, 2)) by {
        lemma_local_get(start, store, i);
        assert(step(some_code[5], start, store) == Outcome::Done(t0)) by {
            assert(step(some_code[5], start, store)->Done_0.stack =~= t0.stack);
        }
        lemma_advance(blocks, some_code, 5, start, t0, store, 2);
    }
    assert(run(blocks, some_code, 6, t0, store, 2) == run(blocks, some_code, 7, t1, store, 2)) by {
        lemma_local_get(t0, store, e);
        assert(step(some_code[6], t0, store) == Outcome::Done(t1)) by {
            assert(step(some_code[6], t0, store)->Done_0.stack =~= t1.stack);
        }
        lemma_advance(blocks, some_code, 6, t0, t1, store, 2);
    }
    assert(run(blocks, some_code, 7, t1, store, 2) == run(blocks, some_code, 8, t2, store, 2)) by {
        lemma_table_set(t1, store, at, Some(x));
        assert(step(some_code[7], t1, store) == Outcome::Done(t2)) by {
            assert(step(some_code[7], t1, store)->Done_0.stack =~= t2.stack);
        }
        lemma_advance(blocks, some_code, 7, t1, t2, store, 2);
    }
    assert(run(blocks, some_code, 8, t2, store, 2) == run(blocks, some_code, 9, t3, store, 2)) by {
        lemma_local_get(t2, store, i);
        assert(step(some_code[8], t2, store) == Outcome::Done(t3)) by {
            assert(step(some_code[8], t2, store)->Done_0.stack =~= t3.stack);
        }
        lemma_advance(blocks, some_code, 8, t2, t3, store, 2);
    }
    assert(run(blocks, some_code, 9, t3, store, 2) == run(blocks, some_code, 10, t4, store, 2)) by {
        lemma_const(t3, store, 2);
        assert(step(some_code[9], t3, store) == Outcome::Done(t4)) by {
            assert(step(some_code[9], t3, store)->Done_0.stack =~= t4.stack);
        }
        lemma_advance(blocks, some_code, 9, t3, t4, store, 2);
    }
    assert(run(blocks, some_code, 10, t4, store, 2) == run(blocks, some_code, 11, t5, store, 2)) by {
        assert(wrap(idx * 2) == twice);
        lemma_binop(t4, store, BinaryOp::I32Mul, idx, 2, twice);
        assert(step(some_code[10], t4, store) == Outcome::Done(t5)) by {
            assert(step(some_code[10], t4, store)->Done_0.stack =~= t5.stack);
        }
        lemma_advance(blocks, some_code, 10, t4, t5, store, 2);
    }
    assert(run(blocks, some_code, 11, t5, store, 2) == run(blocks, some_code, 12, t6, store, 2)) by {
        lemma_const(t5, store, EMPTY);
        assert(step(some_code[11], t5, store) == Outcome::Done(t6)) by {
            assert(step(some_code[11], t5, store)->Done_0.stack =~= t6.stack);
        }
        lemma_advance(blocks, some_code, 11, t5, t6, store, 2);
    }
    assert(run(blocks, some_code, 12, t6, store, 2) == run(blocks, some_code, 13, t7, store, 2)) by {
        lemma_store(t6, store, at, EMPTY);
        assert(step(some_code[12], t6, store) == Outcome::Done(t7)) by {
            assert(step(some_code[12], t6, store)->Done_0.stack =~= t7.stack);
        }
        lemma_advance(blocks, some_code, 12, t6, t7, store, 2);
    }
    assert(run(blocks, some_code, 13, t7, store, 2) == run(blocks, some_code, 14, t8, store, 2)) by {
        lemma_local_get(t7, store, i);
        assert(step(some_code[13], t7, store) == Outcome::Done(t8)) by {
            assert(step(some_code[13], t7, store)->Done_0.stack =~= t8.stack);
        }
        lemma_advance(blocks, some_code, 13, t7, t8, store, 2);
    }
    assert(run(blocks, some_code, 14, t8, store, 2) == run(blocks, some_code, 15, t9, store, 2)) by {
        lemma_const(t8, store, 1);
        assert(step(some_code[14], t8, store) == Outcome::Done(t9)) by {
            assert(step(some_code[14], t8, store)->Done_0.stack =~= t9.stack);
        }
        lemma_advance(blocks, some_code, 14, t8, t9, store, 2);
    }
    assert(run(blocks, some_code, 15, t9, store, 2) == run(blocks, some_code, 16, t10, store, 2)) by {
        assert(wrap(idx + 1) == slot);
        lemma_binop(t9, store, BinaryOp::I32Add, idx, 1, slot);
        assert(step(some_code[15], t9, store) == Outcome::Done(t10)) by {
            assert(step(some_code[15], t9, store)->Done_0.stack =~= t10.stack);
        }
        lemma_advance(blocks, some_code, 15, t9, t10, store, 2);
    }
    lemma_finish(blocks, some_code, t10, store, 2);
}

/// The start of `alloc` for a reference: the head of the list of free
/// entries is kept in the local, and compared with the size of the table.
proof fn lemma_alloc_head<R>(
    blocks: Map<InstrSeqId, Seq<Op>>,
    p: AllocParts,
    store: SlotStore,
    locals: Map<LocalId, Value<R>>,
    table: Seq<Option<R>>,
    cells: Seq<u16>,
    head: i32,
    x: R,
)
    requires
        alloc_layout(blocks, p, store),
        locals.dom().contains(p.e),
        locals[p.e] == Value::Ref(Some(x)),
        0 <= head <= NO_ENTRY,
        table.len() <= MAX_SLOTS,
    ensures
        run(blocks, blocks[p.some], 0, machine(Seq::empty(), locals, table, cells, head), store, 2)
            == run(
            blocks,
            blocks[p.some],
            4,
            machine(
                seq![Value::I32(if head >= table.len() { 1i32 } else { 0i32 })],
                locals.insert(p.i, Value::I32(head)),
                table,
                cells,
                head,
            ),
            store,
            2,
        ),
{
    let e = p.e;
    let i = p.i;
    let arg = Value::<R>::Ref(Some(x));
    let some_code = blocks[p.some];
    let len = table.len() as i32;
    let full = if head >= table.len() {
        1i32
    } else {
        0i32
    };
    let kept = locals.insert(i, Value::<R>::I32(head));
    let start = machine(Seq::<Value<R>>::empty(), locals, table, cells, head);
    let a0 = machine(seq![Value::<R>::I32(head)], locals, table, cells, head);
    let a1 = machine(seq![Value::<R>::I32(head)], kept, table, cells, head);
    let a2 = machine(seq![Value::<R>::I32(head), Value::<R>::I32(len)], kept, table, cells, head);
    let a3 = machine(seq![Value::<R>::I32(full)], kept, table, cells, head);
    assert(run(blocks, some_code, 0, start, store, 2) == run(blocks, some_code, 1, a0, store, 2)) by {
        lemma_global_get(start, store);
        assert(step(some_code[0], start, store) == Outcome::Done(a0)) by {
            assert(step(some_code[0], start, store)->Done_0.stack =~= a0.stack);
        }
        lemma_advance(blocks, some_code, 0, start, a0, store, 2);
    }
    assert(run(blocks, some_code, 1, a0, store, 2) == run(blocks, some_code, 2, a1, store, 2)) by {
        lemma_local_tee(a0, store, i);
        assert(step(some_code[1], a0, store) == Outcome::Done(a1)) by {
            assert(step(some_code[1], a0, store)->Done_0.stack =~= a1.stack);
        }
        lemma_advance(blocks, some_code, 1, a0, a1, store, 2);
    }
    assert(run(blocks, some_code, 2, a1, store, 2) == run(blocks, some_code, 3, a2, store, 2)) by {
        lemma_table_size(a1, store);
        assert(step(some_code[2], a1, store) == Outcome::Done(a2)) by {
            assert(step(some_code[2], a1, store)->Done_0.stack =~= a2.stack);
        }
        lemma_advance(blocks, some_code, 2, a1, a2, store, 2);
    }
    assert(run(blocks, some_code, 3, a2, store, 2) == run(blocks, some_code, 4, a3, store, 2)) by {
        assert(unsigned(head) == head && unsigned(len) == table.len());
        lemma_binop(a2, store, BinaryOp::I32GeU, head, len, full);
        assert(step(some_code[3], a2, store) == Outcome::Done(a3)) by {
            assert(step(some_code[3], a2, store)->Done_0.stack =~= a3.stack);
        }
        lemma_advance(blocks, some_code, 3, a2, a3, store, 2);
    }
}

/// `alloc` with a free entry: the link of the entry becomes the head.
proof fn lemma_alloc_pop<R>(
    blocks: Map<InstrSeqId, Seq<Op>>,
    p: AllocParts,
    store: SlotStore,
    locals: Map<LocalId, Value<R>>,
    table: Seq<Option<R>>,
    cells: Seq<u16>,
    head: i32,
    x: R,
    at: int,
)
    requires
        alloc_layout(blocks, p, store),
        locals.dom().contains(p.e),
        locals[p.e] == Value::Ref(Some(x)),
        locals.dom().contains(p.i),
        0 <= at < MAX_SLOTS,
        locals[p.i] == Value::<R>::I32(at as i32),
        cells.len() == 0x1_0000,
    ensures
        run(blocks, blocks[p.pop], 0, machine(Seq::empty(), locals, table, cells, head), store, 1)
            == Outcome::Done(machine(Seq::empty(), locals, table, cells, cells[at] as i32)),
{
    let e = p.e;
    let i = p.i;
    let arg = Value::<R>::Ref(Some(x));
    let pop_code = blocks[p.pop];
    let idx = at as i32;
    let twice = (at * 2) as i32;
    let next = cells[at] as i32;
    let start = machine(Seq::<Value<R>>::empty(), locals, table, cells, head);
    let p0 = machine(seq![Value::<R>::I32(idx)], locals, table, cells, head);
    let p1 = machine(seq![Value::<R>::I32(idx), Value::<R>::I32(2)], locals, table, cells, head);
    let p2 = machine(seq![Value::<R>::I32(twice)], locals, table, cells, head);
    let p3 = machine(seq![Value::<R>::I32(next)], locals, table, cells, head);
    let p4 = machine(Seq::<Value<R>>::empty(), locals, table, cells, next);
    assert(run(blocks, pop_code, 0, start, store, 1) == run(blocks, pop_code, 1, p0, store, 1)) by {
        lemma_local_get(start, store, i);
        assert(step(pop_code[0], start, store) == Outcome::Done(p0)) by {
            assert(step(pop_code[0], start, store)->Done_0.stack =~= p0.stack);
        }
        lemma_advance(blocks, pop_code, 0, start, p0, store, 1);
    }
    assert(run(blocks, pop_code, 1, p0, store, 1) == run(blocks, pop_code, 2, p1, store, 1)) by {
        lemma_const(p0, store, 2);
        assert(step(pop_code[1], p0, store) == Outcome::Done(p1)) by {
            assert(step(pop_code[1], p0, store)->Done_0.stack =~= p1.stack);
        }
        lemma_advance(blocks, pop_code, 1, p0, p1, store, 1);
    }
    assert(run(blocks, pop_code, 2, p1, store, 1) == run(blocks, pop_code, 3, p2, store, 1)) by {
        assert(wrap(idx * 2) == twice);
        lemma_binop(p1, store, BinaryOp::I32Mul, idx, 2, twice);
        assert(step(pop_code[2], p1, store) == Outcome::Done(p2)) by {
            assert(step(pop_code[2], p1, store)->Done_0.stack =~= p2.stack);
        }
        lemma_advance(blocks, pop_code, 2, p1, p2, store, 1);
    }
    assert(run(blocks, pop_code, 3, p2, store, 1) == run(blocks, pop_code, 4, p3, store, 1)) by {
        lemma_load(p2, store, at);
        assert(step(pop_code[3], p2, store) == Outcome::Done(p3)) by {
            assert(step(pop_code[3], p2, store)->Done_0.stack =~= p3.stack);
        }
        lemma_advance(blocks, pop_code, 3, p2, p3, store, 1);
    }
    assert(run(blocks, pop_code, 4, p3, store, 1) == run(blocks, pop_code, 5, p4, store, 1)) by {
        lemma_global_set(p3, store, next);
        assert(step(pop_code[4], p3, store) == Outcome::Done(p4)) by {
            assert(step(pop_code[4], p3, store)->Done_0.stack =~= p4.stack);
        }
        lemma_advance(blocks, pop_code, 4, p3, p4, store, 1);
    }
    lemma_finish(blocks, pop_code, p4, store, 1);
}

/// `alloc` with no free entry: the table grows by one entry, whose index
/// is kept in the local; where the table is full, the module traps.
proof fn lemma_alloc_grow<R>(
    blocks: Map<InstrSeqId, Seq<Op>>,
    p: AllocParts,
    store: SlotStore,
    locals: Map<LocalId, Value<R>>,
    table: Seq<Option<R>>,
    cells: Seq<u16>,
    head: i32,
    x: R,
)
    requires
        alloc_layout(blocks, p, store),
        locals.dom().contains(p.e),
        locals[p.e] == Value::Ref(Some(x)),
        table.len() <= MAX_SLOTS,
    ensures
        run(blocks, blocks[p.grow], 0, machine(Seq::empty(), locals, table, cells, head), store, 1)
            == (if table.len() < MAX_SLOTS {
            Outcome::Done(
                machine(
                    Seq::empty(),
                    locals.insert(p.i, Value::I32(table.len() as i32)),
                    table.push(None),
                    cells,
                    head,
                ),
            )
        } else {
            Outcome::<R>::Trap
        }),
{
    let e = p.e;
    let i = p.i;
    let arg = Value::<R>::Ref(Some(x));
    let grow_code = blocks[p.grow];
    let trap_code = blocks[p.trap];
    let go_on_code = blocks[p.go_on];
    let len = table.len() as i32;
    let start = machine(Seq::<Value<R>>::empty(), locals, table, cells, head);
    let n0 = machine(seq![Value::<R>::Ref(None)], locals, table, cells, head);
    let n1 = machine(seq![Value::<R>::Ref(None), Value::<R>::I32(1)], locals, table, cells, head);
    assert(run(blocks, grow_code, 0, start, store, 1) == run(blocks, grow_code, 1, n0, store, 1)) by {
        lemma_ref_null(start, store);
        assert(step(grow_code[0], start, store) == Outcome::Done(n0)) by {
            assert(step(grow_code[0], start, store)->Done_0.stack =~= n0.stack);
        }
        lemma_advance(blocks, grow_code, 0, start, n0, store, 1);
    }
    assert(run(blocks, grow_code, 1, n0, store, 1) == run(blocks, grow_code, 2, n1, store, 1)) by {
        lemma_const(n0, store, 1);
        assert(step(grow_code[1], n0, store) == Outcome::Done(n1)) by {
            assert(step(grow_code[1], n0, store)->Done_0.stack =~= n1.stack);
        }
        lemma_advance(blocks, grow_code, 1, n0, n1, store, 1);
    }
    if table.len() < MAX_SLOTS {
        let grown = table.push(None);
        let moved = locals.insert(i, Value::<R>::I32(len));
        let g0 = machine(seq![Value::<R>::I32(len)], locals, grown, cells, head);
        let g1 = machine(seq![Value::<R>::I32(len)], moved, grown, cells, head);
        let g2 = machine(seq![Value::<R>::I32(len), Value::<R>::I32(GROW_FAILED)], moved, grown, cells, head);
        let g3 = machine(seq![Value::<R>::I32(0)], moved, grown, cells, head);
        assert(run(blocks, grow_code, 2, n1, store, 1) == run(blocks, grow_code, 3, g0, store, 1)) by {
            lemma_table_grow(n1, store, None);
            assert(step(grow_code[2], n1, store) == Outcome::Done(g0)) by {
                assert(step(grow_code[2], n1, store)->Done_0.stack =~= g0.stack);
            }
            lemma_advance(blocks, grow_code, 2, n1, g0, store, 1);
        }
        assert(run(blocks, grow_code, 3, g0, store, 1) == run(blocks, grow_code, 4, g1, store, 1)) by {
            lemma_local_tee(g0, store, i);
            assert(step(grow_code[3], g0, store) == Outcome::Done(g1)) by {
                assert(step(grow_code[3], g0, store)->Done_0.stack =~= g1.stack);
            }
            lemma_advance(blocks, grow_code, 3, g0, g1, store, 1);
        }
        assert(run(blocks, grow_code, 4, g1, store, 1) == run(blocks, grow_code, 5, g2, store, 1)) by {
            lemma_const(g1, store, GROW_FAILED);
            assert(step(grow_code[4], g1, store) == Outcome::Done(g2)) by {
                assert(step(grow_code[4], g1, store)->Done_0.stack =~= g2.stack);
            }
            lemma_advance(blocks, grow_code, 4, g1, g2, store, 1);
        }
        assert(run(blocks, grow_code, 5, g2, store, 1) == run(blocks, grow_code, 6, g3, store, 1)) by {
            lemma_binop(g2, store, BinaryOp::I32Eq, len, GROW_FAILED, 0);
            assert(step(grow_code[5], g2, store) == Outcome::Done(g3)) by {
                assert(step(grow_code[5], g2, store)->Done_0.stack =~= g3.stack);
            }
            lemma_advance(blocks, grow_code, 5, g2, g3, store, 1);
        }
        let end = machine(Seq::<Value<R>>::empty(), moved, grown, cells, head);
        assert(g3.pop() == end) by {
            assert(g3.pop().stack =~= end.stack);
        }
        lemma_finish(blocks, go_on_code, end, store, 0);
        lemma_branch(blocks, grow_code, 6, g3, p.go_on, store, 1);
        lemma_finish(blocks, grow_code, end, store, 1);
    } else {
        let lost = locals.insert(i, Value::<R>::I32(GROW_FAILED));
        let f0 = machine(seq![Value::<R>::I32(GROW_FAILED)], locals, table, cells, head);
        let f1 = machine(seq![Value::<R>::I32(GROW_FAILED)], lost, table, cells, head);
        let f2 = machine(seq![Value::<R>::I32(GROW_FAILED), Value::<R>::I32(GROW_FAILED)], lost, table, cells, head);
        let f3 = machine(seq![Value::<R>::I32(1)], lost, table, cells, head);
        assert(run(blocks, grow_code, 2, n1, store, 1) == run(blocks, grow_code, 3, f0, store, 1)) by {
            lemma_table_grow(n1, store, None);
            assert(step(grow_code[2], n1, store) == Outcome::Done(f0)) by {
                assert(step(grow_code[2], n1, store)->Done_0.stack =~= f0.stack);
            }
            lemma_advance(blocks, grow_code, 2, n1, f0, store, 1);
        }
        assert(run(blocks, grow_code, 3, f0, store, 1) == run(blocks, grow_code, 4, f1, store, 1)) by {
            lemma_local_tee(f0, store, i);
            assert(step(grow_code[3], f0, store) == Outcome::Done(f1)) by {
                assert(step(grow_code[3], f0, store)->Done_0.stack =~= f1.stack);
            }
            lemma_advance(blocks, grow_code, 3, f0, f1, store, 1);
        }
        assert(run(blocks, grow_code, 4, f1, store, 1) == run(blocks, grow_code, 5, f2, store, 1)) by {
            lemma_const(f1, store, GROW_FAILED);
            assert(step(grow_code[4], f1, store) == Outcome::Done(f2)) by {
                assert(step(grow_code[4], f1, store)->Done_0.stack =~= f2.stack);
            }
            lemma_advance(blocks, grow_code, 4, f1, f2, store, 1);
        }
        assert(run(blocks, grow_code, 5, f2, store, 1) == run(blocks, grow_code, 6, f3, store, 1)) by {
            lemma_binop(f2, store, BinaryOp::I32Eq, GROW_FAILED, GROW_FAILED, 1);
            assert(step(grow_code[5], f2, store) == Outcome::Done(f3)) by {
                assert(step(grow_code[5], f2, store)->Done_0.stack =~= f3.stack);
            }
            lemma_advance(blocks, grow_code, 5, f2, f3, store, 1);
        }
        let fallen = machine(Seq::<Value<R>>::empty(), lost, table, cells, head);
        assert(f3.pop() == fallen) by {
            assert(f3.pop().stack =~= fallen.stack);
        }
        lemma_trap(blocks, trap_code, 0, fallen, store, 0);
        lemma_branch(blocks, grow_code, 6, f3, p.trap, store, 1);
    }
}

/// `alloc` for a reference, from its second block on: the table changes as
/// [`SlotsView::allocate`] says and the slot is left on the stack, or the
/// module traps where the table cannot grow.
#[verifier::spinoff_prover]
#[verifier::rlimit(40)]
proof fn lemma_alloc_some<R>(
    blocks: Map<InstrSeqId, Seq<Op>>,
    p: AllocParts,
    store: SlotStore,
    locals: Map<LocalId, Value<R>>,
    slots: SlotsView<R>,
    cells: Seq<u16>,
    x: R,
)
    requires
        alloc_layout(blocks, p, store),
        locals.dom().contains(p.e),
        locals[p.e] == Value::Ref(Some(x)),
        slots.wf(),
        holds(slots.table, cells, slots.head as i32, slots),
    ensures
        match slots.allocate(x) {
            Ok((after, slot)) => ends_with(
                run(
                    blocks,
                    blocks[p.some],
                    0,
                    machine(Seq::empty(), locals, slots.table, cells, slots.head as i32),
                    store,
                    2,
                ),
                seq![Value::I32(slot as i32)],
                after,
            ),
            Err(_) => run(
                blocks,
                blocks[p.some],
                0,
                machine(Seq::empty(), locals, slots.table, cells, slots.head as i32),
                store,
                2,
            ) == Outcome::<R>::Trap,
        },
{
    let e = p.e;
    let i = p.i;
    let arg = Value::<R>::Ref(Some(x));
    let head = slots.head as i32;
    let table = slots.table;
    let some_code = blocks[p.some];
    let full = if slots.head >= table.len() {
        1i32
    } else {
        0i32
    };
    let kept = locals.insert(i, Value::<R>::I32(head));
    let cond = machine(seq![Value::<R>::I32(full)], kept, table, cells, head);
    let chosen = machine(Seq::<Value<R>>::empty(), kept, table, cells, head);
    lemma_alloc_head(blocks, p, store, locals, table, cells, head, x);
    assert(cond.pop() == chosen) by {
        assert(cond.pop().stack =~= chosen.stack);
    }
    assert(kept.dom().contains(e) && kept[e] == arg);
    assert(kept.dom().contains(i) && kept[i] == Value::<R>::I32(head));
    if slots.head >= table.len() {
        lemma_alloc_grow(blocks, p, store, kept, table, cells, head, x);
        lemma_branch(blocks, some_code, 4, cond, p.grow, store, 2);
        if table.len() < MAX_SLOTS {
            let at = table.len() as int;
            let moved = kept.insert(i, Value::<R>::I32(at as i32));
            let grown = table.push(None);
            let end = machine(
                seq![Value::<R>::I32((at + 1) as i32)],
                moved,
                grown.update(at, Some(x)),
                cells.update(at, NO_ENTRY),
                head,
            );
            assert(moved.dom().contains(e) && moved[e] == arg);
            assert(moved.dom().contains(i) && moved[i] == Value::<R>::I32(at as i32));
            lemma_alloc_tail(blocks, p, store, moved, grown, cells, head, x, at);
            assert(grown.update(at, Some(x)) =~= table.push(Some(x)));
            assert(holds(end.table, end.cells, end.head, slots.allocate(x)->Ok_0.0));
        }
    } else {
        let at = slots.head as int;
        let next = cells[at] as i32;
        let end = machine(
            seq![Value::<R>::I32((at + 1) as i32)],
            kept,
            table.update(at, Some(x)),
            cells.update(at, NO_ENTRY),
            next,
        );
        assert(slots.free.len() > 0 && slots.free[0] == at);
        lemma_alloc_pop(blocks, p, store, kept, table, cells, head, x, at);
        lemma_branch(blocks, some_code, 4, cond, p.pop, store, 2);
        lemma_alloc_tail(blocks, p, store, kept, table, cells, next, x, at);
        assert(holds(end.table, end.cells, end.head, slots.allocate(x)->Ok_0.0));
    }
}

/// The parts of a function that is the generated `alloc`.
proof fn lemma_alloc_parts(v: FunctionView, store: SlotStore) -> (p: AllocParts)
    requires
        is_alloc(v, store),
    ensures
        alloc_layout(v.body->blocks, p, store),
        p.entry == v.body->entry,
        v.body->args == seq![p.e],
{
    let (e, i, none, some, grow, pop, trap, go_on) = choose|
        e: LocalId,
        i: LocalId,
        none: InstrSeqId,
        some: InstrSeqId,
        grow: InstrSeqId,
        pop: InstrSeqId,
        trap: InstrSeqId,
        go_on: InstrSeqId,
    |
        #![trigger alloc_entry(e, none, some), alloc_some(e, i, grow, pop, store), alloc_grow(i, trap, go_on, store)]
        {
            &&& v.body == (FunctionBody::Local {
                args: seq![e],
                entry: v.body->entry,
                blocks: Map::<InstrSeqId, Seq<Op>>::empty().insert(
                    v.body->entry,
                    alloc_entry(e, none, some),
                ).insert(none, seq![Op::I32Const(0)]).insert(
                    some,
                    alloc_some(e, i, grow, pop, store),
                ).insert(grow, alloc_grow(i, trap, go_on, store)).insert(
                    pop,
                    alloc_pop(i, store),
                ).insert(trap, seq![Op::Unreachable]).insert(go_on, Seq::empty()),
            })
            &&& distinct7(v.body->entry, none, some, grow, pop, trap, go_on)
            &&& e != i
        };
    let entry = v.body->entry;
    let ids = seq![entry, none, some, grow, pop, trap, go_on];
    assert(ids[0] == entry && ids[1] == none && ids[2] == some && ids[3] == grow && ids[4] == pop
        && ids[5] == trap && ids[6] == go_on);
    AllocParts { e, i, entry, none, some, grow, pop, trap, go_on }
}

/// The generated `alloc` does to the table what [`SlotsView::allocate`]
/// says and returns the slot that it gives; for no reference it returns
/// slot 0 and leaves the table as it is; and it traps where the table
/// cannot grow.
pub proof fn lemma_alloc_runs<R>(
    v: FunctionView,
    store: SlotStore,
    slots: SlotsView<R>,
    cells: Seq<u16>,
    r: Option<R>,
)
    requires
        is_alloc(v, store),
        slots.wf(),
        holds(slots.table, cells, slots.head as i32, slots),
    ensures
        match r {
            None => ends_with(
                call(v, Value::Ref(r), slots.table, cells, slots.head as i32, store),
                seq![Value::I32(0)],
                slots,
            ),
            Some(x) => match slots.allocate(x) {
                Ok((after, slot)) => ends_with(
                    call(v, Value::Ref(r), slots.table, cells, slots.head as i32, store),
                    seq![Value::I32(slot as i32)],
                    after,
                ),
                Err(_) => call(v, Value::Ref(r), slots.table, cells, slots.head as i32, store)
                    == Outcome::<R>::Trap,
            },
        },
{
    let p = lemma_alloc_parts(v, store);
    let blocks = v.body->blocks;
    let code = blocks[p.entry];
    let head = slots.head as i32;
    let table = slots.table;
    let arg = Value::<R>::Ref(r);
    let locals = locals_at_start(v, arg);
    let depth = DEPTH as nat;
    assert(v.body->args[0] == p.e);
    assert(locals.dom().contains(p.e) && locals[p.e] == arg);
    let null = if r is None {
        1i32
    } else {
        0i32
    };
    let start = machine(Seq::<Value<R>>::empty(), locals, table, cells, head);
    let s0 = machine(seq![arg], locals, table, cells, head);
    let s1 = machine(seq![Value::<R>::I32(null)], locals, table, cells, head);
    assert(run(blocks, code, 0, start, store, depth) == run(blocks, code, 1, s0, store, depth)) by {
        lemma_local_get(start, store, p.e);
        assert(start.push(arg).stack =~= s0.stack);
        lemma_advance(blocks, code, 0, start, s0, store, depth);
    }
    assert(run(blocks, code, 1, s0, store, depth) == run(blocks, code, 2, s1, store, depth)) by {
        lemma_ref_is_null(s0, store, r);
        assert(s0.pop().push(Value::<R>::I32(null)).stack =~= s1.stack);
        lemma_advance(blocks, code, 1, s0, s1, store, depth);
    }
    assert(s1.pop() == start) by {
        assert(s1.pop().stack =~= start.stack);
    }
    match r {
        None => {
            let none_code = blocks[p.none];
            let end = machine(seq![Value::<R>::I32(0)], locals, table, cells, head);
            assert(run(blocks, none_code, 0, start, store, 2) == Outcome::Done(end)) by {
                lemma_const(start, store, 0);
                assert(start.push(Value::<R>::I32(0)).stack =~= end.stack);
                lemma_advance(blocks, none_code, 0, start, end, store, 2);
                lemma_finish(blocks, none_code, end, store, 2);
            }
            assert(run(blocks, code, 2, s1, store, depth) == Outcome::Done(end)) by {
                lemma_branch(blocks, code, 2, s1, p.none, store, depth);
                lemma_finish(blocks, code, end, store, depth);
            }
        },
        Some(x) => {
            lemma_alloc_some(blocks, p, store, locals, slots, cells, x);
            let inner = run(blocks, blocks[p.some], 0, start, store, 2);
            assert(run(blocks, code, 2, s1, store, depth) == inner) by {
                lemma_branch(blocks, code, 2, s1, p.some, store, depth);
                if inner is Done {
                    lemma_finish(blocks, code, inner->Done_0, store, depth);
                }
            }
        },
    }
}

/// The state in which a call that comes to its end leaves the machine.
pub open spec fn left<R>(outcome: Outcome<R>) -> Machine<R> {
    outcome->Done_0
}

/// Calling the generated `alloc` with a reference and then the generated
/// `get` with the slot that came back gives the reference back.
pub proof fn lemma_generated_alloc_get<R>(
    alloc: FunctionView,
    get: FunctionView,
    store: SlotStore,
    slots: SlotsView<R>,
    cells: Seq<u16>,
    x: R,
)
    requires
        is_alloc(alloc, store),
        is_get(get, store),
        slots.wf(),
        holds(slots.table, cells, slots.head as i32, slots),
        slots.allocate(x) is Ok,
    ensures
        ({
            let first = call(alloc, Value::Ref(Some(x)), slots.table, cells, slots.head as i32, store);
            let slot = slots.allocate(x)->Ok_0.1;
            &&& first is Done
            &&& left(first).stack == seq![Value::<R>::I32(slot as i32)]
            &&& match call(
                get,
                Value::I32(slot as i32),
                left(first).table,
                left(first).cells,
                left(first).head,
                store,
            ) {
                Outcome::Done(m) => m.stack == seq![Value::Ref(Some(x))],
                _ => false,
            }
        }),
{
    let (after, slot) = slots.allocate(x)->Ok_0;
    lemma_alloc_runs(alloc, store, slots, cells, Some(x));
    lemma_alloc_fresh(slots, x);
    lemma_alloc_get(slots, x);
    let first = call(alloc, Value::Ref(Some(x)), slots.table, cells, slots.head as i32, store);
    let m = left(first);
    assert(m.head == after.head as i32);
    lemma_get_runs(get, store, after, m.cells, slot);
}

/// Calling the generated `alloc`, the generated `free` with the slot that
/// came back, and the generated `alloc` again gives the same slot again.
pub proof fn lemma_generated_slot_reuse<R>(
    alloc: FunctionView,
    free: FunctionView,
    store: SlotStore,
    slots: SlotsView<R>,
    cells: Seq<u16>,
    x: R,
    y: R,
)
    requires
        is_alloc(alloc, store),
        is_free(free, store),
        slots.wf(),
        holds(slots.table, cells, slots.head as i32, slots),
        slots.allocate(x) is Ok,
    ensures
        ({
            let first = call(alloc, Value::Ref(Some(x)), slots.table, cells, slots.head as i32, store);
            let slot = slots.allocate(x)->Ok_0.1;
            let second = call(
                free,
                Value::I32(slot as i32),
                left(first).table,
                left(first).cells,
                left(first).head,
                store,
            );
            let third = call(
                alloc,
                Value::Ref(Some(y)),
                left(second).table,
                left(second).cells,
                left(second).head,
                store,
            );
            &&& first is Done
            &&& left(first).stack == seq![Value::<R>::I32(slot as i32)]
            &&& second is Done
            &&& third is Done
            &&& left(third).stack == seq![Value::<R>::I32(slot as i32)]
        }),
{
    let (after, slot) = slots.allocate(x)->Ok_0;
    lemma_alloc_runs(alloc, store, slots, cells, Some(x));
    lemma_alloc_fresh(slots, x);
    lemma_alloc_get(slots, x);
    let first = call(alloc, Value::Ref(Some(x)), slots.table, cells, slots.head as i32, store);
    let m = left(first);
    assert(m.head == after.head as i32);
    assert(after.in_use(slot));
    lemma_free_runs(free, store, after, m.cells, slot);
    lemma_free_wf(after, slot);
    lemma_free_alloc(after, slot, y);
    let freed = after.free(slot);
    let second = call(free, Value::I32(slot as i32), m.table, m.cells, m.head, store);
    let n = left(second);
    assert(n.head == freed.head as i32);
    lemma_alloc_runs(alloc, store, freed, n.cells, Some(y));
}

/// Slot 0 in the generated code: `alloc` returns it for no reference, `get`
/// returns no reference for it, `free` does nothing with it, and all three
/// leave the table, its list of free entries too, as it is.
pub proof fn lemma_generated_null<R>(
    alloc: FunctionView,
    free: FunctionView,
    get: FunctionView,
    store: SlotStore,
    slots: SlotsView<R>,
    cells: Seq<u16>,
)
    requires
        is_alloc(alloc, store),
        is_free(free, store),
        is_get(get, store),
        slots.wf(),
        holds(slots.table, cells, slots.head as i32, slots),
    ensures
        ends_with(
            call(alloc, Value::Ref(None), slots.table, cells, slots.head as i32, store),
            seq![Value::I32(0)],
            slots,
        ),
        ends_with(
            call(get, Value::I32(0), slots.table, cells, slots.head as i32, store),
            seq![Value::Ref(None)],
            slots,
        ),
        ends_with(
            call(free, Value::I32(0), slots.table, cells, slots.head as i32, store),
            Seq::empty(),
            slots,
        ),
{
    lemma_alloc_runs(alloc, store, slots, cells, None);
    lemma_get_runs(get, store, slots, cells, 0);
    lemma_free_runs(free, store, slots, cells, 0);
}

} // verus!
