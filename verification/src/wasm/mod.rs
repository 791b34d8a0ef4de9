//! The module graph, as far as the rewriting reads and changes it.
//!
//! The graph itself is a `walrus::Module`. What this library knows of it is
//! written down here: the mathematical content of a module ([`ModuleView`])
//! and of a function under construction ([`BuilderView`]). The two
//! submodules hold one function for each operation of `walrus` that the
//! rewriting calls, with what that operation does to the content.

pub mod builder;
pub mod emit;
pub mod module;

use vstd::prelude::*;
use walrus::ir::{BinaryOp, InstrSeqId, LoadKind, MemArg, StoreKind, UnaryOp};
use walrus::{
    ElementId, ElementKind, ExportId, ExportItem, FunctionId, GlobalId, ImportId, ImportKind,
    LocalId, MemoryId, TableId, ValType,
};

verus! {

/// An identifier that one of a module's arenas has handed out. What is
/// inside is not known here; two identifiers are compared as wholes.
#[verifier::external_type_specification]
#[verifier::external_body]
#[verifier::reject_recursive_types(T)]
pub struct ExId<T>(id_arena::Id<T>);

/// A function of a module. Nothing of it is known here: only identifiers
/// of functions pass through the library.
#[verifier::external_type_specification]
#[verifier::external_body]
pub struct ExFunction(walrus::Function);

/// A function type of a module; only identifiers of types pass through.
#[verifier::external_type_specification]
#[verifier::external_body]
pub struct ExType(walrus::Type);

/// An import of a module; only identifiers of imports pass through.
#[verifier::external_type_specification]
#[verifier::external_body]
pub struct ExImport(walrus::Import);

/// An export of a module; only identifiers of exports pass through.
#[verifier::external_type_specification]
#[verifier::external_body]
pub struct ExExport(walrus::Export);

/// An element segment of a module; only identifiers of segments pass
/// through.
#[verifier::external_type_specification]
#[verifier::external_body]
pub struct ExElement(walrus::Element);

/// A global of a module; only identifiers of globals pass through.
#[verifier::external_type_specification]
#[verifier::external_body]
pub struct ExGlobal(walrus::Global);

/// A table of a module; only identifiers of tables pass through.
#[verifier::external_type_specification]
#[verifier::external_body]
pub struct ExTable(walrus::Table);

/// A memory of a module; only identifiers of memories pass through.
#[verifier::external_type_specification]
#[verifier::external_body]
pub struct ExMemory(walrus::Memory);

/// A local of a function; only identifiers of locals pass through.
#[verifier::external_type_specification]
#[verifier::external_body]
pub struct ExLocal(walrus::ir::Local);

/// A block of instructions; only identifiers of blocks pass through.
#[verifier::external_type_specification]
#[verifier::external_body]
pub struct ExInstrSeq(walrus::ir::InstrSeq);

/// An instruction as `walrus` holds it. The library never holds one: it
/// describes instructions by [`Op`].
#[verifier::external_type_specification]
#[verifier::external_body]
pub struct ExInstr(walrus::ir::Instr);

/// The place of an instruction in the binary that it was read from.
#[verifier::external_type_specification]
#[verifier::external_body]
pub struct ExInstrLocId(walrus::ir::InstrLocId);

/// A constant initialiser.
#[verifier::external_type_specification]
#[verifier::external_body]
pub struct ExInitExpr(walrus::InitExpr);

/// A WebAssembly module in memory. What is known of its content is what
/// [`contents`] names.
#[verifier::external_type_specification]
#[verifier::external_body]
pub struct ExModule(walrus::Module);

/// A function under construction. What is known of its content is what
/// [`building`] names.
#[verifier::external_type_specification]
#[verifier::external_body]
pub struct ExFunctionBuilder(walrus::FunctionBuilder);

/// The kind of a WebAssembly value. Its variants and fields are those of the
/// definition in `walrus`.
#[verifier::external_type_specification]
pub struct ExValType(ValType);

/// The binary operators. Its variants and fields are those of the
/// definition in `walrus`.
#[verifier::external_type_specification]
pub struct ExBinaryOp(BinaryOp);

/// The unary operators. Its variants and fields are those of the
/// definition in `walrus`.
#[verifier::external_type_specification]
pub struct ExUnaryOp(UnaryOp);

/// How a narrow load fills the upper bits. Its variants and fields are those of the
/// definition in `walrus`.
#[verifier::external_type_specification]
pub struct ExExtendedLoad(walrus::ir::ExtendedLoad);

/// The width of a load. Its variants and fields are those of the
/// definition in `walrus`.
#[verifier::external_type_specification]
pub struct ExLoadKind(LoadKind);

/// The width of a store. Its variants and fields are those of the
/// definition in `walrus`.
#[verifier::external_type_specification]
pub struct ExStoreKind(StoreKind);

/// The alignment and offset of a memory access. Its variants and fields are those of the
/// definition in `walrus`.
#[verifier::external_type_specification]
pub struct ExMemArg(MemArg);

/// What an export hands out. Its variants and fields are those of the
/// definition in `walrus`.
#[verifier::external_type_specification]
pub struct ExExportItem(ExportItem);

/// What an import brings in. Its variants and fields are those of the
/// definition in `walrus`.
#[verifier::external_type_specification]
pub struct ExImportKind(ImportKind);

/// How an element segment is used. Its variants and fields are those of the
/// definition in `walrus`.
#[verifier::external_type_specification]
pub struct ExElementKind(ElementKind);

/// `PartialEq::eq` of an identifier compares the arena and the index in it,
/// which is all that an identifier holds.
pub assume_specification<T>[ <id_arena::Id<T> as PartialEq>::eq ](
    a: &id_arena::Id<T>,
    b: &id_arena::Id<T>,
) -> (r: bool)
    ensures
        r == (*a == *b),
;

/// An instruction, as far as this library tells instructions apart.
#[derive(Clone, Copy, Debug)]
pub enum Op {
    Block(InstrSeqId),
    Loop(InstrSeqId),
    IfElse(InstrSeqId, InstrSeqId),
    Br(InstrSeqId),
    BrIf(InstrSeqId),
    Return,
    Unreachable,
    Call(FunctionId),
    RefFunc(FunctionId),
    LocalGet(LocalId),
    LocalSet(LocalId),
    LocalTee(LocalId),
    GlobalGet(GlobalId),
    GlobalSet(GlobalId),
    I32Const(i32),
    Binop(BinaryOp),
    Unop(UnaryOp),
    RefNull(ValType),
    RefIsNull,
    TableGet(TableId),
    TableSet(TableId),
    TableSize(TableId),
    TableGrow(TableId),
    Load(MemoryId, LoadKind, MemArg),
    Store(MemoryId, StoreKind, MemArg),
    /// Any instruction that is none of the above.
    Other,
}

/// What the walk over a function's blocks needs to know of an instruction.
#[derive(Clone, Copy, Debug)]
pub enum Shape {
    Call(FunctionId),
    Block(InstrSeqId),
    Loop(InstrSeqId),
    IfElse(InstrSeqId, InstrSeqId),
    Other,
}

/// The shape of an instruction.
pub open spec fn shape_of(op: Op) -> Shape {
    match op {
        Op::Call(f) => Shape::Call(f),
        Op::Block(s) => Shape::Block(s),
        Op::Loop(s) => Shape::Loop(s),
        Op::IfElse(a, b) => Shape::IfElse(a, b),
        _ => Shape::Other,
    }
}

/// The parameter and result kinds of a function.
pub struct Signature {
    pub params: Seq<ValType>,
    pub results: Seq<ValType>,
}

/// Where a function's code comes from.
pub enum FunctionBody {
    /// From the host, through an import.
    Import(ImportId),
    /// From the module: the locals that hold its arguments, its entry block,
    /// and the instructions of each of its blocks.
    Local { args: Seq<LocalId>, entry: InstrSeqId, blocks: Map<InstrSeqId, Seq<Op>> },
}

/// A function of a module.
pub struct FunctionView {
    /// Whether the module holds the type that the function names.
    pub typed: bool,
    /// The parameter and result kinds of that type, as the module that made
    /// the type has them. A module that no longer holds the type cannot be
    /// asked for them.
    pub sig: Signature,
    pub name: Option<Seq<char>>,
    pub body: FunctionBody,
}

/// An import of a module.
pub struct ImportView {
    pub module: Seq<char>,
    pub name: Seq<char>,
    pub kind: ImportKind,
}

/// An export of a module.
pub struct ExportView {
    pub name: Seq<char>,
    pub item: ExportItem,
}

/// An element segment of a module.
pub struct ElementView {
    pub kind: ElementKind,
    pub ty: ValType,
    pub members: Seq<Option<FunctionId>>,
}

/// How a global gets its first value.
pub enum GlobalInit {
    /// From a 32-bit integer constant.
    I32(i32),
    /// From a reference to a function.
    RefFunc(FunctionId),
    /// In any other way.
    Other,
}

/// A global of a module.
pub struct GlobalView {
    pub ty: ValType,
    pub mutable: bool,
    pub init: GlobalInit,
}

/// A table that a module defines.
pub struct TableView {
    pub initial: u32,
    pub maximum: Option<u32>,
    pub element: ValType,
}

/// A memory that a module defines.
pub struct MemoryView {
    pub shared: bool,
    pub initial: u32,
    pub maximum: Option<u32>,
}

/// The content of a module: what is alive in each of its arenas, and the
/// order in which each arena is walked. A function is alive while the arena
/// of functions holds it, whatever has become of its type. A block holds
/// the instructions that `walrus` holds in it, each as the [`Op`] that
/// stands for it. The types, the data segments, the start function and the
/// names of a module are no part of this content, nor are the result types
/// of blocks.
pub struct ModuleView {
    pub funcs: Map<FunctionId, FunctionView>,
    pub func_order: Seq<FunctionId>,
    pub imports: Map<ImportId, ImportView>,
    pub import_order: Seq<ImportId>,
    pub exports: Map<ExportId, ExportView>,
    pub export_order: Seq<ExportId>,
    pub elements: Map<ElementId, ElementView>,
    pub element_order: Seq<ElementId>,
    pub globals: Map<GlobalId, GlobalView>,
    pub global_order: Seq<GlobalId>,
    pub tables: Map<TableId, TableView>,
    pub memories: Map<MemoryId, MemoryView>,
    pub locals: Map<LocalId, ValType>,
    /// The raw custom sections in order: name and bytes.
    pub customs: Seq<(Seq<char>, Seq<u8>)>,
}

/// The content of a function under construction.
pub struct BuilderView {
    /// The type that the function will name.
    pub ty: walrus::TypeId,
    /// The parameter and result kinds of that type.
    pub sig: Signature,
    pub name: Option<Seq<char>>,
    pub entry: InstrSeqId,
    pub blocks: Map<InstrSeqId, Seq<Op>>,
}

/// The content of `module`.
pub uninterp spec fn contents(module: walrus::Module) -> ModuleView;

/// The content of `builder`.
pub uninterp spec fn building(builder: walrus::FunctionBuilder) -> BuilderView;

/// The function types that `module` holds.
pub uninterp spec fn held_types(module: walrus::Module) -> Set<walrus::TypeId>;

/// Whether `order` lists exactly the members of `alive`, each once.
pub open spec fn lists<T>(order: Seq<T>, alive: Set<T>) -> bool {
    &&& order.no_duplicates()
    &&& forall|x: T| alive.contains(x) <==> order.contains(x)
}

/// The blocks that an instruction opens, in the order in which a walk over
/// the body puts them on its stack.
pub open spec fn op_children(op: Op) -> Seq<InstrSeqId> {
    match op {
        Op::Block(s) => seq![s],
        Op::Loop(s) => seq![s],
        Op::IfElse(a, b) => seq![b, a],
        _ => Seq::empty(),
    }
}

/// The blocks that the instructions of a block open.
pub open spec fn children(code: Seq<Op>) -> Seq<InstrSeqId>
    decreases code.len(),
{
    if code.len() == 0 {
        Seq::empty()
    } else {
        children(code.drop_last()) + op_children(code.last())
    }
}

/// The most blocks that one walk over a function's body visits. A function
/// holds far fewer.
pub const WALK_BUDGET: u64 = 0xffff_ffff_ffff_ffff;

/// Whether a walk comes to an end within `budget` blocks: it takes the last
/// block off `stack` and puts the blocks that this block opens on it, until
/// the stack is empty.
pub open spec fn ends(blocks: Map<InstrSeqId, Seq<Op>>, stack: Seq<InstrSeqId>, budget: nat) -> bool
    decreases budget,
{
    if stack.len() == 0 {
        true
    } else if budget == 0 {
        false
    } else {
        ends(blocks, stack.drop_last() + children(blocks[stack.last()]), (budget - 1) as nat)
    }
}

/// Whether every block that an instruction of `blocks` opens is one of `blocks`.
pub open spec fn closed(blocks: Map<InstrSeqId, Seq<Op>>) -> bool {
    forall|s: InstrSeqId, i: int, k: int|
        blocks.dom().contains(s) && 0 <= i < blocks[s].len() && 0 <= k < op_children(
            blocks[s][i],
        ).len() ==> blocks.dom().contains(#[trigger] op_children(blocks[s][i])[k])
}

/// A function whose body, if it has one, holds its entry block and every
/// block that one of its instructions opens, and is a tree of blocks that a
/// walk from the entry block gets through: no block opens a block that
/// leads back to it.
pub open spec fn function_wf(v: FunctionView) -> bool {
    v.body is Local ==> {
        &&& v.body->blocks.dom().contains(v.body->entry)
        &&& closed(v.body->blocks)
        &&& ends(v.body->blocks, seq![v.body->entry], WALK_BUDGET as nat)
    }
}

/// Whether every function of the module is well formed.
pub open spec fn functions_wf(view: ModuleView) -> bool {
    forall|f: FunctionId| view.funcs.dom().contains(f) ==> function_wf(#[trigger] view.funcs[f])
}

/// Whether every export of a function hands out a function that is alive.
pub open spec fn exports_wf(view: ModuleView) -> bool {
    forall|e: ExportId|
        view.exports.dom().contains(e) ==> match (#[trigger] view.exports[e]).item {
            ExportItem::Function(f) => view.funcs.dom().contains(f),
            _ => true,
        }
}

/// Whether no export hands out a function that an import brings in under a
/// namespace and name of `picked`. The rewriting deletes the function of
/// such an import, so nothing may hand it out.
pub open spec fn exports_spare(view: ModuleView, picked: Set<(Seq<char>, Seq<char>)>) -> bool {
    forall|e: ExportId, i: ImportId|
        #![trigger view.exports[e], view.imports[i]]
        view.exports.dom().contains(e) && view.imports.dom().contains(i) && picked.contains(
            (view.imports[i].module, view.imports[i].name),
        ) ==> match view.imports[i].kind {
            ImportKind::Function(f) => view.exports[e].item != ExportItem::Function(f),
            _ => true,
        }
}

/// Whether every export of `new` is an export of `old`, unchanged, or hands
/// out a function that `old` does not have.
pub open spec fn exports_renewed(old: ModuleView, new: ModuleView) -> bool {
    forall|e: ExportId|
        new.exports.dom().contains(e) ==> (old.exports.dom().contains(e) && (
        #[trigger] new.exports[e]) == old.exports[e]) || match new.exports[e].item {
            ExportItem::Function(g) => !old.funcs.dom().contains(g),
            _ => false,
        }
}

/// Whether every import of `new` is an import of `old`, unchanged, or
/// brings in a function that `old` does not have.
pub open spec fn imports_renewed(old: ModuleView, new: ModuleView) -> bool {
    forall|i: ImportId|
        new.imports.dom().contains(i) ==> (old.imports.dom().contains(i) && (
        #[trigger] new.imports[i]) == old.imports[i]) || match new.imports[i].kind {
            ImportKind::Function(g) => !old.funcs.dom().contains(g),
            _ => false,
        }
}

/// Where only the exports or only the imports are renewed, no export hands
/// out the function of a picked import afterwards if none did before.
pub proof fn lemma_spare_kept(old: ModuleView, new: ModuleView, picked: Set<(Seq<char>, Seq<char>)>)
    requires
        exports_spare(old, picked),
        exports_wf(old),
        imports_wf(old),
        exports_renewed(old, new),
        imports_renewed(old, new),
        new.exports == old.exports || new.imports == old.imports,
    ensures
        exports_spare(new, picked),
{
    assert forall|e: ExportId, i: ImportId|
        #![trigger new.exports[e], new.imports[i]]
        new.exports.dom().contains(e) && new.imports.dom().contains(i) && picked.contains(
            (new.imports[i].module, new.imports[i].name),
        ) implies match new.imports[i].kind {
        ImportKind::Function(f) => new.exports[e].item != ExportItem::Function(f),
        _ => true,
    } by {
        match new.imports[i].kind {
            ImportKind::Function(f) => {
                if new.exports[e].item == ExportItem::Function(f) {
                    if new.exports == old.exports {
                        assert(old.exports.dom().contains(e));
                        assert(old.funcs.dom().contains(f));
                        assert(old.imports.dom().contains(i) && new.imports[i] == old.imports[i]);
                        assert(old.exports[e].item == ExportItem::Function(f));
                    } else {
                        assert(old.imports.dom().contains(i));
                        assert(old.imports[i].kind == ImportKind::Function(f));
                        assert(old.funcs.dom().contains(f));
                        assert(old.exports.dom().contains(e) && new.exports[e] == old.exports[e]);
                        assert(old.exports[e].item == ExportItem::Function(f));
                    }
                }
            },
            _ => {},
        }
    }
}

/// Whether every import of a function brings in a function that is alive
/// and that names this import as its source.
pub open spec fn imports_wf(view: ModuleView) -> bool {
    forall|i: ImportId|
        view.imports.dom().contains(i) ==> match (#[trigger] view.imports[i]).kind {
            ImportKind::Function(f) => view.funcs.dom().contains(f) && view.funcs[f].body
                == FunctionBody::Import(i),
            _ => true,
        }
}

/// Whether `ids` are locals of the kinds `kinds`, one for one.
pub open spec fn typed(
    locals: Map<LocalId, ValType>,
    ids: Seq<LocalId>,
    kinds: Seq<ValType>,
) -> bool {
    &&& ids.len() == kinds.len()
    &&& forall|i: int|
        0 <= i < ids.len() ==> locals.dom().contains(#[trigger] ids[i]) && locals[ids[i]]
            == kinds[i]
}

/// Whether every function that the module defines takes its arguments in
/// locals of the kinds of its parameters.
pub open spec fn args_wf(view: ModuleView) -> bool {
    forall|f: FunctionId|
        view.funcs.dom().contains(f) ==> match (#[trigger] view.funcs[f]).body {
            FunctionBody::Local { args, entry, blocks } => typed(
                view.locals,
                args,
                view.funcs[f].sig.params,
            ),
            _ => true,
        }
}

/// A module that the rewriting can work on: one as `walrus` reads it from a
/// valid binary.
pub open spec fn wf(view: ModuleView) -> bool {
    &&& functions_wf(view)
    &&& exports_wf(view)
    &&& imports_wf(view)
    &&& args_wf(view)
}

/// Locals that have their kinds keep them where more locals are added.
pub proof fn lemma_typed_grown(
    before: Map<LocalId, ValType>,
    after: Map<LocalId, ValType>,
    ids: Seq<LocalId>,
    kinds: Seq<ValType>,
)
    requires
        typed(before, ids, kinds),
        before.submap_of(after),
    ensures
        typed(after, ids, kinds),
{
    assert forall|i: int| 0 <= i < ids.len() implies after.dom().contains(#[trigger] ids[i])
        && after[ids[i]] == kinds[i] by {
        assert(before.dom().contains(ids[i]));
        assert(after.dom().contains(ids[i]));
        assert(before[ids[i]] == after[ids[i]]);
    }
}

/// A module whose functions keep their signatures and argument locals, and
/// whose locals keep their kinds, still has its arguments in locals of the
/// right kinds, if its new functions have.
pub proof fn lemma_args_grown(old: ModuleView, new: ModuleView)
    requires
        args_wf(old),
        old.locals.submap_of(new.locals),
        forall|f: FunctionId|
            #![trigger new.funcs[f]]
            new.funcs.dom().contains(f) ==> (old.funcs.dom().contains(f) && new.funcs[f].sig
                == old.funcs[f].sig && (new.funcs[f].body is Local ==> old.funcs[f].body is Local
                && new.funcs[f].body->args == old.funcs[f].body->args)) || (match new.funcs[f].body {
                FunctionBody::Local { args, entry, blocks } => typed(
                    new.locals,
                    args,
                    new.funcs[f].sig.params,
                ),
                _ => true,
            }),
    ensures
        args_wf(new),
{
    assert forall|f: FunctionId| new.funcs.dom().contains(f) implies match (
        #[trigger] new.funcs[f]).body {
        FunctionBody::Local { args, entry, blocks } => typed(
            new.locals,
            args,
            new.funcs[f].sig.params,
        ),
        _ => true,
    } by {
        match new.funcs[f].body {
            FunctionBody::Local { args, entry, blocks } => {
                if old.funcs.dom().contains(f) && new.funcs[f].sig == old.funcs[f].sig
                    && old.funcs[f].body is Local && args == old.funcs[f].body->args {
                    assert(typed(old.locals, args, old.funcs[f].sig.params));
                    lemma_typed_grown(old.locals, new.locals, args, old.funcs[f].sig.params);
                }
            },
            _ => {},
        }
    }
}


/// `order` without `id`.
pub open spec fn without<T>(order: Seq<T>, id: T) -> Seq<T> {
    order.filter(|x: T| x != id)
}

impl BuilderView {
    /// This content with `op` at the end of block `seq`.
    pub open spec fn push(self, seq: InstrSeqId, op: Op) -> BuilderView {
        BuilderView { blocks: self.blocks.insert(seq, self.blocks[seq].push(op)), ..self }
    }

    /// This content with a new, empty block `seq`.
    pub open spec fn with_block(self, seq: InstrSeqId) -> BuilderView {
        BuilderView { blocks: self.blocks.insert(seq, Seq::empty()), ..self }
    }
}

impl ModuleView {
    /// This content with one more function.
    pub open spec fn with_function(self, f: FunctionId, v: FunctionView) -> ModuleView {
        ModuleView { funcs: self.funcs.insert(f, v), func_order: self.func_order.push(f), ..self }
    }

    /// This content without the function `f`.
    pub open spec fn without_function(self, f: FunctionId) -> ModuleView {
        ModuleView {
            funcs: self.funcs.remove(f),
            func_order: without(self.func_order, f),
            ..self
        }
    }

    /// This content with one more import.
    pub open spec fn with_import(self, i: ImportId, v: ImportView) -> ModuleView {
        ModuleView {
            imports: self.imports.insert(i, v),
            import_order: self.import_order.push(i),
            ..self
        }
    }

    /// This content without the import `i`.
    pub open spec fn without_import(self, i: ImportId) -> ModuleView {
        ModuleView {
            imports: self.imports.remove(i),
            import_order: without(self.import_order, i),
            ..self
        }
    }

    /// This content with one more element segment.
    pub open spec fn with_element(self, e: ElementId, v: ElementView) -> ModuleView {
        ModuleView {
            elements: self.elements.insert(e, v),
            element_order: self.element_order.push(e),
            ..self
        }
    }

    /// This content with one more global.
    pub open spec fn with_global(self, g: GlobalId, v: GlobalView) -> ModuleView {
        ModuleView {
            globals: self.globals.insert(g, v),
            global_order: self.global_order.push(g),
            ..self
        }
    }

    /// The first import in the module's order that has this namespace and name.
    pub open spec fn find_import(self, namespace: Seq<char>, name: Seq<char>) -> Option<ImportId> {
        first_import(self.imports, self.import_order, namespace, name)
    }

    /// The bytes of the first raw custom section with this name.
    pub open spec fn find_custom(self, name: Seq<char>) -> Option<int> {
        first_custom(self.customs, name, 0)
    }
}

/// The first import in `order` that has this namespace and name.
pub open spec fn first_import(
    imports: Map<ImportId, ImportView>,
    order: Seq<ImportId>,
    namespace: Seq<char>,
    name: Seq<char>,
) -> Option<ImportId>
    decreases order.len(),
{
    if order.len() == 0 {
        None
    } else if imports[order[0]].module == namespace && imports[order[0]].name == name {
        Some(order[0])
    } else {
        first_import(imports, order.drop_first(), namespace, name)
    }
}

/// The index of the first section from `from` on that has this name.
pub open spec fn first_custom(
    customs: Seq<(Seq<char>, Seq<u8>)>,
    name: Seq<char>,
    from: int,
) -> Option<
    int,
>
    decreases customs.len() - from,
{
    if from < 0 || from >= customs.len() {
        None
    } else if customs[from].0 == name {
        Some(from)
    } else {
        first_custom(customs, name, from + 1)
    }
}

} // verus!
