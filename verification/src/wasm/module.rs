//! The operations of a `walrus::Module` that the rewriting calls.
//!
//! None of these is proved: each states what the `walrus` source shows of the
//! operation in its body. An operation that panics on an identifier that is
//! not alive asks for a live one, and one that reads the type of a function
//! asks for a function whose type the module holds.

use vstd::prelude::*;
use walrus::ir::InstrSeqId;
use walrus::{
    ElementId, ElementKind, ExportId, ExportItem, FunctionId, GlobalId, ImportId, ImportKind,
    LocalId, MemoryId, Module, TableId, TypeId, ValType,
};

use crate::wasm::{
    building, contents, held_types, lists, shape_of, ElementView, ExportView, FunctionBody,
    FunctionView, GlobalInit, GlobalView, ImportView, MemoryView, ModuleView, Op, Shape, Signature,
    TableView,
};

verus! {

/// `ModuleExports::iter`: the live exports in the order of their arena, each
/// once.
#[verifier::external_body]
pub(crate) fn export_ids(module: &Module) -> (ids: Vec<ExportId>)
    ensures
        ids@ == contents(*module).export_order,
        lists(ids@, contents(*module).exports.dom()),
{
    module.exports.iter().map(|e| e.id()).collect()
}

/// `ModuleExports::get`, field `name`.
#[verifier::external_body]
pub(crate) fn export_name(module: &Module, id: ExportId) -> (name: String)
    requires
        contents(*module).exports.dom().contains(id),
    ensures
        name@ == contents(*module).exports[id].name,
{
    module.exports.get(id).name.clone()
}

/// `ModuleExports::get`, field `item`.
#[verifier::external_body]
pub(crate) fn export_item(module: &Module, id: ExportId) -> (item: ExportItem)
    requires
        contents(*module).exports.dom().contains(id),
    ensures
        item == contents(*module).exports[id].item,
{
    module.exports.get(id).item
}

/// `ModuleExports::get_mut`, assignment to the field `item`.
#[verifier::external_body]
pub(crate) fn set_export_item(module: &mut Module, id: ExportId, item: ExportItem)
    requires
        contents(*old(module)).exports.dom().contains(id),
    ensures
        contents(*final(module)) == (ModuleView {
            exports: contents(*old(module)).exports.insert(
                id,
                ExportView { name: contents(*old(module)).exports[id].name, item },
            ),
            ..contents(*old(module))
        }),
{
    module.exports.get_mut(id).item = item;
}

/// `ModuleImports::iter`: the live imports in the order of their arena.
#[verifier::external_body]
pub(crate) fn import_ids(module: &Module) -> (ids: Vec<ImportId>)
    ensures
        ids@ == contents(*module).import_order,
        lists(ids@, contents(*module).imports.dom()),
{
    module.imports.iter().map(|i| i.id()).collect()
}

/// `ModuleImports::get`, field `module`.
#[verifier::external_body]
pub(crate) fn import_module(module: &Module, id: ImportId) -> (namespace: String)
    requires
        contents(*module).imports.dom().contains(id),
    ensures
        namespace@ == contents(*module).imports[id].module,
{
    module.imports.get(id).module.clone()
}

/// `ModuleImports::get`, field `name`.
#[verifier::external_body]
pub(crate) fn import_name(module: &Module, id: ImportId) -> (name: String)
    requires
        contents(*module).imports.dom().contains(id),
    ensures
        name@ == contents(*module).imports[id].name,
{
    module.imports.get(id).name.clone()
}

/// `ModuleImports::get`, field `kind`.
#[verifier::external_body]
pub(crate) fn import_kind(module: &Module, id: ImportId) -> (kind: ImportKind)
    requires
        contents(*module).imports.dom().contains(id),
    ensures
        kind == contents(*module).imports[id].kind,
{
    module.imports.get(id).kind.clone()
}

/// `ModuleImports::get_mut`, assignment to the field `kind`.
#[verifier::external_body]
pub(crate) fn set_import_kind(module: &mut Module, id: ImportId, kind: ImportKind)
    requires
        contents(*old(module)).imports.dom().contains(id),
    ensures
        contents(*final(module)) == (ModuleView {
            imports: contents(*old(module)).imports.insert(
                id,
                ImportView {
                    module: contents(*old(module)).imports[id].module,
                    name: contents(*old(module)).imports[id].name,
                    kind,
                },
            ),
            ..contents(*old(module))
        }),
{
    module.imports.get_mut(id).kind = kind;
}

/// `ModuleImports::find`: the first live import with this namespace and
/// name, in the order of the arena. What it finds is alive.
#[verifier::external_body]
pub(crate) fn find_import(module: &Module, namespace: &str, name: &str) -> (found: Option<ImportId>)
    ensures
        found == contents(*module).find_import(namespace@, name@),
        found matches Some(id) ==> contents(*module).imports.dom().contains(id),
{
    module.imports.find(namespace, name)
}

/// `ModuleImports::delete`.
#[verifier::external_body]
pub(crate) fn delete_import(module: &mut Module, id: ImportId)
    requires
        contents(*old(module)).imports.dom().contains(id),
    ensures
        contents(*final(module)) == contents(*old(module)).without_import(id),
{
    module.imports.delete(id);
}

/// `Module::add_import_func`, with the function's type interned by
/// `ModuleTypes::add`: a new function that a new import brings in.
#[verifier::external_body]
pub(crate) fn add_import_func(
    module: &mut Module,
    namespace: &str,
    name: &str,
    params: &[ValType],
    results: &[ValType],
) -> (ids: (FunctionId, ImportId))
    ensures
        !contents(*old(module)).funcs.dom().contains(ids.0),
        !contents(*old(module)).imports.dom().contains(ids.1),
        contents(*final(module)) == contents(*old(module)).with_function(
            ids.0,
            FunctionView {
                typed: true,
                sig: Signature { params: params@, results: results@ },
                name: None,
                body: FunctionBody::Import(ids.1),
            },
        ).with_import(
            ids.1,
            ImportView { module: namespace@, name: name@, kind: ImportKind::Function(ids.0) },
        ),
{
    let ty = module.types.add(params, results);
    module.add_import_func(namespace, name, ty)
}

/// `ModuleFunctions::add_import`, with the function's type interned by
/// `ModuleTypes::add`: a new function that is said to come in through
/// `import`. The import itself is left as it is.
#[verifier::external_body]
pub(crate) fn add_function_for_import(
    module: &mut Module,
    import: ImportId,
    params: &[ValType],
    results: &[ValType],
) -> (f: FunctionId)
    ensures
        !contents(*old(module)).funcs.dom().contains(f),
        contents(*final(module)) == contents(*old(module)).with_function(
            f,
            FunctionView {
                typed: true,
                sig: Signature { params: params@, results: results@ },
                name: None,
                body: FunctionBody::Import(import),
            },
        ),
{
    let ty = module.types.add(params, results);
    module.funcs.add_import(ty, import)
}

/// `ModuleFunctions::iter`: the live functions in the order of their arena.
#[verifier::external_body]
pub(crate) fn function_ids(module: &Module) -> (ids: Vec<FunctionId>)
    ensures
        ids@ == contents(*module).func_order,
        lists(ids@, contents(*module).funcs.dom()),
{
    module.funcs.iter().map(|f| f.id()).collect()
}

/// `ModuleFunctions::get` and `Function::ty`: the type that a function
/// names. The function is typed where the module holds that type.
#[verifier::external_body]
pub(crate) fn function_type(module: &Module, f: FunctionId) -> (ty: TypeId)
    requires
        contents(*module).funcs.dom().contains(f),
    ensures
        contents(*module).funcs[f].typed == held_types(*module).contains(ty),
{
    module.funcs.get(f).ty()
}

/// `ModuleTypes::iter`: the types that the module holds.
#[verifier::external_body]
pub(crate) fn type_ids(module: &Module) -> (ids: Vec<TypeId>)
    ensures
        forall|ty: TypeId| ids@.contains(ty) <==> held_types(*module).contains(ty),
{
    module.types.iter().map(|t| t.id()).collect()
}

/// `ModuleFunctions::get` and `ModuleTypes::get`: the parameter kinds of a
/// function's type. `ModuleTypes::get` panics on a type that the module
/// does not hold.
#[verifier::external_body]
pub(crate) fn function_params(module: &Module, f: FunctionId) -> (params: Vec<ValType>)
    requires
        contents(*module).funcs.dom().contains(f),
        contents(*module).funcs[f].typed,
    ensures
        params@ == contents(*module).funcs[f].sig.params,
{
    module.types.get(module.funcs.get(f).ty()).params().to_vec()
}

/// `ModuleFunctions::get` and `ModuleTypes::get`: the result kinds of a
/// function's type. `ModuleTypes::get` panics on a type that the module
/// does not hold.
#[verifier::external_body]
pub(crate) fn function_results(module: &Module, f: FunctionId) -> (results: Vec<ValType>)
    requires
        contents(*module).funcs.dom().contains(f),
        contents(*module).funcs[f].typed,
    ensures
        results@ == contents(*module).funcs[f].sig.results,
{
    module.types.get(module.funcs.get(f).ty()).results().to_vec()
}

/// `ModuleFunctions::get`, field `name`.
#[verifier::external_body]
pub(crate) fn function_name(module: &Module, f: FunctionId) -> (name: Option<String>)
    requires
        contents(*module).funcs.dom().contains(f),
    ensures
        match name {
            Some(n) => contents(*module).funcs[f].name == Some(n@),
            None => contents(*module).funcs[f].name is None,
        },
{
    module.funcs.get(f).name.clone()
}

/// `ModuleFunctions::get`, field `kind`: whether the function is defined in
/// the module.
#[verifier::external_body]
pub(crate) fn function_is_local(module: &Module, f: FunctionId) -> (local: bool)
    requires
        contents(*module).funcs.dom().contains(f),
    ensures
        local == (contents(*module).funcs[f].body is Local),
{
    match &module.funcs.get(f).kind {
        walrus::FunctionKind::Local(_) => true,
        walrus::FunctionKind::Import(_) => false,
        walrus::FunctionKind::Uninitialized(_) => false,
    }
}

/// `ModuleFunctions::delete`.
#[verifier::external_body]
pub(crate) fn delete_function(module: &mut Module, f: FunctionId)
    requires
        contents(*old(module)).funcs.dom().contains(f),
    ensures
        contents(*final(module)) == contents(*old(module)).without_function(f),
{
    module.funcs.delete(f);
}

/// `LocalFunction::entry_block`.
#[verifier::external_body]
pub(crate) fn function_entry(module: &Module, f: FunctionId) -> (entry: InstrSeqId)
    requires
        contents(*module).funcs.dom().contains(f),
        contents(*module).funcs[f].body is Local,
    ensures
        entry == contents(*module).funcs[f].body->entry,
{
    module.funcs.get(f).kind.unwrap_local().entry_block()
}

/// `LocalFunction::block`: how many instructions a block holds.
#[verifier::external_body]
pub(crate) fn block_len(module: &Module, f: FunctionId, seq: InstrSeqId) -> (len: usize)
    requires
        contents(*module).funcs.dom().contains(f),
        contents(*module).funcs[f].body is Local,
        contents(*module).funcs[f].body->blocks.dom().contains(seq),
    ensures
        len == contents(*module).funcs[f].body->blocks[seq].len(),
{
    module.funcs.get(f).kind.unwrap_local().block(seq).len()
}

/// `LocalFunction::block`: the shape of the instruction at `index`.
#[verifier::external_body]
pub(crate) fn instr_shape(module: &Module, f: FunctionId, seq: InstrSeqId, index: usize) -> (shape: Shape)
    requires
        contents(*module).funcs.dom().contains(f),
        contents(*module).funcs[f].body is Local,
        contents(*module).funcs[f].body->blocks.dom().contains(seq),
        index < contents(*module).funcs[f].body->blocks[seq].len(),
    ensures
        shape == shape_of(contents(*module).funcs[f].body->blocks[seq][index as int]),
{
    match &module.funcs.get(f).kind.unwrap_local().block(seq).instrs[index].0 {
        walrus::ir::Instr::Call(c) => Shape::Call(c.func),
        walrus::ir::Instr::Block(b) => Shape::Block(b.seq),
        walrus::ir::Instr::Loop(l) => Shape::Loop(l.seq),
        walrus::ir::Instr::IfElse(e) => Shape::IfElse(e.consequent, e.alternative),
        _ => Shape::Other,
    }
}

/// `LocalFunction::block_mut`: gives the call at `index` another target.
#[verifier::external_body]
pub(crate) fn set_call_target(
    module: &mut Module,
    f: FunctionId,
    seq: InstrSeqId,
    index: usize,
    target: FunctionId,
)
    requires
        contents(*old(module)).funcs.dom().contains(f),
        contents(*old(module)).funcs[f].body is Local,
        contents(*old(module)).funcs[f].body->blocks.dom().contains(seq),
        index < contents(*old(module)).funcs[f].body->blocks[seq].len(),
        contents(*old(module)).funcs[f].body->blocks[seq][index as int] is Call,
    ensures
        contents(*final(module)) == (ModuleView {
            funcs: contents(*old(module)).funcs.insert(
                f,
                retargeted(contents(*old(module)).funcs[f], seq, index as int, target),
            ),
            ..contents(*old(module))
        }),
{
    let block = module.funcs.get_mut(f).kind.unwrap_local_mut().block_mut(seq);
    if let walrus::ir::Instr::Call(c) = &mut block.instrs[index].0 {
        c.func = target;
    }
}

/// A local function with the call at `index` of block `seq` aimed at `target`.
pub open spec fn retargeted(
    v: FunctionView,
    seq: InstrSeqId,
    index: int,
    target: FunctionId,
) -> FunctionView {
    with_blocks(v, v.body->blocks.insert(seq, v.body->blocks[seq].update(index, Op::Call(target))))
}

/// A local function with other blocks.
pub open spec fn with_blocks(v: FunctionView, blocks: Map<InstrSeqId, Seq<Op>>) -> FunctionView {
    FunctionView {
        body: FunctionBody::Local { args: v.body->args, entry: v.body->entry, blocks },
        ..v
    }
}

/// `ModuleLocals::add`.
#[verifier::external_body]
pub(crate) fn add_local(module: &mut Module, ty: ValType) -> (local: LocalId)
    ensures
        !contents(*old(module)).locals.dom().contains(local),
        contents(*final(module)) == (ModuleView {
            locals: contents(*old(module)).locals.insert(local, ty),
            ..contents(*old(module))
        }),
{
    module.locals.add(ty)
}

/// `ModuleTables::add_local`.
#[verifier::external_body]
pub(crate) fn add_table(module: &mut Module, initial: u32, maximum: Option<u32>, element: ValType) -> (table: TableId)
    ensures
        !contents(*old(module)).tables.dom().contains(table),
        contents(*final(module)) == (ModuleView {
            tables: contents(*old(module)).tables.insert(
                table,
                TableView { initial, maximum, element },
            ),
            ..contents(*old(module))
        }),
{
    module.tables.add_local(initial, maximum, element)
}

/// `ModuleMemories::add_local`.
#[verifier::external_body]
pub(crate) fn add_memory(module: &mut Module, shared: bool, initial: u32, maximum: Option<u32>) -> (memory: MemoryId)
    ensures
        !contents(*old(module)).memories.dom().contains(memory),
        contents(*final(module)) == (ModuleView {
            memories: contents(*old(module)).memories.insert(
                memory,
                MemoryView { shared, initial, maximum },
            ),
            ..contents(*old(module))
        }),
{
    module.memories.add_local(shared, initial, maximum)
}

/// `ModuleGlobals::add_local` with a 32-bit integer constant as initialiser.
#[verifier::external_body]
pub(crate) fn add_global_i32(module: &mut Module, mutable: bool, value: i32) -> (global: GlobalId)
    ensures
        !contents(*old(module)).globals.dom().contains(global),
        contents(*final(module)) == contents(*old(module)).with_global(
            global,
            GlobalView { ty: ValType::I32, mutable, init: GlobalInit::I32(value) },
        ),
{
    let init = walrus::InitExpr::Value(walrus::ir::Value::I32(value));
    module.globals.add_local(ValType::I32, mutable, init)
}

/// `ModuleGlobals::iter`: the live globals in the order of their arena.
#[verifier::external_body]
pub(crate) fn global_ids(module: &Module) -> (ids: Vec<GlobalId>)
    ensures
        ids@ == contents(*module).global_order,
        lists(ids@, contents(*module).globals.dom()),
{
    module.globals.iter().map(|g| g.id()).collect()
}

/// `ModuleGlobals::get`, field `kind`: the function that the initialiser of
/// a global of the module refers to, if it refers to one.
#[verifier::external_body]
pub(crate) fn global_ref_func(module: &Module, global: GlobalId) -> (f: Option<FunctionId>)
    requires
        contents(*module).globals.dom().contains(global),
    ensures
        match f {
            Some(f) => contents(*module).globals[global].init == GlobalInit::RefFunc(f),
            None => !(contents(*module).globals[global].init is RefFunc),
        },
{
    match &module.globals.get(global).kind {
        walrus::GlobalKind::Local(walrus::InitExpr::RefFunc(f)) => Some(*f),
        _ => None,
    }
}

/// `ModuleGlobals::get_mut`: makes the initialiser of a global that refers
/// to a function refer to `f`.
#[verifier::external_body]
pub(crate) fn set_global_ref_func(module: &mut Module, global: GlobalId, f: FunctionId)
    requires
        contents(*old(module)).globals.dom().contains(global),
        contents(*old(module)).globals[global].init is RefFunc,
    ensures
        contents(*final(module)) == (ModuleView {
            globals: contents(*old(module)).globals.insert(
                global,
                GlobalView { init: GlobalInit::RefFunc(f), ..contents(*old(module)).globals[global] },
            ),
            ..contents(*old(module))
        }),
{
    if let walrus::GlobalKind::Local(walrus::InitExpr::RefFunc(g)) = &mut module.globals.get_mut(global).kind {
        *g = f;
    }
}

/// `ModuleElements::add`.
#[verifier::external_body]
pub(crate) fn add_element(
    module: &mut Module,
    kind: ElementKind,
    ty: ValType,
    members: Vec<Option<FunctionId>>,
) -> (element: ElementId)
    ensures
        !contents(*old(module)).elements.dom().contains(element),
        contents(*final(module)) == contents(*old(module)).with_element(
            element,
            ElementView { kind, ty, members: members@ },
        ),
{
    module.elements.add(kind, ty, members)
}

/// `ModuleElements::iter`: the live element segments in the order of their
/// arena.
#[verifier::external_body]
pub(crate) fn element_ids(module: &Module) -> (ids: Vec<ElementId>)
    ensures
        ids@ == contents(*module).element_order,
        lists(ids@, contents(*module).elements.dom()),
{
    module.elements.iter().map(|e| e.id()).collect()
}

/// `ModuleElements::get`, field `ty`.
#[verifier::external_body]
pub(crate) fn element_type(module: &Module, element: ElementId) -> (ty: ValType)
    requires
        contents(*module).elements.dom().contains(element),
    ensures
        ty == contents(*module).elements[element].ty,
{
    module.elements.get(element).ty
}

/// `ModuleElements::get`, field `members`.
#[verifier::external_body]
pub(crate) fn element_members(module: &Module, element: ElementId) -> (members: Vec<Option<FunctionId>>)
    requires
        contents(*module).elements.dom().contains(element),
    ensures
        members@ == contents(*module).elements[element].members,
{
    module.elements.get(element).members.clone()
}

/// `ModuleElements::get_mut`, assignment to the field `members`.
#[verifier::external_body]
pub(crate) fn set_element_members(
    module: &mut Module,
    element: ElementId,
    members: Vec<Option<FunctionId>>,
)
    requires
        contents(*old(module)).elements.dom().contains(element),
    ensures
        contents(*final(module)) == (ModuleView {
            elements: contents(*old(module)).elements.insert(
                element,
                ElementView { members: members@, ..contents(*old(module)).elements[element] },
            ),
            ..contents(*old(module))
        }),
{
    module.elements.get_mut(element).members = members;
}

/// `ModuleCustomSections::remove_raw`: takes the first raw section of this
/// name out of the module and returns its bytes.
#[verifier::external_body]
pub(crate) fn take_custom_section(module: &mut Module, name: &str) -> (data: Option<Vec<u8>>)
    ensures
        match contents(*old(module)).find_custom(name@) {
            Some(i) => {
                &&& data matches Some(bytes)
                &&& bytes@ == contents(*old(module)).customs[i].1
                &&& contents(*final(module)) == (ModuleView {
                    customs: contents(*old(module)).customs.remove(i),
                    ..contents(*old(module))
                })
            },
            None => data is None && contents(*final(module)) == contents(*old(module)),
        },
{
    module.customs.remove_raw(name).map(|s| s.data)
}

/// `ModuleCustomSections::add` with a raw section.
#[verifier::external_body]
pub(crate) fn add_custom_section(module: &mut Module, name: String, data: Vec<u8>)
    ensures
        contents(*final(module)) == (ModuleView {
            customs: contents(*old(module)).customs.push((name@, data@)),
            ..contents(*old(module))
        }),
{
    module.customs.add(walrus::RawCustomSection { name, data });
}

/// `FunctionBuilder::finish`: the function that was built becomes a function
/// of the module. It is typed where the module holds the builder's type.
#[verifier::external_body]
pub(crate) fn finish(builder: walrus::FunctionBuilder, args: Vec<LocalId>, module: &mut Module) -> (f: FunctionId)
    ensures
        !contents(*old(module)).funcs.dom().contains(f),
        contents(*final(module)) == contents(*old(module)).with_function(
            f,
            FunctionView {
                typed: held_types(*old(module)).contains(building(builder).ty),
                sig: building(builder).sig,
                name: building(builder).name,
                body: FunctionBody::Local {
                    args: args@,
                    entry: building(builder).entry,
                    blocks: building(builder).blocks,
                },
            },
        ),
{
    builder.finish(args, &mut module.funcs)
}

} // verus!
