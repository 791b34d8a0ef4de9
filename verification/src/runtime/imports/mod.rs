//! The host's fixed imports, each replaced by an adapter.
//!
//! The module imports every operation of the host from one namespace, with
//! a slot wherever the operation takes or gives a host value. The host
//! offers the operations with references in those places. For each operation
//! of the catalogue that the module imports, the import is deleted, the
//! host's operation is imported, and an adapter is put between the two.

pub mod catalogue;

use vstd::prelude::*;
use vstd::string::StringExecFns;
use walrus::ir::{BinaryOp, LoadKind, MemArg, StoreKind};
use walrus::{ExportId, ExportItem, FunctionId, ImportId, ImportKind, LocalId, Module, ValType};

use crate::error::RewriteError;
use crate::relink::{
    detached, distinct_keys, exports_free, keys_alive, lemma_lookup_key_index, lemma_plain_kept,
    map_substitute_funcs, plain_kept, relinked, replaces, FuncMap,
};
use crate::runtime::imports::catalogue::{
    catalogue, catalogue_entries, joined, kinds1, kinds2, kinds3, views, Adapter, AdapterView,
    Entry, EntryView,
};
use crate::runtime::RuntimeData;
use crate::substitution::{erased, erased_of};
use crate::wasm::emit::{
    add_function, add_locals, flat, is_straight, lemma_straight_wf, lemma_submap_insert,
    lemma_submap_trans, writable,
};
use crate::wasm::module::{
    add_import_func, add_local, delete_import, element_members, find_import, import_kind,
    set_element_members,
};
use crate::wasm::{
    args_wf, contents, exports_spare, first_import, function_wf, imports_renewed, lemma_spare_kept,
    lemma_typed_grown, typed, wf, ElementView, FunctionBody, FunctionView, ImportView, ModuleView,
    Op, Signature,
};

verus! {

/// The namespace from which the module imports the host's operations, and
/// under which the host offers those on plain values.
pub const MODULE_NAME: &'static str = "godot_wasm";

/// The namespace under which the host offers the operations on objects.
pub const EXTERNREF_MODULE: &'static str = "godot_object_v2";

/// The prefix of the name of every adapter.
pub const ADAPTER_PREFIX: &'static str = "godot_wasm.";

/// The kinds of a list with a slot in place of every reference of the host.
pub open spec fn erased_all(kinds: Seq<ValType>) -> Seq<ValType> {
    Seq::new(kinds.len(), |i: int| erased_of(kinds[i]))
}

/// The kinds of a list with a slot in place of every reference of the host.
pub fn erase_all(kinds: &Vec<ValType>) -> (r: Vec<ValType>)
    ensures
        r@ == erased_all(kinds@),
{
    let n = kinds.len();
    let mut r: Vec<ValType> = Vec::new();
    let mut i: usize = 0;
    while i < n
        invariant
            i <= n,
            n == kinds@.len(),
            r@ == erased_all(kinds@.subrange(0, i as int)),
        decreases n - i,
    {
        r.push(erased(kinds[i]));
        i += 1;
        assert(r@ =~= erased_all(kinds@.subrange(0, i as int)));
    }
    assert(kinds@.subrange(0, n as int) =~= kinds@);
    r
}

/// What passes one argument of kind `t` on to the host: for a reference,
/// the reference in the slot.
pub open spec fn pass_code(t: ValType, local: LocalId, get: FunctionId) -> Seq<Op> {
    if t == ValType::Externref {
        seq![Op::LocalGet(local), Op::Call(get)]
    } else {
        seq![Op::LocalGet(local)]
    }
}

/// The start of a standard adapter: the first `upto` arguments are passed on.
pub open spec fn passes_code(
    params: Seq<ValType>,
    locals: Seq<LocalId>,
    get: FunctionId,
    upto: int,
) -> Seq<
    Op,
>
    decreases upto,
{
    if upto <= 0 {
        Seq::empty()
    } else {
        passes_code(params, locals, get, upto - 1) + pass_code(
            params[upto - 1],
            locals[upto - 1],
            get,
        )
    }
}

/// The end of a standard adapter: a reference that is the host's one result
/// is put in the table.
pub open spec fn return_code(results: Seq<ValType>, alloc: FunctionId) -> Seq<Op> {
    if results.len() == 1 && results[0] == ValType::Externref {
        seq![Op::Call(alloc)]
    } else {
        Seq::empty()
    }
}

/// The body of a standard adapter.
pub open spec fn standard_code(
    params: Seq<ValType>,
    results: Seq<ValType>,
    locals: Seq<LocalId>,
    target: FunctionId,
    runtime: RuntimeData,
) -> Seq<Op> {
    passes_code(params, locals, runtime.get_func, params.len() as int) + seq![Op::Call(target)]
        + return_code(results, runtime.alloc_func)
}

/// The body of a standard adapter: every argument is passed on, a slot as
/// the reference in it; the host's operation is called; a reference that
/// comes back is put in the table.
pub fn standard_adapter_code(
    params: &Vec<ValType>,
    results: &Vec<ValType>,
    locals: &Vec<LocalId>,
    target: FunctionId,
    runtime: &RuntimeData,
) -> (code: Vec<Op>)
    requires
        locals@.len() == params@.len(),
    ensures
        code@ == standard_code(params@, results@, locals@, target, *runtime),
        writable(code@),
        flat(code@),
{
    let mut code: Vec<Op> = Vec::new();
    let n = params.len();
    let mut i: usize = 0;
    while i < n
        invariant
            i <= n,
            n == params@.len(),
            n == locals@.len(),
            code@ == passes_code(params@, locals@, runtime.get_func, i as int),
            writable(code@),
            flat(code@),
        decreases n - i,
    {
        let ghost before = code@;
        code.push(Op::LocalGet(locals[i]));
        match params[i] {
            ValType::Externref => {
                code.push(Op::Call(runtime.get_func));
            },
            _ => {},
        }
        i += 1;
        assert(code@ =~= before + pass_code(params@[i - 1], locals@[i - 1], runtime.get_func));
    }
    let ghost head = code@;
    code.push(Op::Call(target));
    let ghost called = code@;
    if results.len() == 1 {
        match results[0] {
            ValType::Externref => {
                code.push(Op::Call(runtime.alloc_func));
            },
            _ => {},
        }
    }
    assert(code@ =~= head + seq![Op::Call(target)] + return_code(results@, runtime.alloc_func));
    code
}

/// The body of the adapter of `duplicate`.
pub open spec fn duplicate_code(i: LocalId, runtime: RuntimeData) -> Seq<Op> {
    seq![Op::LocalGet(i), Op::Call(runtime.get_func), Op::Call(runtime.alloc_func)]
}

/// The body of the adapter of `delete`.
pub open spec fn delete_code(i: LocalId, runtime: RuntimeData) -> Seq<Op> {
    seq![Op::LocalGet(i), Op::Call(runtime.free_func)]
}

/// How the generated code moves a slot to and from the module's memory:
/// with an alignment of two bytes promised.
pub open spec fn slot_access() -> MemArg {
    MemArg { align: 2, offset: 0 }
}

/// The body of the helper that the host calls for every string of a run:
/// the string is put in the table, its slot is written to the module's
/// memory at the scratch index, and the index moves on by one slot. The
/// helper says whether the run goes on.
pub open spec fn get_many_helper_code(o: LocalId, i: LocalId, runtime: RuntimeData) -> Seq<Op> {
    seq![
        Op::GlobalGet(runtime.index_global),
        Op::LocalTee(i),
        Op::LocalGet(o),
        Op::Call(runtime.alloc_func),
        Op::Store(runtime.main_memory, StoreKind::I32 { atomic: false }, slot_access()),
        Op::LocalGet(i),
        Op::I32Const(4),
        Op::Binop(BinaryOp::I32Add),
        Op::LocalTee(i),
        Op::GlobalSet(runtime.index_global),
        Op::LocalGet(i),
        Op::GlobalGet(runtime.limit_global),
        Op::Binop(BinaryOp::I32Ne),
    ]
}

/// The body of the adapter of `string_array.get_many`: the scratch index
/// and limit are set to the run in the module's memory, and the host's
/// operation is called with the helper.
pub open spec fn get_many_code(
    locals: Seq<LocalId>,
    helper: FunctionId,
    target: FunctionId,
    runtime: RuntimeData,
) -> Seq<Op> {
    seq![
        Op::LocalGet(locals[0]),
        Op::Call(runtime.get_func),
        Op::LocalGet(locals[1]),
        Op::RefFunc(helper),
        Op::LocalGet(locals[2]),
        Op::GlobalSet(runtime.index_global),
        Op::LocalGet(locals[3]),
        Op::GlobalSet(runtime.limit_global),
        Op::Call(target),
    ]
}

/// The body of the helper that the host calls for every string that it
/// builds an array from: the slot at the given place of the run is read
/// from the module's memory, and the reference in it is handed over. The
/// helper says whether the run goes on.
pub open spec fn build_helper_code(i: LocalId, runtime: RuntimeData) -> Seq<Op> {
    seq![
        Op::LocalGet(i),
        Op::I32Const(4),
        Op::Binop(BinaryOp::I32Mul),
        Op::GlobalGet(runtime.index_global),
        Op::Binop(BinaryOp::I32Add),
        Op::LocalTee(i),
        Op::Load(runtime.main_memory, LoadKind::I32 { atomic: false }, slot_access()),
        Op::Call(runtime.get_func),
        Op::LocalGet(i),
        Op::GlobalGet(runtime.limit_global),
        Op::Binop(BinaryOp::I32Ne),
    ]
}

/// The body of the adapter of `string_array.build`: the scratch index and
/// limit are set to the run in the module's memory, the host's operation is
/// called with the helper, and the array that comes back is put in the table.
pub open spec fn build_code(
    locals: Seq<LocalId>,
    helper: FunctionId,
    target: FunctionId,
    runtime: RuntimeData,
) -> Seq<Op> {
    seq![
        Op::RefFunc(helper),
        Op::LocalGet(locals[0]),
        Op::GlobalSet(runtime.index_global),
        Op::LocalGet(locals[1]),
        Op::GlobalSet(runtime.limit_global),
        Op::Call(target),
        Op::Call(runtime.alloc_func),
    ]
}

/// The signature under which the host offers the operation of an entry,
/// where the adapter calls one.
pub open spec fn host_signature(adapter: AdapterView) -> Option<(Seq<char>, Signature)> {
    match adapter {
        AdapterView::Standard { namespace, params, results } => Some(
            (namespace, Signature { params, results }),
        ),
        AdapterView::Duplicate => None,
        AdapterView::Delete => None,
        AdapterView::GetMany => Some(
            (
                EXTERNREF_MODULE@,
                Signature {
                    params: seq![ValType::Externref, ValType::I32, ValType::Funcref],
                    results: seq![ValType::I32],
                },
            ),
        ),
        AdapterView::Build => Some(
            (
                EXTERNREF_MODULE@,
                Signature { params: seq![ValType::Funcref], results: seq![ValType::Externref] },
            ),
        ),
    }
}

/// The signature of the adapter of an entry: that of the operation as the
/// module imports it.
pub open spec fn adapter_signature(adapter: AdapterView) -> Signature {
    let i = ValType::I32;
    match adapter {
        AdapterView::Standard { namespace, params, results } => Signature {
            params: erased_all(params),
            results: erased_all(results),
        },
        AdapterView::Duplicate => Signature { params: seq![i], results: seq![i] },
        AdapterView::Delete => Signature { params: seq![i], results: Seq::empty() },
        AdapterView::GetMany => Signature { params: seq![i, i, i, i], results: seq![i] },
        AdapterView::Build => Signature { params: seq![i, i], results: seq![i] },
    }
}

/// The signature and the body of the helper that the adapter of an entry
/// hands to the host, where it hands one over: the helper takes `arg` and
/// works with `local`.
pub open spec fn helper_of(
    adapter: AdapterView,
    arg: LocalId,
    local: LocalId,
    runtime: RuntimeData,
) -> Option<
    (Signature, Seq<Op>),
> {
    match adapter {
        AdapterView::GetMany => Some(
            (
                Signature { params: seq![ValType::Externref], results: seq![ValType::I32] },
                get_many_helper_code(arg, local, runtime),
            ),
        ),
        AdapterView::Build => Some(
            (
                Signature {
                    params: seq![ValType::I32],
                    results: seq![ValType::Externref, ValType::I32],
                },
                build_helper_code(arg, runtime),
            ),
        ),
        _ => None,
    }
}

/// The body of the adapter of an entry, over its argument locals, the
/// host's operation `target` and the helper `helper`.
pub open spec fn adapter_code(
    adapter: AdapterView,
    locals: Seq<LocalId>,
    target: FunctionId,
    helper: FunctionId,
    runtime: RuntimeData,
) -> Seq<Op> {
    match adapter {
        AdapterView::Standard { namespace, params, results } => standard_code(
            params,
            results,
            locals,
            target,
            runtime,
        ),
        AdapterView::Duplicate => duplicate_code(locals[0], runtime),
        AdapterView::Delete => delete_code(locals[0], runtime),
        AdapterView::GetMany => get_many_code(locals, helper, target, runtime),
        AdapterView::Build => build_code(locals, helper, target, runtime),
    }
}

/// The name of the adapter of the operation `name`.
pub open spec fn adapter_name(name: Seq<char>) -> Seq<char> {
    ADAPTER_PREFIX@ + name
}

/// The name of the helper of the adapter of the operation `name`.
pub open spec fn helper_name(name: Seq<char>) -> Seq<char> {
    ADAPTER_PREFIX@ + name + ".helper"@
}

/// `view` with the host's operation of `entry` imported as the function
/// `target` through the import `import`, where the entry calls one.
pub open spec fn with_host(
    view: ModuleView,
    entry: EntryView,
    target: FunctionId,
    import: ImportId,
) -> ModuleView {
    match host_signature(entry.adapter) {
        Some((namespace, sig)) => view.with_function(
            target,
            FunctionView { typed: true, sig, name: None, body: FunctionBody::Import(import) },
        ).with_import(
            import,
            ImportView { module: namespace, name: entry.name, kind: ImportKind::Function(target) },
        ),
        None => view,
    }
}

/// `view` with `helper` as one more member of the segment that declares the
/// helpers, where the entry has a helper.
pub open spec fn with_declared(
    view: ModuleView,
    entry: EntryView,
    helper: FunctionId,
    runtime: RuntimeData,
) -> ModuleView {
    match entry.adapter {
        AdapterView::GetMany | AdapterView::Build => ModuleView {
            elements: view.elements.insert(
                runtime.declare_funcs,
                ElementView {
                    members: view.elements[runtime.declare_funcs].members.push(Some(helper)),
                    ..view.elements[runtime.declare_funcs]
                },
            ),
            ..view
        },
        _ => view,
    }
}

/// Whether `new` is `old` with the adapter of `entry` installed as the
/// function `adapter`: the host's operation is imported where the adapter
/// calls one, the helper is added and declared where the adapter hands one
/// over, and the adapter is added. All of these are new.
pub open spec fn installed(
    old: ModuleView,
    new: ModuleView,
    entry: EntryView,
    runtime: RuntimeData,
    adapter: FunctionId,
) -> bool {
    exists|target: FunctionId, import: ImportId, helper: FunctionId, local: LocalId|
        #![trigger with_host(old, entry, target, import), helper_of(entry.adapter, new.funcs[helper].body->args[0], local, runtime)]
        installed_by(old, new, entry, runtime, adapter, target, import, helper, local)
}

/// Whether `new` is `old` with the adapter of `entry` installed as the
/// function `adapter`, over the host's operation `target` that `import`
/// brings in, the helper `helper` and its local `local`.
pub open spec fn installed_by(
    old: ModuleView,
    new: ModuleView,
    entry: EntryView,
    runtime: RuntimeData,
    adapter: FunctionId,
    target: FunctionId,
    import: ImportId,
    helper: FunctionId,
    local: LocalId,
) -> bool {
    let hosted = with_host(old, entry, target, import);
    let helped = match entry.adapter {
        AdapterView::GetMany | AdapterView::Build => with_declared(
            hosted.with_function(helper, new.funcs[helper]),
            entry,
            helper,
            runtime,
        ),
        _ => hosted,
    };
    &&& host_signature(entry.adapter) is Some ==> !old.funcs.dom().contains(target)
        && !old.imports.dom().contains(import)
    &&& helper_of(entry.adapter, new.funcs[helper].body->args[0], local, runtime) matches Some(
        (sig, code),
    ) ==> {
        &&& !hosted.funcs.dom().contains(helper)
        &&& is_straight(
            new.funcs[helper],
            sig,
            helper_name(entry.name),
            new.funcs[helper].body->args,
            code,
        )
        &&& new.funcs[helper].body->args.len() == 1
    }
    &&& !helped.funcs.dom().contains(adapter)
    &&& new == (ModuleView {
        locals: new.locals,
        ..helped.with_function(adapter, new.funcs[adapter])
    })
    &&& old.locals.submap_of(new.locals)
    &&& new.funcs[adapter].body is Local
    &&& new.funcs[adapter].body->args.len() == adapter_signature(entry.adapter).params.len()
    &&& is_straight(
        new.funcs[adapter],
        adapter_signature(entry.adapter),
        adapter_name(entry.name),
        new.funcs[adapter].body->args,
        adapter_code(entry.adapter, new.funcs[adapter].body->args, target, helper, runtime),
    )
}

/// A module that has grown by well-formed functions, and by imports that
/// bring in their own functions, is well formed.
pub proof fn lemma_wf_grown(old: ModuleView, new: ModuleView)
    requires
        wf(old),
        old.funcs.submap_of(new.funcs),
        old.locals.submap_of(new.locals),
        forall|f: FunctionId|
            new.funcs.dom().contains(f) && !old.funcs.dom().contains(f) ==> match (
                #[trigger] new.funcs[f]).body {
                FunctionBody::Local { args, entry, blocks } => typed(
                    new.locals,
                    args,
                    new.funcs[f].sig.params,
                ),
                _ => true,
            },
        forall|f: FunctionId|
            new.funcs.dom().contains(f) && !old.funcs.dom().contains(f) ==> function_wf(
                #[trigger] new.funcs[f],
            ),
        new.exports == old.exports,
        forall|i: ImportId|
            #![trigger new.imports[i]]
            new.imports.dom().contains(i) ==> (old.imports.dom().contains(i) && new.imports[i]
                == old.imports[i]) || (match new.imports[i].kind {
                ImportKind::Function(f) => new.funcs.dom().contains(f) && new.funcs[f].body
                    == FunctionBody::Import(i),
                _ => true,
            }),
    ensures
        wf(new),
{
    assert forall|f: FunctionId| new.funcs.dom().contains(f) implies function_wf(
        #[trigger] new.funcs[f],
    ) by {
        if old.funcs.dom().contains(f) {
            assert(new.funcs.dom().contains(f));
            assert(old.funcs[f] == new.funcs[f]);
        }
    }
    assert(args_wf(new)) by {
        assert forall|f: FunctionId|
            #![trigger new.funcs[f]]
            new.funcs.dom().contains(f) implies (old.funcs.dom().contains(f) && new.funcs[f].sig
            == old.funcs[f].sig && (new.funcs[f].body is Local ==> old.funcs[f].body is Local
            && new.funcs[f].body->args == old.funcs[f].body->args)) || (match new.funcs[f].body {
            FunctionBody::Local { args, entry, blocks } => typed(
                new.locals,
                args,
                new.funcs[f].sig.params,
            ),
            _ => true,
        }) by {
            if old.funcs.dom().contains(f) {
                assert(new.funcs.dom().contains(f));
                assert(old.funcs[f] == new.funcs[f]);
            }
        }
        crate::wasm::lemma_args_grown(old, new);
    }
    assert forall|e: ExportId| new.exports.dom().contains(e) implies match (
        #[trigger] new.exports[e]).item {
        ExportItem::Function(f) => new.funcs.dom().contains(f),
        _ => true,
    } by {
        match old.exports[e].item {
            ExportItem::Function(f) => {
                assert(old.funcs.dom().contains(f));
                assert(new.funcs.dom().contains(f));
                assert(old.funcs[f] == new.funcs[f]);
            },
            _ => {},
        }
    }
    assert forall|i: ImportId| new.imports.dom().contains(i) implies match (
        #[trigger] new.imports[i]).kind {
        ImportKind::Function(f) => new.funcs.dom().contains(f) && new.funcs[f].body
            == FunctionBody::Import(i),
        _ => true,
    } by {
        if old.imports.dom().contains(i) && new.imports[i] == old.imports[i] {
            match old.imports[i].kind {
                ImportKind::Function(f) => {
                    assert(old.funcs.dom().contains(f));
                    assert(new.funcs.dom().contains(f));
                    assert(old.funcs[f] == new.funcs[f]);
                },
                _ => {},
            }
        }
    }
}

/// Installs the adapter of an entry that calls one operation of the host
/// and hands over no helper.
pub fn install_standard(
    module: &mut Module,
    name: &String,
    namespace: &String,
    params: &Vec<ValType>,
    results: &Vec<ValType>,
    runtime: &RuntimeData,
) -> (adapter: FunctionId)
    requires
        wf(contents(*old(module))),
    ensures
        installed(
            contents(*old(module)),
            contents(*final(module)),
            EntryView {
                name: name@,
                adapter: AdapterView::Standard {
                    namespace: namespace@,
                    params: params@,
                    results: results@,
                },
            },
            *runtime,
            adapter,
        ),
        wf(contents(*final(module))),
{
    let ghost start = contents(*module);
    let ghost entry = EntryView {
        name: name@,
        adapter: AdapterView::Standard { namespace: namespace@, params: params@, results: results@ },
    };
    let (target, import) = add_import_func(
        module,
        namespace.as_str(),
        name.as_str(),
        params.as_slice(),
        results.as_slice(),
    );
    let ghost hosted = contents(*module);
    let own_params = erase_all(params);
    let own_results = erase_all(results);
    let locals = add_locals(module, &own_params);
    let code = standard_adapter_code(params, results, &locals, target, runtime);
    let ghost args = locals@;
    let adapter = add_function(
        module,
        joined(ADAPTER_PREFIX, name.as_str()),
        &own_params,
        &own_results,
        locals,
        &code,
    );
    proof {
        let end = contents(*module);
        let v = end.funcs[adapter];
        assert(hosted == with_host(start, entry, target, import));
        assert(v.body->args == args);
        lemma_straight_wf(v, adapter_signature(entry.adapter), adapter_name(name@), args, code@);
        assert(start.funcs.submap_of(end.funcs)) by {
            assert forall|f: FunctionId| start.funcs.dom().contains(f) implies #[trigger] end.funcs.dom().contains(
                f,
            ) && start.funcs[f] == end.funcs[f] by {
                assert(hosted.funcs.dom().contains(f));
            }
        }
        assert forall|f: FunctionId|
            end.funcs.dom().contains(f) && !start.funcs.dom().contains(f) implies function_wf(
            #[trigger] end.funcs[f],
        ) by {
            if f != adapter {
                assert(f == target);
                assert(end.funcs[f] == hosted.funcs[f]);
            }
        }
        lemma_wf_grown(start, end);
        assert(helper_of(entry.adapter, end.funcs[adapter].body->args[0], args[0], *runtime) is None);
        assert(end == (ModuleView { locals: end.locals, ..hosted.with_function(adapter, v) }));
        assert(installed(start, end, entry, *runtime, adapter));
    }
    adapter
}

/// Installs an adapter that calls no operation of the host: that of
/// `duplicate` or that of `delete`.
pub fn install_plain(module: &mut Module, name: &String, delete: bool, runtime: &RuntimeData) -> (adapter: FunctionId)
    requires
        wf(contents(*old(module))),
    ensures
        installed(
            contents(*old(module)),
            contents(*final(module)),
            EntryView {
                name: name@,
                adapter: if delete {
                    AdapterView::Delete
                } else {
                    AdapterView::Duplicate
                },
            },
            *runtime,
            adapter,
        ),
        wf(contents(*final(module))),
{
    let ghost start = contents(*module);
    let ghost entry = EntryView {
        name: name@,
        adapter: if delete {
            AdapterView::Delete
        } else {
            AdapterView::Duplicate
        },
    };
    let params = kinds1(ValType::I32);
    let results = if delete {
        crate::runtime::imports::catalogue::kinds0()
    } else {
        kinds1(ValType::I32)
    };
    let locals = add_locals(module, &params);
    let i = locals[0];
    let code: Vec<Op> = if delete {
        vec![Op::LocalGet(i), Op::Call(runtime.free_func)]
    } else {
        vec![Op::LocalGet(i), Op::Call(runtime.get_func), Op::Call(runtime.alloc_func)]
    };
    let ghost args = locals@;
    proof {
        assert(code@ =~= adapter_code(entry.adapter, args, runtime.get_func, runtime.get_func, *runtime));
    }
    let adapter = add_function(
        module,
        joined(ADAPTER_PREFIX, name.as_str()),
        &params,
        &results,
        locals,
        &code,
    );
    proof {
        let end = contents(*module);
        let v = end.funcs[adapter];
        assert(v.body->args == args);
        lemma_straight_wf(v, adapter_signature(entry.adapter), adapter_name(name@), args, code@);
        assert(start.funcs.submap_of(end.funcs));
        lemma_wf_grown(start, end);
        assert(with_host(start, entry, runtime.get_func, arbitrary::<ImportId>()) == start);
        assert(helper_of(entry.adapter, end.funcs[adapter].body->args[0], args[0], *runtime) is None);
        assert(end == (ModuleView { locals: end.locals, ..start.with_function(adapter, v) }));
        assert(adapter_code(entry.adapter, args, runtime.get_func, adapter, *runtime) == code@);
        assert(installed(start, end, entry, *runtime, adapter));
    }
    adapter
}

/// Declares `helper` as a function that is taken by reference.
pub fn declare(module: &mut Module, helper: FunctionId, runtime: &RuntimeData)
    requires
        contents(*old(module)).elements.dom().contains(runtime.declare_funcs),
    ensures
        contents(*final(module)) == (ModuleView {
            elements: contents(*old(module)).elements.insert(
                runtime.declare_funcs,
                ElementView {
                    members: contents(*old(module)).elements[runtime.declare_funcs].members.push(
                        Some(helper),
                    ),
                    ..contents(*old(module)).elements[runtime.declare_funcs]
                },
            ),
            ..contents(*old(module))
        }),
{
    let mut members = element_members(module, runtime.declare_funcs);
    members.push(Some(helper));
    set_element_members(module, runtime.declare_funcs, members);
}

/// Installs an adapter that hands a helper to the host: that of
/// `string_array.build` or that of `string_array.get_many`.
pub fn install_batch(module: &mut Module, name: &String, build: bool, runtime: &RuntimeData) -> (adapter: FunctionId)
    requires
        wf(contents(*old(module))),
        contents(*old(module)).elements.dom().contains(runtime.declare_funcs),
    ensures
        installed(
            contents(*old(module)),
            contents(*final(module)),
            EntryView {
                name: name@,
                adapter: if build {
                    AdapterView::Build
                } else {
                    AdapterView::GetMany
                },
            },
            *runtime,
            adapter,
        ),
        wf(contents(*final(module))),
        contents(*final(module)).elements.dom() == contents(*old(module)).elements.dom(),
{
    let ghost start = contents(*module);
    let ghost entry = EntryView {
        name: name@,
        adapter: if build {
            AdapterView::Build
        } else {
            AdapterView::GetMany
        },
    };
    let slot = ValType::I32;
    let host_params = if build {
        kinds1(ValType::Funcref)
    } else {
        kinds3(ValType::Externref, ValType::I32, ValType::Funcref)
    };
    let host_results = if build {
        kinds1(ValType::Externref)
    } else {
        kinds1(ValType::I32)
    };
    let space = EXTERNREF_MODULE.to_owned();
    let (target, import) = add_import_func(
        module,
        space.as_str(),
        name.as_str(),
        host_params.as_slice(),
        host_results.as_slice(),
    );
    let ghost hosted = contents(*module);
    assert(hosted == with_host(start, entry, target, import));
    let helper_params = if build {
        kinds1(ValType::I32)
    } else {
        kinds1(ValType::Externref)
    };
    let helper_results = if build {
        kinds2(ValType::Externref, ValType::I32)
    } else {
        kinds1(ValType::I32)
    };
    let helper_args = add_locals(module, &helper_params);
    let ghost with_args = contents(*module);
    let arg = helper_args[0];
    let local = add_local(module, ValType::I32);
    let ghost with_local = contents(*module);
    proof {
        lemma_submap_insert(with_args.locals, local, ValType::I32);
        lemma_submap_trans(start.locals, with_args.locals, with_local.locals);
    }
    let helper_code: Vec<Op> = if build {
        vec![
            Op::LocalGet(arg),
            Op::I32Const(4),
            Op::Binop(BinaryOp::I32Mul),
            Op::GlobalGet(runtime.index_global),
            Op::Binop(BinaryOp::I32Add),
            Op::LocalTee(arg),
            Op::Load(
                runtime.main_memory,
                LoadKind::I32 { atomic: false },
                MemArg { align: 2, offset: 0 },
            ),
            Op::Call(runtime.get_func),
            Op::LocalGet(arg),
            Op::GlobalGet(runtime.limit_global),
            Op::Binop(BinaryOp::I32Ne),
        ]
    } else {
        vec![
            Op::GlobalGet(runtime.index_global),
            Op::LocalTee(local),
            Op::LocalGet(arg),
            Op::Call(runtime.alloc_func),
            Op::Store(
                runtime.main_memory,
                StoreKind::I32 { atomic: false },
                MemArg { align: 2, offset: 0 },
            ),
            Op::LocalGet(local),
            Op::I32Const(4),
            Op::Binop(BinaryOp::I32Add),
            Op::LocalTee(local),
            Op::GlobalSet(runtime.index_global),
            Op::LocalGet(local),
            Op::GlobalGet(runtime.limit_global),
            Op::Binop(BinaryOp::I32Ne),
        ]
    };
    let ghost helper_ids = helper_args@;
    let ghost planned = helper_of(entry.adapter, arg, local, *runtime)->0;
    proof {
        assert(helper_code@ =~= planned.1);
    }
    let helper = add_function(
        module,
        joined(ADAPTER_PREFIX, name.as_str()).concat(".helper"),
        &helper_params,
        &helper_results,
        helper_args,
        &helper_code,
    );
    let ghost with_helper = contents(*module);
    declare(module, helper, runtime);
    let ghost declared = contents(*module);
    let params = if build {
        kinds2(slot, slot)
    } else {
        let mut p = kinds3(slot, slot, slot);
        p.push(slot);
        assert(p@ =~= seq![slot, slot, slot, slot]);
        p
    };
    let results = kinds1(slot);
    let locals = add_locals(module, &params);
    let code: Vec<Op> = if build {
        vec![
            Op::RefFunc(helper),
            Op::LocalGet(locals[0]),
            Op::GlobalSet(runtime.index_global),
            Op::LocalGet(locals[1]),
            Op::GlobalSet(runtime.limit_global),
            Op::Call(target),
            Op::Call(runtime.alloc_func),
        ]
    } else {
        vec![
            Op::LocalGet(locals[0]),
            Op::Call(runtime.get_func),
            Op::LocalGet(locals[1]),
            Op::RefFunc(helper),
            Op::LocalGet(locals[2]),
            Op::GlobalSet(runtime.index_global),
            Op::LocalGet(locals[3]),
            Op::GlobalSet(runtime.limit_global),
            Op::Call(target),
        ]
    };
    let ghost args = locals@;
    proof {
        assert(code@ =~= adapter_code(entry.adapter, args, target, helper, *runtime));
    }
    let adapter = add_function(
        module,
        joined(ADAPTER_PREFIX, name.as_str()),
        &params,
        &results,
        locals,
        &code,
    );
    proof {
        let end = contents(*module);
        let v = end.funcs[adapter];
        let h = end.funcs[helper];
        assert(h == with_helper.funcs[helper]);
        assert(h.body->args == helper_ids);
        assert(h.body->args[0] == arg);
        assert(v.body->args == args);
        lemma_straight_wf(v, adapter_signature(entry.adapter), adapter_name(name@), args, code@);
        lemma_straight_wf(
            h,
            planned.0,
            helper_name(name@),
            helper_ids,
            helper_code@,
        );
        assert(start.funcs.submap_of(end.funcs)) by {
            assert forall|f: FunctionId| start.funcs.dom().contains(f) implies #[trigger] end.funcs.dom().contains(
                f,
            ) && start.funcs[f] == end.funcs[f] by {
                assert(hosted.funcs.dom().contains(f));
                assert(with_helper.funcs.dom().contains(f));
            }
        }
        assert forall|f: FunctionId|
            end.funcs.dom().contains(f) && !start.funcs.dom().contains(f) implies function_wf(
            #[trigger] end.funcs[f],
        ) by {
            if f != adapter && f != helper {
                assert(f == target);
                assert(end.funcs[f] == hosted.funcs[f]);
            }
        }
        assert(declared.locals == with_local.locals);
        lemma_submap_trans(start.locals, with_local.locals, end.locals);
        lemma_submap_trans(with_args.locals, with_local.locals, end.locals);
        lemma_typed_grown(with_args.locals, end.locals, helper_ids, helper_params@);
        assert(typed(end.locals, args, params@));
        lemma_wf_grown(start, end);
        assert(end.elements.dom() =~= start.elements.dom());
        let helped = with_declared(hosted.with_function(helper, h), entry, helper, *runtime);
        assert(end == (ModuleView { locals: end.locals, ..helped.with_function(adapter, v) }));
        assert(installed(start, end, entry, *runtime, adapter));
    }
    adapter
}

/// Installs the adapter of `entry`.
pub fn install(module: &mut Module, entry: &Entry, runtime: &RuntimeData) -> (adapter: FunctionId)
    requires
        wf(contents(*old(module))),
        contents(*old(module)).elements.dom().contains(runtime.declare_funcs),
    ensures
        installed(contents(*old(module)), contents(*final(module)), entry@, *runtime, adapter),
        wf(contents(*final(module))),
        contents(*final(module)).elements.dom() == contents(*old(module)).elements.dom(),
        contents(*final(module)).exports == contents(*old(module)).exports,
        contents(*old(module)).funcs.submap_of(contents(*final(module)).funcs),
        !contents(*old(module)).funcs.dom().contains(adapter),
        contents(*final(module)).funcs.dom().contains(adapter),
        forall|i: ImportId|
            #![trigger contents(*final(module)).imports[i]]
            contents(*final(module)).imports.dom().contains(i) && !(contents(
                *old(module),
            ).imports.dom().contains(i) && contents(*final(module)).imports[i] == contents(
                *old(module),
            ).imports[i]) ==> match contents(*final(module)).imports[i].kind {
                ImportKind::Function(f) => !contents(*old(module)).funcs.dom().contains(f),
                _ => true,
            },
        forall|i: ImportId|
            contents(*old(module)).imports.dom().contains(i) ==> #[trigger] contents(
                *final(module),
            ).imports.dom().contains(i),
{
    match &entry.adapter {
        Adapter::Standard { namespace, params, results } => install_standard(
            module,
            &entry.name,
            namespace,
            params,
            results,
            runtime,
        ),
        Adapter::Duplicate => install_plain(module, &entry.name, false, runtime),
        Adapter::Delete => install_plain(module, &entry.name, true, runtime),
        Adapter::GetMany => install_batch(module, &entry.name, false, runtime),
        Adapter::Build => install_batch(module, &entry.name, true, runtime),
    }
}

/// Whether `entries` can stand for the functions that were replaced so far
/// in a module with the content `view`: no function is replaced twice,
/// every replaced function is still there and came through an import, and
/// no import that is left brings in a replaced function.
pub open spec fn replacing(view: ModuleView, entries: Seq<(FunctionId, FunctionId)>) -> bool {
    &&& distinct_keys(entries)
    &&& keys_alive(view, entries)
    &&& forall|k: int|
        0 <= k < entries.len() ==> view.funcs[(#[trigger] entries[k]).0].body is Import
    &&& forall|i: ImportId|
        view.imports.dom().contains(i) ==> match (#[trigger] view.imports[i]).kind {
            ImportKind::Function(f) => !replaces(entries, f),
            _ => true,
        }
}

/// Whether `new` and `after` are what one entry of the catalogue makes of
/// `old` and `before`. Where the module imports the entry's operation as a
/// function, the import is deleted, the adapter is installed, and the
/// function that the import brought in is replaced by the adapter. Nothing
/// changes otherwise.
pub open spec fn step(
    old: ModuleView,
    new: ModuleView,
    entry: EntryView,
    runtime: RuntimeData,
    before: Seq<(FunctionId, FunctionId)>,
    after: Seq<(FunctionId, FunctionId)>,
) -> bool {
    match old.find_import(MODULE_NAME@, entry.name) {
        Some(id) => match old.imports[id].kind {
            ImportKind::Function(source) => exists|adapter: FunctionId|
                #![trigger installed(old.without_import(id), new, entry, runtime, adapter)]
                installed(old.without_import(id), new, entry, runtime, adapter) && after
                    == before.push((source, adapter)),
            _ => new == old && after == before,
        },
        None => new == old && after == before,
    }
}

/// Replaces the import of one operation of the host by its adapter, if the
/// module imports the operation as a function.
pub fn replace_import(
    module: &mut Module,
    func_map: &mut FuncMap,
    entry: &Entry,
    runtime: &RuntimeData,
)
    requires
        wf(contents(*old(module))),
        old(func_map).wf(),
        replacing(contents(*old(module)), old(func_map)@),
        contents(*old(module)).elements.dom().contains(runtime.declare_funcs),
    ensures
        step(
            contents(*old(module)),
            contents(*final(module)),
            entry@,
            *runtime,
            old(func_map)@,
            final(func_map)@,
        ),
        wf(contents(*final(module))),
        final(func_map).wf(),
        replacing(contents(*final(module)), final(func_map)@),
        contents(*final(module)).elements.dom().contains(runtime.declare_funcs),
        contents(*old(module)).find_import(MODULE_NAME@, entry@.name) matches Some(id)
            ==> contents(*old(module)).imports.dom().contains(id),
{
    let ghost start = contents(*module);
    let ghost entries = func_map@;
    let space = MODULE_NAME.to_owned();
    match find_import(module, space.as_str(), entry.name.as_str()) {
        Some(id) => {
            match import_kind(module, id) {
                ImportKind::Function(source) => {
                    delete_import(module, id);
                    let ghost deleted = contents(*module);
                    proof {
                        assert(deleted == start.without_import(id));
                        assert(wf(deleted)) by {
                            assert forall|i: ImportId| deleted.imports.dom().contains(i) implies match (
                                #[trigger] deleted.imports[i]).kind {
                                ImportKind::Function(f) => deleted.funcs.dom().contains(f)
                                    && deleted.funcs[f].body == FunctionBody::Import(i),
                                _ => true,
                            } by {
                                assert(start.imports.dom().contains(i));
                                assert(deleted.imports[i] == start.imports[i]);
                            }
                        }
                    }
                    let adapter = install(module, entry, runtime);
                    func_map.insert(source, adapter);
                    proof {
                        let end = contents(*module);
                        let after = func_map@;
                        assert(!replaces(entries, source));
                        assert(after == entries.push((source, adapter)));
                        assert(after.drop_last() =~= entries);
                        assert(start.funcs.dom().contains(source));
                        assert(start.funcs[source].body == FunctionBody::Import(id));
                        assert(keys_alive(end, after)) by {
                            assert forall|k: int| 0 <= k < after.len() implies end.funcs.dom().contains(
                                (#[trigger] after[k]).0,
                            ) by {
                                if k < entries.len() {
                                    assert(after[k] == entries[k]);
                                    assert(start.funcs.dom().contains(entries[k].0));
                                }
                            }
                        }
                        assert forall|k: int| 0 <= k < after.len() implies end.funcs[(
                            #[trigger] after[k]).0].body is Import by {
                            if k < entries.len() {
                                assert(after[k] == entries[k]);
                                assert(start.funcs.dom().contains(entries[k].0));
                                assert(end.funcs[entries[k].0] == start.funcs[entries[k].0]);
                            } else {
                                assert(end.funcs[source] == start.funcs[source]);
                            }
                        }
                        assert forall|i: ImportId| end.imports.dom().contains(i) implies match (
                            #[trigger] end.imports[i]).kind {
                            ImportKind::Function(f) => !replaces(after, f),
                            _ => true,
                        } by {
                            match end.imports[i].kind {
                                ImportKind::Function(f) => {
                                    if replaces(after, f) {
                                        lemma_lookup_key_index(after, f);
                                        let k = choose|k: int|
                                            0 <= k < after.len() && (#[trigger] after[k]).0 == f;
                                        assert(start.funcs.dom().contains(f)) by {
                                            if k < entries.len() {
                                                assert(after[k] == entries[k]);
                                            }
                                        }
                                        assert(deleted.imports.dom().contains(i)
                                            && end.imports[i] == deleted.imports[i]);
                                        assert(start.imports.dom().contains(i));
                                        assert(i != id);
                                        assert(start.funcs[f].body == FunctionBody::Import(i));
                                        if k < entries.len() {
                                            assert(replaces(entries, f)) by {
                                                crate::relink::lemma_lookup_key(entries, k);
                                            }
                                        }
                                    }
                                },
                                _ => {},
                            }
                        }
                    }
                },
                _ => {},
            }
        },
        None => {},
    }
}

/// Whether `trace` and `maps` record what the first entries of the
/// catalogue make of `old`: the content of the module and the functions
/// replaced, before the first entry and after each, entry by entry as
/// [`step`] says.
pub open spec fn traced(
    old: ModuleView,
    runtime: RuntimeData,
    trace: Seq<ModuleView>,
    maps: Seq<Seq<(FunctionId, FunctionId)>>,
) -> bool {
    &&& 1 <= trace.len() <= catalogue_entries().len() + 1
    &&& maps.len() == trace.len()
    &&& trace[0] == old
    &&& maps[0] == Seq::<(FunctionId, FunctionId)>::empty()
    &&& forall|k: int|
        0 <= k < trace.len() - 1 ==> step(
            #[trigger] trace[k],
            trace[k + 1],
            catalogue_entries()[k],
            runtime,
            maps[k],
            maps[k + 1],
        )
}

/// Whether `new` is what the catalogue makes of `old`: entry by entry as
/// [`step`] says, and relinked at the end.
pub open spec fn generated(old: ModuleView, new: ModuleView, runtime: RuntimeData) -> bool {
    exists|trace: Seq<ModuleView>, maps: Seq<Seq<(FunctionId, FunctionId)>>|
        #![trigger relinked(trace.last(), new, maps.last())]
        {
            &&& traced(old, runtime, trace, maps)
            &&& trace.len() == catalogue_entries().len() + 1
            &&& relinked(trace.last(), new, maps.last())
        }
}

/// One more step behind a record of steps.
proof fn lemma_traced_step(
    old: ModuleView,
    runtime: RuntimeData,
    trace: Seq<ModuleView>,
    maps: Seq<Seq<(FunctionId, FunctionId)>>,
    next: ModuleView,
    replaced: Seq<(FunctionId, FunctionId)>,
)
    requires
        traced(old, runtime, trace, maps),
        trace.len() <= catalogue_entries().len(),
        step(
            trace.last(),
            next,
            catalogue_entries()[trace.len() - 1],
            runtime,
            maps.last(),
            replaced,
        ),
    ensures
        traced(old, runtime, trace.push(next), maps.push(replaced)),
{
    let longer = trace.push(next);
    let more = maps.push(replaced);
    assert forall|k: int| 0 <= k < longer.len() - 1 implies step(
        #[trigger] longer[k],
        longer[k + 1],
        catalogue_entries()[k],
        runtime,
        more[k],
        more[k + 1],
    ) by {
        if k < trace.len() - 1 {
            assert(longer[k] == trace[k]);
            assert(longer[k + 1] == trace[k + 1]);
            assert(more[k] == maps[k]);
            assert(more[k + 1] == maps[k + 1]);
        } else {
            assert(longer[k] == trace.last());
            assert(more[k] == maps.last());
        }
    }
}

/// The namespace and name of every operation of the catalogue.
pub open spec fn catalogue_names() -> Set<(Seq<char>, Seq<char>)> {
    Set::new(
        |p: (Seq<char>, Seq<char>)|
            p.0 == MODULE_NAME@ && exists|k: int|
                0 <= k < catalogue_entries().len() && (#[trigger] catalogue_entries()[k]).name
                    == p.1,
    )
}

/// One entry of the catalogue leaves the exports as they are, keeps every
/// function, and leaves no import but those that were there and one that
/// brings in a new function.
pub proof fn lemma_step_renews(
    old: ModuleView,
    new: ModuleView,
    entry: EntryView,
    runtime: RuntimeData,
    before: Seq<(FunctionId, FunctionId)>,
    after: Seq<(FunctionId, FunctionId)>,
)
    requires
        step(old, new, entry, runtime, before, after),
    ensures
        new.exports == old.exports,
        new.export_order == old.export_order,
        old.funcs.submap_of(new.funcs),
        imports_renewed(old, new),
{
    match old.find_import(MODULE_NAME@, entry.name) {
        Some(id) => match old.imports[id].kind {
            ImportKind::Function(source) => {
                let gone = old.without_import(id);
                let adapter = choose|adapter: FunctionId|
                    #![trigger installed(gone, new, entry, runtime, adapter)]
                    installed(gone, new, entry, runtime, adapter);
                lemma_installed_renews(gone, new, entry, runtime, adapter);
                assert forall|i: ImportId| new.imports.dom().contains(i) implies (
                old.imports.dom().contains(i) && (#[trigger] new.imports[i]) == old.imports[i])
                    || match new.imports[i].kind {
                    ImportKind::Function(g) => !old.funcs.dom().contains(g),
                    _ => false,
                } by {
                    if gone.imports.dom().contains(i) && new.imports[i] == gone.imports[i] {
                        assert(old.imports.dom().contains(i));
                    }
                }
            },
            _ => {},
        },
        None => {},
    }
}

/// Installing an adapter leaves the exports as they are, keeps every
/// function, and adds no import but one that brings in a new function.
pub proof fn lemma_installed_renews(
    old: ModuleView,
    new: ModuleView,
    entry: EntryView,
    runtime: RuntimeData,
    adapter: FunctionId,
)
    requires
        installed(old, new, entry, runtime, adapter),
    ensures
        new.exports == old.exports,
        new.export_order == old.export_order,
        old.funcs.submap_of(new.funcs),
        imports_renewed(old, new),
{
    let (target, import, helper, local) = choose|
        target: FunctionId,
        import: ImportId,
        helper: FunctionId,
        local: LocalId,
    |
        #![trigger with_host(old, entry, target, import), helper_of(entry.adapter, new.funcs[helper].body->args[0], local, runtime)]
        installed_by(old, new, entry, runtime, adapter, target, import, helper, local);
    let hosted = with_host(old, entry, target, import);
    assert(old.funcs.submap_of(hosted.funcs));
    assert(imports_renewed(old, hosted));
}

/// The import that is found has the namespace and name that were looked for.
pub proof fn lemma_first_import(
    imports: Map<ImportId, ImportView>,
    order: Seq<ImportId>,
    namespace: Seq<char>,
    name: Seq<char>,
)
    ensures
        first_import(imports, order, namespace, name) matches Some(id) ==> imports[id].module
            == namespace && imports[id].name == name,
    decreases order.len(),
{
    if order.len() > 0 && !(imports[order[0]].module == namespace && imports[order[0]].name
        == name) {
        lemma_first_import(imports, order.drop_first(), namespace, name);
    }
}

/// Where no export hands out the function of an import that the catalogue
/// names, none hands out the function that one entry of the catalogue
/// replaces, and this stays so after the entry.
pub proof fn lemma_step_spares(
    start: ModuleView,
    old: ModuleView,
    new: ModuleView,
    runtime: RuntimeData,
    before: Seq<(FunctionId, FunctionId)>,
    after: Seq<(FunctionId, FunctionId)>,
    k: int,
)
    requires
        0 <= k < catalogue_entries().len(),
        step(old, new, catalogue_entries()[k], runtime, before, after),
        wf(old),
        old.find_import(MODULE_NAME@, catalogue_entries()[k].name) matches Some(id)
            ==> old.imports.dom().contains(id),
        exports_spare(old, catalogue_names()),
        exports_free(old, before),
        old.exports == start.exports,
        old.export_order == start.export_order,
        start.funcs.submap_of(old.funcs),
        imports_renewed(start, old),
    ensures
        exports_spare(new, catalogue_names()),
        exports_free(new, after),
        new.exports == start.exports,
        new.export_order == start.export_order,
        start.funcs.submap_of(new.funcs),
        imports_renewed(start, new),
{
    let entry = catalogue_entries()[k];
    lemma_step_renews(old, new, entry, runtime, before, after);
    lemma_spare_kept(old, new, catalogue_names());
    lemma_submap_trans(start.funcs, old.funcs, new.funcs);
    assert forall|i: ImportId| new.imports.dom().contains(i) implies (start.imports.dom().contains(
        i,
    ) && (#[trigger] new.imports[i]) == start.imports[i]) || match new.imports[i].kind {
        ImportKind::Function(g) => !start.funcs.dom().contains(g),
        _ => false,
    } by {
        if old.imports.dom().contains(i) && new.imports[i] == old.imports[i] {
        } else {
            match new.imports[i].kind {
                ImportKind::Function(g) => {
                    if start.funcs.dom().contains(g) {
                        assert(old.funcs.dom().contains(g));
                    }
                },
                _ => {},
            }
        }
    }
    assert forall|e: ExportId| new.exports.dom().contains(e) implies match (
        #[trigger] new.exports[e]).item {
        ExportItem::Function(f) => !replaces(after, f),
        _ => true,
    } by {
        assert(old.exports.dom().contains(e));
        assert(old.exports[e] == new.exports[e]);
        match new.exports[e].item {
            ExportItem::Function(f) => {
                assert(!replaces(before, f));
                match old.find_import(MODULE_NAME@, entry.name) {
                    Some(id) => match old.imports[id].kind {
                        ImportKind::Function(source) => {
                            assert(after.drop_last() =~= before);
                            assert(after.last().0 == source);
                            assert(old.imports.dom().contains(id));
                            assert(old.imports[id].module == MODULE_NAME@ && old.imports[id].name
                                == entry.name) by {
                                lemma_first_import(
                                    old.imports,
                                    old.import_order,
                                    MODULE_NAME@,
                                    entry.name,
                                );
                            }
                            assert(catalogue_names().contains((MODULE_NAME@, entry.name)));
                            assert(source != f);
                        },
                        _ => {},
                    },
                    None => {},
                }
            },
            _ => {},
        }
    }
}

/// Where no export hands out a replaced function, none of the exports and
/// imports of the module refers to one.
proof fn lemma_exports_detached(view: ModuleView, entries: Seq<(FunctionId, FunctionId)>)
    requires
        replacing(view, entries),
        exports_free(view, entries),
    ensures
        detached(view, entries),
{
}

/// Replaces every import of an operation of the catalogue by its adapter,
/// and redirects the module to the adapters.
///
/// An operation that the module does not import is passed over. This never
/// fails. The function that such an import brought in is deleted at the
/// end, so no export may hand out the function of an import that the
/// catalogue names.
pub fn generate_imports(module: &mut Module, runtime: &RuntimeData) -> (r: Result<(), RewriteError>)
    requires
        wf(contents(*old(module))),
        exports_spare(contents(*old(module)), catalogue_names()),
        contents(*old(module)).elements.dom().contains(runtime.declare_funcs),
    ensures
        r is Ok,
        generated(contents(*old(module)), contents(*final(module)), *runtime),
        wf(contents(*final(module))),
        contents(*final(module)).elements.dom().contains(runtime.declare_funcs),
        contents(*final(module)).exports == contents(*old(module)).exports,
        contents(*final(module)).export_order == contents(*old(module)).export_order,
        imports_renewed(contents(*old(module)), contents(*final(module))),
        plain_kept(contents(*old(module)), contents(*final(module))),
{
    let list = catalogue();
    let mut func_map = FuncMap::new();
    let ghost start = contents(*module);
    let ghost mut trace: Seq<ModuleView> = seq![start];
    let ghost mut maps: Seq<Seq<(FunctionId, FunctionId)>> = seq![func_map@];
    let n = list.len();
    let mut i: usize = 0;
    while i < n
        invariant
            i <= n,
            n == list@.len(),
            views(list@) == catalogue_entries(),
            wf(contents(*module)),
            func_map.wf(),
            replacing(contents(*module), func_map@),
            exports_spare(contents(*module), catalogue_names()),
            exports_free(contents(*module), func_map@),
            contents(*module).exports == start.exports,
            contents(*module).export_order == start.export_order,
            start.funcs.submap_of(contents(*module).funcs),
            imports_renewed(start, contents(*module)),
            contents(*module).elements.dom().contains(runtime.declare_funcs),
            traced(start, *runtime, trace, maps),
            trace.len() == i + 1,
            trace.last() == contents(*module),
            maps.last() == func_map@,
        decreases n - i,
    {
        assert(list@[i as int]@ == views(list@)[i as int]);
        let ghost before = contents(*module);
        let ghost replaced = func_map@;
        replace_import(module, &mut func_map, &list[i], runtime);
        proof {
            lemma_step_spares(
                start,
                before,
                contents(*module),
                *runtime,
                replaced,
                func_map@,
                i as int,
            );
            lemma_traced_step(start, *runtime, trace, maps, contents(*module), func_map@);
            trace = trace.push(contents(*module));
            maps = maps.push(func_map@);
        }
        i += 1;
    }
    let ghost mid = contents(*module);
    proof {
        lemma_exports_detached(mid, func_map@);
    }
    map_substitute_funcs(module, &func_map);
    proof {
        assert(relinked(trace.last(), contents(*module), maps.last()));
        lemma_plain_kept(start, mid, contents(*module), func_map@);
    }
    Ok(())
}

} // verus!
