//! Rewriting the exports and imports that the metadata describes, so that
//! the host sees references where the module works with slots.

use vstd::prelude::*;
use vstd::string::StringExecFns;
use walrus::ir::{BinaryOp, UnaryOp};
use walrus::{ExportId, ExportItem, FunctionId, ImportId, ImportKind, LocalId, Module, ValType};

use crate::decode::{
    ArgType, FunctionArgs, FunctionArgsView, GodotWasmBindgenData, SymbolType, SymbolTypeView,
    SymbolView,
};
use crate::error::RewriteError;
use crate::relink::{
    detached, distinct_keys, keys_alive, lemma_lookup_key_index, lemma_not_in_prefix,
    lemma_plain_kept, lemma_prefix_step, lookup, map_substitute_funcs, plain_kept, relink,
    relinked, replaces, FuncMap,
};
use crate::runtime::RuntimeData;
use crate::wasm::emit::{
    add_function, add_locals, flat, is_straight, lemma_straight_wf, lemma_submap_trans, writable,
};
use crate::wasm::module::{
    add_function_for_import, export_ids, export_item, export_name, function_name, function_params,
    function_results, function_type, import_ids, import_kind, import_module, import_name,
    set_export_item, set_import_kind, type_ids,
};
use crate::wasm::{
    contents, exports_renewed, exports_spare, exports_wf, function_wf, functions_wf, imports_wf,
    lists, wf, ExportView, FunctionBody, FunctionView, ImportView, ModuleView, Op, Signature,
};

verus! {

/// The kind of value that the host passes for an argument kind: a reference
/// for a host value, a number otherwise.
pub open spec fn val_type_of(t: ArgType) -> ValType {
    match t {
        ArgType::U8 | ArgType::I8 | ArgType::U16 | ArgType::I16 | ArgType::U32 | ArgType::I32 => ValType::I32,
        ArgType::U64 | ArgType::I64 => ValType::I64,
        ArgType::F32 => ValType::F32,
        ArgType::F64 => ValType::F64,
        ArgType::GodotValue => ValType::Externref,
    }
}

/// A value kind as the module itself has it: a slot, which is a 32-bit
/// integer, in place of a reference of the host.
pub open spec fn erased_of(t: ValType) -> ValType {
    match t {
        ValType::Externref => ValType::I32,
        _ => t,
    }
}

/// The kinds that the host passes for a list of argument kinds.
pub open spec fn val_types_of(ts: Seq<ArgType>) -> Seq<ValType> {
    Seq::new(ts.len(), |i: int| val_type_of(ts[i]))
}

/// The kinds that the module itself has for a list of argument kinds.
pub open spec fn erased_types_of(ts: Seq<ArgType>) -> Seq<ValType> {
    Seq::new(ts.len(), |i: int| erased_of(val_type_of(ts[i])))
}

impl ArgType {
    /// The kind of value that the host passes for this argument kind.
    pub fn val_type(self) -> (t: ValType)
        ensures
            t == val_type_of(self),
    {
        match self {
            ArgType::U8 | ArgType::I8 | ArgType::U16 | ArgType::I16 | ArgType::U32 | ArgType::I32 => ValType::I32,
            ArgType::U64 | ArgType::I64 => ValType::I64,
            ArgType::F32 => ValType::F32,
            ArgType::F64 => ValType::F64,
            ArgType::GodotValue => ValType::Externref,
        }
    }
}

/// The kind that the module itself has for `t`.
pub fn erased(t: ValType) -> (e: ValType)
    ensures
        e == erased_of(t),
{
    match t {
        ValType::Externref => ValType::I32,
        ValType::I32 => ValType::I32,
        ValType::I64 => ValType::I64,
        ValType::F32 => ValType::F32,
        ValType::F64 => ValType::F64,
        ValType::V128 => ValType::V128,
        ValType::Funcref => ValType::Funcref,
    }
}

/// Whether two value kinds are the same.
pub fn same_val_type(a: ValType, b: ValType) -> (r: bool)
    ensures
        r == (a == b),
{
    match (a, b) {
        (ValType::I32, ValType::I32) => true,
        (ValType::I64, ValType::I64) => true,
        (ValType::F32, ValType::F32) => true,
        (ValType::F64, ValType::F64) => true,
        (ValType::V128, ValType::V128) => true,
        (ValType::Externref, ValType::Externref) => true,
        (ValType::Funcref, ValType::Funcref) => true,
        _ => false,
    }
}

/// The kinds that the host passes for a list of argument kinds.
pub fn val_types(ts: &Vec<ArgType>) -> (r: Vec<ValType>)
    ensures
        r@ == val_types_of(ts@),
{
    let n = ts.len();
    let mut r: Vec<ValType> = Vec::new();
    let mut i: usize = 0;
    while i < n
        invariant
            i <= n,
            n == ts@.len(),
            r@ == val_types_of(ts@.subrange(0, i as int)),
        decreases n - i,
    {
        r.push(ts[i].val_type());
        i += 1;
        assert(r@ =~= val_types_of(ts@.subrange(0, i as int)));
    }
    assert(ts@.subrange(0, n as int) =~= ts@);
    r
}

/// The kinds that the module itself has for a list of argument kinds.
pub fn erased_types(ts: &Vec<ArgType>) -> (r: Vec<ValType>)
    ensures
        r@ == erased_types_of(ts@),
{
    let n = ts.len();
    let mut r: Vec<ValType> = Vec::new();
    let mut i: usize = 0;
    while i < n
        invariant
            i <= n,
            n == ts@.len(),
            r@ == erased_types_of(ts@.subrange(0, i as int)),
        decreases n - i,
    {
        r.push(erased(ts[i].val_type()));
        i += 1;
        assert(r@ =~= erased_types_of(ts@.subrange(0, i as int)));
    }
    assert(ts@.subrange(0, n as int) =~= ts@);
    r
}

/// Whether `index` is the first place at which two lists of the same length
/// differ.
pub open spec fn first_difference(a: Seq<ValType>, b: Seq<ValType>, index: int) -> bool {
    &&& 0 <= index < a.len()
    &&& a[index] != b[index]
    &&& forall|j: int| 0 <= j < index ==> a[j] == b[j]
}

/// Whether `verdict` is what comparing a declared signature with a
/// function's own gives: the lengths of the parameter lists are compared
/// first, then those of the result lists, then the parameters one by one,
/// then the results. The first disagreement is the error.
pub open spec fn checked(
    params: Seq<ValType>,
    results: Seq<ValType>,
    own_params: Seq<ValType>,
    own_results: Seq<ValType>,
    verdict: Result<(), RewriteError>,
) -> bool {
    match verdict {
        Ok(()) => params == own_params && results == own_results,
        Err(RewriteError::ParameterLengthMismatch { declared, actual }) => {
            &&& declared == params.len()
            &&& actual == own_params.len()
            &&& declared != actual
        },
        Err(RewriteError::ResultLengthMismatch { declared, actual }) => {
            &&& params.len() == own_params.len()
            &&& declared == results.len()
            &&& actual == own_results.len()
            &&& declared != actual
        },
        Err(RewriteError::ParameterTypeMismatch { index, declared, actual }) => {
            &&& params.len() == own_params.len()
            &&& results.len() == own_results.len()
            &&& first_difference(params, own_params, index as int)
            &&& declared == params[index as int]
            &&& actual == own_params[index as int]
        },
        Err(RewriteError::ResultTypeMismatch { index, declared, actual }) => {
            &&& params == own_params
            &&& results.len() == own_results.len()
            &&& first_difference(results, own_results, index as int)
            &&& declared == results[index as int]
            &&& actual == own_results[index as int]
        },
        Err(RewriteError::NoMainMemory) => false,
        Err(RewriteError::MissingType) => false,
    }
}

/// The first place at which two lists of the same length differ, if they do.
pub fn find_difference(a: &Vec<ValType>, b: &Vec<ValType>) -> (r: Option<usize>)
    requires
        a@.len() == b@.len(),
    ensures
        match r {
            Some(i) => first_difference(a@, b@, i as int),
            None => a@ == b@,
        },
{
    let n = a.len();
    let mut i: usize = 0;
    while i < n
        invariant
            i <= n,
            n == a@.len(),
            n == b@.len(),
            forall|j: int| 0 <= j < i ==> a@[j] == b@[j],
        decreases n - i,
    {
        if !same_val_type(a[i], b[i]) {
            return Some(i);
        }
        i += 1;
    }
    assert(a@ =~= b@);
    None
}

/// Compares a declared signature, in the kinds that the module itself has,
/// with a function's own.
pub fn check_signature(
    params: &Vec<ValType>,
    results: &Vec<ValType>,
    own_params: &Vec<ValType>,
    own_results: &Vec<ValType>,
) -> (verdict: Result<(), RewriteError>)
    ensures
        checked(params@, results@, own_params@, own_results@, verdict),
{
    if params.len() != own_params.len() {
        return Err(
            RewriteError::ParameterLengthMismatch {
                declared: params.len(),
                actual: own_params.len(),
            },
        );
    }
    if results.len() != own_results.len() {
        return Err(
            RewriteError::ResultLengthMismatch {
                declared: results.len(),
                actual: own_results.len(),
            },
        );
    }
    match find_difference(params, own_params) {
        Some(index) => {
            return Err(
                RewriteError::ParameterTypeMismatch {
                    index,
                    declared: params[index],
                    actual: own_params[index],
                },
            );
        },
        None => {},
    }
    match find_difference(results, own_results) {
        Some(index) => {
            return Err(
                RewriteError::ResultTypeMismatch {
                    index,
                    declared: results[index],
                    actual: own_results[index],
                },
            );
        },
        None => {},
    }
    Ok(())
}

/// What brings a value of kind `t` that crosses into the module into the
/// form that the module works with: a narrow integer is cut or extended to
/// its width, a reference is put in the slot table, anything else stays.
pub open spec fn normalize(t: ArgType, alloc: FunctionId) -> Seq<Op> {
    match t {
        ArgType::U8 => seq![Op::I32Const(255), Op::Binop(BinaryOp::I32And)],
        ArgType::I8 => seq![Op::Unop(UnaryOp::I32Extend8S)],
        ArgType::U16 => seq![Op::I32Const(65535), Op::Binop(BinaryOp::I32And)],
        ArgType::I16 => seq![Op::Unop(UnaryOp::I32Extend16S)],
        ArgType::GodotValue => seq![Op::Call(alloc)],
        _ => Seq::empty(),
    }
}

/// Appends [`normalize`] to `code`.
pub fn push_normalize(code: &mut Vec<Op>, t: ArgType, alloc: FunctionId)
    ensures
        final(code)@ == old(code)@ + normalize(t, alloc),
        writable(old(code)@) ==> writable(final(code)@),
        flat(old(code)@) ==> flat(final(code)@),
{
    let ghost before = code@;
    match t {
        ArgType::U8 => {
            code.push(Op::I32Const(255));
            code.push(Op::Binop(BinaryOp::I32And));
        },
        ArgType::I8 => {
            code.push(Op::Unop(UnaryOp::I32Extend8S));
        },
        ArgType::U16 => {
            code.push(Op::I32Const(65535));
            code.push(Op::Binop(BinaryOp::I32And));
        },
        ArgType::I16 => {
            code.push(Op::Unop(UnaryOp::I32Extend16S));
        },
        ArgType::GodotValue => {
            code.push(Op::Call(alloc));
        },
        _ => {},
    }
    assert(code@ =~= before + normalize(t, alloc));
}

/// The start of an export's adapter: each of the first `upto` arguments is
/// read and brought into the module's form.
pub open spec fn export_params_code(
    params: Seq<ArgType>,
    locals: Seq<LocalId>,
    alloc: FunctionId,
    upto: int,
) -> Seq<Op>
    decreases upto,
{
    if upto <= 0 {
        Seq::empty()
    } else {
        export_params_code(params, locals, alloc, upto - 1) + seq![Op::LocalGet(locals[upto - 1])]
            + normalize(params[upto - 1], alloc)
    }
}

/// What takes one result of the wrapped function off the stack: a slot is
/// kept aside, the reference in it is stored, and the slot is given back;
/// a number is stored as it is.
pub open spec fn export_result_code(
    t: ArgType,
    local: LocalId,
    temp: LocalId,
    runtime: RuntimeData,
) -> Seq<Op> {
    match t {
        ArgType::GodotValue => seq![
            Op::LocalTee(temp),
            Op::Call(runtime.get_func),
            Op::LocalSet(local),
            Op::LocalGet(temp),
            Op::Call(runtime.free_func),
        ],
        _ => seq![Op::LocalSet(local)],
    }
}

/// The results of the wrapped function are taken off the stack from the
/// last one back: here the last `done` of them.
pub open spec fn export_results_code(
    results: Seq<ArgType>,
    locals: Seq<LocalId>,
    temp: LocalId,
    runtime: RuntimeData,
    done: int,
) -> Seq<Op>
    decreases done,
{
    if done <= 0 {
        Seq::empty()
    } else {
        export_results_code(results, locals, temp, runtime, done - 1) + export_result_code(
            results[results.len() - done],
            locals[results.len() - done],
            temp,
            runtime,
        )
    }
}

/// The end of an adapter: the stored results are read in order.
pub open spec fn reads(locals: Seq<LocalId>) -> Seq<Op> {
    Seq::new(locals.len(), |i: int| Op::LocalGet(locals[i]))
}

/// The body of the adapter that takes the place of an exported function.
pub open spec fn export_code(
    params: Seq<ArgType>,
    results: Seq<ArgType>,
    var_params: Seq<LocalId>,
    var_results: Seq<LocalId>,
    temp: LocalId,
    target: FunctionId,
    runtime: RuntimeData,
) -> Seq<Op> {
    export_params_code(params, var_params, runtime.alloc_func, params.len() as int) + seq![
        Op::Call(target),
    ] + export_results_code(results, var_results, temp, runtime, results.len() as int) + reads(
        var_results,
    )
}

/// Appends the reads of `locals` to `code`.
pub fn push_reads(code: &mut Vec<Op>, locals: &Vec<LocalId>)
    ensures
        final(code)@ == old(code)@ + reads(locals@),
        writable(old(code)@) ==> writable(final(code)@),
        flat(old(code)@) ==> flat(final(code)@),
{
    let ghost before = code@;
    let n = locals.len();
    let mut i: usize = 0;
    assert(code@ =~= before + reads(locals@.subrange(0, 0)));
    while i < n
        invariant
            i <= n,
            n == locals@.len(),
            code@ == before + reads(locals@.subrange(0, i as int)),
            writable(before) ==> writable(code@),
            flat(before) ==> flat(code@),
        decreases n - i,
    {
        code.push(Op::LocalGet(locals[i]));
        i += 1;
        assert(code@ =~= before + reads(locals@.subrange(0, i as int)));
    }
    assert(locals@.subrange(0, n as int) =~= locals@);
}

/// The body of the adapter that takes the place of an exported function:
/// every argument is read and brought into the module's form, the function
/// is called, its results are stored from the last one back, and read again
/// in order.
pub fn export_adapter_code(
    params: &Vec<ArgType>,
    results: &Vec<ArgType>,
    var_params: &Vec<LocalId>,
    var_results: &Vec<LocalId>,
    temp: LocalId,
    target: FunctionId,
    runtime: &RuntimeData,
) -> (code: Vec<Op>)
    requires
        var_params@.len() == params@.len(),
        var_results@.len() == results@.len(),
    ensures
        code@ == export_code(
            params@,
            results@,
            var_params@,
            var_results@,
            temp,
            target,
            *runtime,
        ),
        writable(code@),
        flat(code@),
{
    let mut code: Vec<Op> = Vec::new();
    let n = params.len();
    let mut i: usize = 0;
    while i < n
        invariant
            i <= n,
            n == params@.len(),
            n == var_params@.len(),
            code@ == export_params_code(params@, var_params@, runtime.alloc_func, i as int),
            writable(code@),
            flat(code@),
        decreases n - i,
    {
        let ghost before = code@;
        code.push(Op::LocalGet(var_params[i]));
        push_normalize(&mut code, params[i], runtime.alloc_func);
        i += 1;
        assert(code@ =~= before + seq![Op::LocalGet(var_params@[i - 1])] + normalize(
            params@[i - 1],
            runtime.alloc_func,
        ));
    }
    code.push(Op::Call(target));
    let ghost head = code@;
    let m = results.len();
    let mut k: usize = 0;
    assert(code@ =~= head + export_results_code(results@, var_results@, temp, *runtime, 0));
    while k < m
        invariant
            k <= m,
            m == results@.len(),
            m == var_results@.len(),
            code@ == head + export_results_code(results@, var_results@, temp, *runtime, k as int),
            writable(code@),
            flat(code@),
        decreases m - k,
    {
        let ghost before = code@;
        let at = m - 1 - k;
        match results[at] {
            ArgType::GodotValue => {
                code.push(Op::LocalTee(temp));
                code.push(Op::Call(runtime.get_func));
                code.push(Op::LocalSet(var_results[at]));
                code.push(Op::LocalGet(temp));
                code.push(Op::Call(runtime.free_func));
            },
            _ => {
                code.push(Op::LocalSet(var_results[at]));
            },
        }
        k += 1;
        assert(code@ =~= before + export_result_code(
            results@[at as int],
            var_results@[at as int],
            temp,
            *runtime,
        ));
        assert(code@ =~= head + export_results_code(
            results@,
            var_results@,
            temp,
            *runtime,
            k as int,
        ));
    }
    push_reads(&mut code, var_results);
    code
}

/// The start of an import's adapter: each of the first `upto` arguments is
/// read; for a slot, the reference in it is read and the slot given back.
pub open spec fn import_params_code(
    params: Seq<ArgType>,
    locals: Seq<LocalId>,
    runtime: RuntimeData,
    upto: int,
) -> Seq<Op>
    decreases upto,
{
    if upto <= 0 {
        Seq::empty()
    } else {
        import_params_code(params, locals, runtime, upto - 1) + import_param_code(
            params[upto - 1],
            locals[upto - 1],
            runtime,
        )
    }
}

/// What passes one argument on to the host.
pub open spec fn import_param_code(t: ArgType, local: LocalId, runtime: RuntimeData) -> Seq<Op> {
    match t {
        ArgType::GodotValue => seq![
            Op::LocalGet(local),
            Op::Call(runtime.get_func),
            Op::LocalGet(local),
            Op::Call(runtime.free_func),
        ],
        _ => seq![Op::LocalGet(local)],
    }
}

/// The results of the host's function are taken off the stack from the last
/// one back, each brought into the module's form and stored: here the last
/// `done` of them.
pub open spec fn import_results_code(
    results: Seq<ArgType>,
    locals: Seq<LocalId>,
    runtime: RuntimeData,
    done: int,
) -> Seq<Op>
    decreases done,
{
    if done <= 0 {
        Seq::empty()
    } else {
        import_results_code(results, locals, runtime, done - 1) + normalize(
            results[results.len() - done],
            runtime.alloc_func,
        ) + seq![Op::LocalSet(locals[results.len() - done])]
    }
}

/// The body of the adapter that the module calls in place of an imported
/// function.
pub open spec fn import_code(
    params: Seq<ArgType>,
    results: Seq<ArgType>,
    var_params: Seq<LocalId>,
    var_results: Seq<LocalId>,
    target: FunctionId,
    runtime: RuntimeData,
) -> Seq<Op> {
    import_params_code(params, var_params, runtime, params.len() as int) + seq![Op::Call(target)]
        + import_results_code(results, var_results, runtime, results.len() as int) + reads(
        var_results,
    )
}

/// The body of the adapter that the module calls in place of an imported
/// function: every argument is passed on, a slot as the reference in it;
/// the host's function is called; its results are brought into the module's
/// form and stored from the last one back, and read again in order.
pub fn import_adapter_code(
    params: &Vec<ArgType>,
    results: &Vec<ArgType>,
    var_params: &Vec<LocalId>,
    var_results: &Vec<LocalId>,
    target: FunctionId,
    runtime: &RuntimeData,
) -> (code: Vec<Op>)
    requires
        var_params@.len() == params@.len(),
        var_results@.len() == results@.len(),
    ensures
        code@ == import_code(params@, results@, var_params@, var_results@, target, *runtime),
        writable(code@),
        flat(code@),
{
    let mut code: Vec<Op> = Vec::new();
    let n = params.len();
    let mut i: usize = 0;
    while i < n
        invariant
            i <= n,
            n == params@.len(),
            n == var_params@.len(),
            code@ == import_params_code(params@, var_params@, *runtime, i as int),
            writable(code@),
            flat(code@),
        decreases n - i,
    {
        let ghost before = code@;
        match params[i] {
            ArgType::GodotValue => {
                code.push(Op::LocalGet(var_params[i]));
                code.push(Op::Call(runtime.get_func));
                code.push(Op::LocalGet(var_params[i]));
                code.push(Op::Call(runtime.free_func));
            },
            _ => {
                code.push(Op::LocalGet(var_params[i]));
            },
        }
        i += 1;
        assert(code@ =~= before + import_param_code(
            params@[i - 1],
            var_params@[i - 1],
            *runtime,
        ));
    }
    code.push(Op::Call(target));
    let ghost head = code@;
    let m = results.len();
    let mut k: usize = 0;
    assert(code@ =~= head + import_results_code(results@, var_results@, *runtime, 0));
    while k < m
        invariant
            k <= m,
            m == results@.len(),
            m == var_results@.len(),
            code@ == head + import_results_code(results@, var_results@, *runtime, k as int),
            writable(code@),
            flat(code@),
        decreases m - k,
    {
        let ghost before = code@;
        let at = m - 1 - k;
        push_normalize(&mut code, results[at], runtime.alloc_func);
        code.push(Op::LocalSet(var_results[at]));
        k += 1;
        assert(code@ =~= before + normalize(results@[at as int], runtime.alloc_func) + seq![
            Op::LocalSet(var_results@[at as int]),
        ]);
        assert(code@ =~= head + import_results_code(results@, var_results@, *runtime, k as int));
    }
    push_reads(&mut code, var_results);
    code
}

/// What the metadata says of the exported function `name`: the arguments of
/// the last symbol that describes an export of that name.
pub open spec fn export_args(symbols: Seq<SymbolView>, name: Seq<char>) -> Option<FunctionArgsView>
    decreases symbols.len(),
{
    if symbols.len() == 0 {
        None
    } else {
        match symbols.last().inner {
            SymbolTypeView::ExportFunction(e) if e.name == name => Some(e.args),
            _ => export_args(symbols.drop_last(), name),
        }
    }
}

/// What the metadata says of the function `name` imported from `namespace`:
/// the last symbol that describes that import.
pub open spec fn import_args(
    symbols: Seq<SymbolView>,
    namespace: Seq<char>,
    name: Seq<char>,
) -> Option<
    FunctionArgsView,
>
    decreases symbols.len(),
{
    if symbols.len() == 0 {
        None
    } else {
        match symbols.last().inner {
            SymbolTypeView::ImportFunction(i) if i.module == namespace && i.name == name => Some(
                i.args,
            ),
            _ => import_args(symbols.drop_last(), namespace, name),
        }
    }
}

/// The namespace and name of every import that the metadata describes.
pub open spec fn described_imports(symbols: Seq<SymbolView>) -> Set<(Seq<char>, Seq<char>)> {
    Set::new(|p: (Seq<char>, Seq<char>)| import_args(symbols, p.0, p.1) is Some)
}

/// Looks up what the metadata says of the exported function `name`. Of two
/// symbols for one name, the later one counts.
pub fn find_export<'a>(data: &'a GodotWasmBindgenData, name: &String) -> (r: Option<&'a FunctionArgs>)
    ensures
        match r {
            Some(args) => export_args(data@, name@) == Some(args@),
            None => export_args(data@, name@) is None,
        },
{
    let mut i = data.symbols.len();
    assert(data@.subrange(0, i as int) =~= data@);
    while i > 0
        invariant
            i <= data.symbols@.len(),
            export_args(data@, name@) == export_args(data@.subrange(0, i as int), name@),
        decreases i,
    {
        i -= 1;
        let ghost upto = data@.subrange(0, i + 1);
        assert(upto.last() == data.symbols@[i as int]@);
        assert(upto.drop_last() =~= data@.subrange(0, i as int));
        match &data.symbols[i].inner {
            SymbolType::ExportFunction(e) => {
                if e.name == *name {
                    return Some(&e.args);
                }
            },
            SymbolType::ImportFunction(_) => {},
        }
    }
    None
}

/// Looks up what the metadata says of the function `name` imported from
/// `namespace`. Of two symbols for one import, the later one counts.
pub fn find_import<'a>(
    data: &'a GodotWasmBindgenData,
    namespace: &String,
    name: &String,
) -> (r: Option<
    &'a FunctionArgs,
>)
    ensures
        match r {
            Some(args) => import_args(data@, namespace@, name@) == Some(args@),
            None => import_args(data@, namespace@, name@) is None,
        },
{
    let mut i = data.symbols.len();
    assert(data@.subrange(0, i as int) =~= data@);
    while i > 0
        invariant
            i <= data.symbols@.len(),
            import_args(data@, namespace@, name@) == import_args(
                data@.subrange(0, i as int),
                namespace@,
                name@,
            ),
        decreases i,
    {
        i -= 1;
        let ghost upto = data@.subrange(0, i + 1);
        assert(upto.last() == data.symbols@[i as int]@);
        assert(upto.drop_last() =~= data@.subrange(0, i as int));
        match &data.symbols[i].inner {
            SymbolType::ImportFunction(f) => {
                if f.module == *namespace && f.name == *name {
                    return Some(&f.args);
                }
            },
            SymbolType::ExportFunction(_) => {},
        }
    }
    None
}

/// Whether `v` is the adapter that takes the place of the exported function
/// `target`: a function with the declared signature, named like the export,
/// whose body is [`export_code`] over locals of its own.
pub open spec fn is_export_adapter(
    v: FunctionView,
    name: Seq<char>,
    target: FunctionId,
    args: FunctionArgsView,
    runtime: RuntimeData,
) -> bool {
    exists|var_results: Seq<LocalId>, temp: LocalId|
        #![trigger export_code(args.params, args.results, v.body->args, var_results, temp, target, runtime)]
        {
            &&& v.body is Local
            &&& v.body->args.len() == args.params.len()
            &&& var_results.len() == args.results.len()
            &&& is_straight(
                v,
                Signature {
                    params: val_types_of(args.params),
                    results: val_types_of(args.results),
                },
                name,
                v.body->args,
                export_code(
                    args.params,
                    args.results,
                    v.body->args,
                    var_results,
                    temp,
                    target,
                    runtime,
                ),
            )
        }
}

/// The signature of a function of the module, if the module holds its type.
pub fn own_signature(module: &Module, f: FunctionId) -> (r: Option<(Vec<ValType>, Vec<ValType>)>)
    requires
        contents(*module).funcs.dom().contains(f),
    ensures
        match r {
            Some((params, results)) => {
                &&& contents(*module).funcs[f].typed
                &&& params@ == contents(*module).funcs[f].sig.params
                &&& results@ == contents(*module).funcs[f].sig.results
            },
            None => !contents(*module).funcs[f].typed,
        },
{
    let ty = function_type(module, f);
    let held = type_ids(module);
    let n = held.len();
    let mut i: usize = 0;
    while i < n
        invariant
            i <= n,
            n == held@.len(),
            contents(*module).funcs.dom().contains(f),
            contents(*module).funcs[f].typed == held@.contains(ty),
            forall|k: int| 0 <= k < i ==> held@[k] != ty,
        decreases n - i,
    {
        if held[i] == ty {
            assert(held@.contains(ty));
            return Some((function_params(module, f), function_results(module, f)));
        }
        i += 1;
    }
    assert(!held@.contains(ty));
    None
}

/// What the check of the function `v` against what the metadata says of it
/// must give: [`RewriteError::MissingType`] where the module does not hold
/// the function's type, the comparison of the two signatures otherwise.
pub open spec fn function_checked(
    args: FunctionArgsView,
    v: FunctionView,
    verdict: Result<(), RewriteError>,
) -> bool {
    if v.typed {
        args_checked(args, v.sig, verdict)
    } else {
        verdict == Err::<(), RewriteError>(RewriteError::MissingType)
    }
}

/// What the comparison of the metadata's signature for a function with the
/// function's own must give.
pub open spec fn args_checked(
    args: FunctionArgsView,
    own: Signature,
    verdict: Result<(), RewriteError>,
) -> bool {
    checked(
        erased_types_of(args.params),
        erased_types_of(args.results),
        own.params,
        own.results,
        verdict,
    )
}

/// Puts an adapter in the place of one exported function.
///
/// The declared signature is compared with the function's own; where they
/// disagree, or where the module does not hold the function's type, the
/// module is left as it is.
pub fn substitute_export(
    module: &mut Module,
    export: ExportId,
    target: FunctionId,
    name: String,
    args: &FunctionArgs,
    runtime: &RuntimeData,
) -> (r: Result<FunctionId, RewriteError>)
    requires
        wf(contents(*old(module))),
        contents(*old(module)).exports.dom().contains(export),
        contents(*old(module)).exports[export].item == ExportItem::Function(target),
        contents(*old(module)).exports[export].name == name@,
    ensures
        function_checked(
            args@,
            contents(*old(module)).funcs[target],
            match r {
                Ok(_) => Ok(()),
                Err(e) => Err(e),
            },
        ),
        r is Err ==> contents(*final(module)) == contents(*old(module)),
        r matches Ok(g) ==> {
            &&& !contents(*old(module)).funcs.dom().contains(g)
            &&& contents(*final(module)) == (ModuleView {
                funcs: contents(*old(module)).funcs.insert(g, contents(*final(module)).funcs[g]),
                func_order: contents(*old(module)).func_order.push(g),
                exports: contents(*old(module)).exports.insert(
                    export,
                    ExportView { name: name@, item: ExportItem::Function(g) },
                ),
                locals: contents(*final(module)).locals,
                ..contents(*old(module))
            })
            &&& contents(*old(module)).locals.submap_of(contents(*final(module)).locals)
            &&& is_export_adapter(contents(*final(module)).funcs[g], name@, target, args@, *runtime)
            &&& wf(contents(*final(module)))
        },
{
    let ghost start = contents(*module);
    let func_params = val_types(&args.params);
    let func_results = val_types(&args.results);
    let (own_params, own_results) = match own_signature(module, target) {
        Some(own) => own,
        None => {
            return Err(RewriteError::MissingType);
        },
    };
    let erased_params = erased_types(&args.params);
    let erased_results = erased_types(&args.results);
    check_signature(&erased_params, &erased_results, &own_params, &own_results)?;
    let var_params = add_locals(module, &func_params);
    let ghost with_params = contents(*module);
    let var_results = add_locals(module, &func_results);
    let ghost with_results = contents(*module);
    let temp = crate::wasm::module::add_local(module, ValType::I32);
    let ghost with_temp = contents(*module);
    proof {
        assert(start.locals.submap_of(with_temp.locals)) by {
            assert forall|k: LocalId| start.locals.dom().contains(k) implies #[trigger] with_temp.locals.dom().contains(
                k,
            ) && start.locals[k] == with_temp.locals[k] by {
                assert(with_params.locals.dom().contains(k));
                assert(with_results.locals.dom().contains(k));
            }
        }
    }
    let code = export_adapter_code(
        &args.params,
        &args.results,
        &var_params,
        &var_results,
        temp,
        target,
        runtime,
    );
    let ghost arg_ids = var_params@;
    let ghost result_ids = var_results@;
    let ghost n = name@;
    let f = add_function(module, name, &func_params, &func_results, var_params, &code);
    let ghost built = contents(*module);
    set_export_item(module, export, ExportItem::Function(f));
    proof {
        let end = contents(*module);
        let v = end.funcs[f];
        assert(v == built.funcs[f]);
        assert(v.body->args == arg_ids);
        assert(is_straight(
            v,
            Signature { params: val_types_of(args@.params), results: val_types_of(args@.results) },
            n,
            v.body->args,
            export_code(
                args@.params,
                args@.results,
                v.body->args,
                result_ids,
                temp,
                target,
                *runtime,
            ),
        ));
        assert(is_export_adapter(v, n, target, args@, *runtime));
        lemma_straight_wf(
            v,
            Signature { params: func_params@, results: func_results@ },
            n,
            arg_ids,
            code@,
        );
        assert(end.funcs =~= start.funcs.insert(f, v));
        assert forall|g: FunctionId| end.funcs.dom().contains(g) implies function_wf(
            #[trigger] end.funcs[g],
        ) by {
            if g != f {
                assert(end.funcs[g] == start.funcs[g]);
            }
        }
        assert(exports_wf(end)) by {
            assert forall|e: ExportId| end.exports.dom().contains(e) implies match (
                #[trigger] end.exports[e]).item {
                ExportItem::Function(h) => end.funcs.dom().contains(h),
                _ => true,
            } by {
                if e != export {
                    assert(end.exports[e] == start.exports[e]);
                }
            }
        }
        assert(imports_wf(end)) by {
            assert forall|i: ImportId| end.imports.dom().contains(i) implies match (
                #[trigger] end.imports[i]).kind {
                ImportKind::Function(h) => end.funcs.dom().contains(h) && end.funcs[h].body
                    == crate::wasm::FunctionBody::Import(i),
                _ => true,
            } by {
                assert(end.imports[i] == start.imports[i]);
            }
        }
        assert(functions_wf(end));
        assert(wf(end));
        assert(end.locals == with_temp.locals);
        assert(end == (ModuleView {
            funcs: start.funcs.insert(f, end.funcs[f]),
            func_order: start.func_order.push(f),
            exports: start.exports.insert(
                export,
                ExportView { name: n, item: ExportItem::Function(f) },
            ),
            locals: end.locals,
            ..start
        }));
    }
    Ok(f)
}

/// Whether `new` holds everything that `old` holds outside its imports and
/// exports: the same functions with the same content and possibly more, the
/// same locals and possibly more, and the same of everything else.
pub open spec fn grown(old: ModuleView, new: ModuleView) -> bool {
    &&& old.funcs.submap_of(new.funcs)
    &&& old.locals.submap_of(new.locals)
    &&& new.elements == old.elements
    &&& new.element_order == old.element_order
    &&& new.globals == old.globals
    &&& new.global_order == old.global_order
    &&& new.tables == old.tables
    &&& new.memories == old.memories
    &&& new.customs == old.customs
}

/// What has grown twice has grown.
pub proof fn lemma_grown_step(a: ModuleView, b: ModuleView, c: ModuleView)
    requires
        grown(a, b),
        b.funcs.submap_of(c.funcs),
        b.locals.submap_of(c.locals),
        c.elements == b.elements,
        c.element_order == b.element_order,
        c.globals == b.globals,
        c.global_order == b.global_order,
        c.tables == b.tables,
        c.memories == b.memories,
        c.customs == b.customs,
    ensures
        grown(a, c),
{
    lemma_submap_trans(a.funcs, b.funcs, c.funcs);
    lemma_submap_trans(a.locals, b.locals, c.locals);
}

/// The exported function that the metadata describes, and what it says of
/// it, if `e` is such an export.
pub open spec fn export_plan(view: ModuleView, data: Seq<SymbolView>, e: ExportId) -> Option<
    (FunctionId, FunctionArgsView),
> {
    match view.exports[e].item {
        ExportItem::Function(f) => match export_args(data, view.exports[e].name) {
            Some(args) => Some((f, args)),
            None => None,
        },
        _ => None,
    }
}

/// Whether `verdict` is what the check of the export `e` gives: where the
/// metadata describes it, the check of its function; success otherwise.
pub open spec fn export_verdict(
    view: ModuleView,
    data: Seq<SymbolView>,
    e: ExportId,
    verdict: Result<(), RewriteError>,
) -> bool {
    match export_plan(view, data, e) {
        None => verdict is Ok,
        Some((f, args)) => function_checked(args, view.funcs[f], verdict),
    }
}

/// Whether `new` has the export `e` of `old` as the rewriting leaves it: an
/// export that the metadata describes hands out a new function, the adapter
/// of the function that it handed out before; any other is as it was.
pub open spec fn export_done(
    old: ModuleView,
    new: ModuleView,
    data: Seq<SymbolView>,
    e: ExportId,
    runtime: RuntimeData,
) -> bool {
    match export_plan(old, data, e) {
        None => new.exports[e] == old.exports[e],
        Some((f, args)) => {
            &&& new.exports[e].name == old.exports[e].name
            &&& new.exports[e].item matches ExportItem::Function(g) && {
                &&& !old.funcs.dom().contains(g)
                &&& new.funcs.dom().contains(g)
                &&& is_export_adapter(new.funcs[g], old.exports[e].name, f, args, runtime)
            }
        },
    }
}

/// Whether `new` has the first `upto` exports of `old` as the rewriting
/// leaves them, and the others as they were.
pub open spec fn exports_done(
    old: ModuleView,
    new: ModuleView,
    data: Seq<SymbolView>,
    runtime: RuntimeData,
    upto: int,
) -> bool {
    forall|e: ExportId|
        #![trigger old.exports.dom().contains(e)]
        old.exports.dom().contains(e) ==> if old.export_order.subrange(0, upto).contains(e) {
            export_done(old, new, data, e, runtime)
        } else {
            new.exports[e] == old.exports[e]
        }
}

/// Whether `r` and `new` are what rewriting the exports of `old` in order
/// gives: where every check succeeds, success and every export rewritten;
/// otherwise the error of the first export whose check fails, the exports
/// before it rewritten and the others as they were. The order holds every
/// export of `old` once.
pub open spec fn exports_rewritten(
    old: ModuleView,
    new: ModuleView,
    data: Seq<SymbolView>,
    runtime: RuntimeData,
    r: Result<(), RewriteError>,
) -> bool {
    lists(old.export_order, old.exports.dom()) && match r {
        Ok(()) => {
            &&& forall|k: int|
                0 <= k < old.export_order.len() ==> export_verdict(
                    old,
                    data,
                    #[trigger] old.export_order[k],
                    Ok(()),
                )
            &&& exports_done(old, new, data, runtime, old.export_order.len() as int)
        },
        Err(err) => exists|k: int|
            {
                &&& 0 <= k < old.export_order.len()
                &&& export_verdict(old, data, #[trigger] old.export_order[k], Err(err))
                &&& forall|j: int|
                    0 <= j < k ==> export_verdict(
                        old,
                        data,
                        #[trigger] old.export_order[j],
                        Ok(()),
                    )
                &&& exports_done(old, new, data, runtime, k)
            },
    }
}

/// Rewrites every exported function that the metadata describes.
///
/// The exports are taken in the module's order. The declared signature of
/// each, with a slot in place of a reference, is compared with the
/// function's own; the first that disagrees ends the rewriting with its
/// error, and the exports before it stay rewritten. Each export that agrees
/// hands out an adapter from then on.
pub fn substitute_exports(
    module: &mut Module,
    custom_data: &GodotWasmBindgenData,
    runtime: &RuntimeData,
) -> (r: Result<(), RewriteError>)
    requires
        wf(contents(*old(module))),
    ensures
        exports_renewed(contents(*old(module)), contents(*final(module))),
        exports_rewritten(
            contents(*old(module)),
            contents(*final(module)),
            custom_data@,
            *runtime,
            r,
        ),
        grown(contents(*old(module)), contents(*final(module))),
        contents(*final(module)).exports.dom() == contents(*old(module)).exports.dom(),
        contents(*final(module)).export_order == contents(*old(module)).export_order,
        contents(*final(module)).imports == contents(*old(module)).imports,
        contents(*final(module)).import_order == contents(*old(module)).import_order,
        wf(contents(*final(module))),
{
    let ids = export_ids(module);
    let ghost start = contents(*module);
    let n = ids.len();
    let mut i: usize = 0;
    while i < n
        invariant
            i <= n,
            n == ids@.len(),
            ids@ == start.export_order,
            start == contents(*old(module)),
            lists(ids@, start.exports.dom()),
            wf(start),
            wf(contents(*module)),
            grown(start, contents(*module)),
            contents(*module).exports.dom() == start.exports.dom(),
            contents(*module).export_order == start.export_order,
            contents(*module).imports == start.imports,
            contents(*module).import_order == start.import_order,
            exports_renewed(start, contents(*module)),
            exports_done(start, contents(*module), custom_data@, *runtime, i as int),
            forall|k: int|
                0 <= k < i ==> export_verdict(start, custom_data@, #[trigger] ids@[k], Ok(())),
        decreases n - i,
    {
        let e = ids[i];
        let ghost before = contents(*module);
        proof {
            assert(ids@.contains(e));
            lemma_not_in_prefix(ids@, i as int);
            assert(before.exports[e] == start.exports[e]);
        }
        let mut changed: Option<FunctionId> = None;
        match export_item(module, e) {
            ExportItem::Function(target) => {
                let name = export_name(module, e);
                match find_export(custom_data, &name) {
                    Some(args) => {
                        proof {
                            assert(start.funcs.dom().contains(target));
                            assert(before.funcs[target] == start.funcs[target]);
                        }
                        match substitute_export(module, e, target, name, args, runtime) {
                            Ok(g) => {
                                changed = Some(g);
                            },
                            Err(err) => {
                                proof {
                                    assert(contents(*module) == before);
                                    assert(export_verdict(
                                        start,
                                        custom_data@,
                                        start.export_order[i as int],
                                        Err(err),
                                    ));
                                    assert(exports_rewritten(
                                        start,
                                        before,
                                        custom_data@,
                                        *runtime,
                                        Err(err),
                                    ));
                                }
                                return Err(err);
                            },
                        }
                    },
                    None => {},
                }
            },
            _ => {},
        }
        proof {
            let now = contents(*module);
            assert(export_verdict(start, custom_data@, e, Ok(())));
            assert(export_done(start, now, custom_data@, e, *runtime));
            assert(now.exports.dom() =~= start.exports.dom());
            lemma_grown_step(start, before, now);
            assert forall|x: ExportId| now.exports.dom().contains(x) implies (
            start.exports.dom().contains(x) && (#[trigger] now.exports[x]) == start.exports[x])
                || match now.exports[x].item {
                ExportItem::Function(g) => !start.funcs.dom().contains(g),
                _ => false,
            } by {
                if x != e {
                    assert(now.exports[x] == before.exports[x]);
                } else {
                    match changed {
                        Some(g) => {
                            assert(!before.funcs.dom().contains(g));
                            if start.funcs.dom().contains(g) {
                                assert(before.funcs.dom().contains(g));
                            }
                        },
                        None => {
                            assert(now.exports[x] == before.exports[x]);
                        },
                    }
                }
            }
            assert forall|x: ExportId| #![trigger start.exports.dom().contains(x)]
                start.exports.dom().contains(x) implies if ids@.subrange(0, i + 1).contains(x) {
                export_done(start, now, custom_data@, x, *runtime)
            } else {
                now.exports[x] == start.exports[x]
            } by {
                lemma_prefix_step(ids@, i as int, x);
                if x != e {
                    assert(now.exports[x] == before.exports[x]);
                    if ids@.subrange(0, i as int).contains(x) {
                        match export_plan(start, custom_data@, x) {
                            None => {},
                            Some((f, a)) => {
                                match before.exports[x].item {
                                    ExportItem::Function(g) => {
                                        assert(before.funcs.dom().contains(g));
                                        assert(now.funcs[g] == before.funcs[g]);
                                    },
                                    _ => {},
                                }
                            },
                        }
                    }
                }
            }
        }
        i += 1;
    }
    Ok(())
}

/// Whether `v` is the adapter that the module calls in place of an imported
/// function: a function with the declared signature, a slot in place of
/// every reference, whose body is [`import_code`] over locals of its own and
/// calls `target`.
pub open spec fn is_import_adapter(
    v: FunctionView,
    name: Seq<char>,
    target: FunctionId,
    args: FunctionArgsView,
    runtime: RuntimeData,
) -> bool {
    exists|var_results: Seq<LocalId>|
        #![trigger import_code(args.params, args.results, v.body->args, var_results, target, runtime)]
        {
            &&& v.body is Local
            &&& v.body->args.len() == args.params.len()
            &&& var_results.len() == args.results.len()
            &&& is_straight(
                v,
                Signature {
                    params: erased_types_of(args.params),
                    results: erased_types_of(args.results),
                },
                name,
                v.body->args,
                import_code(args.params, args.results, v.body->args, var_results, target, runtime),
            )
        }
}

/// The name of the adapter of an imported function: the function's own
/// name, or the import's namespace and name with a dot between them.
pub open spec fn adapter_name(f: FunctionView, i: ImportView) -> Seq<char> {
    match f.name {
        Some(n) => n,
        None => i.module + seq!['.'] + i.name,
    }
}

/// Whether `new` is `old` with the import `import` of the function `source`
/// rewritten: the import brings in a new function of the declared
/// signature, and `adapter` is a new function that passes its calls on to
/// it. `source` itself is still there.
pub open spec fn import_adapted(
    old: ModuleView,
    new: ModuleView,
    import: ImportId,
    source: FunctionId,
    args: FunctionArgsView,
    runtime: RuntimeData,
    adapter: FunctionId,
) -> bool {
    new.imports[import].kind matches ImportKind::Function(h) && {
        &&& !old.funcs.dom().contains(h)
        &&& !old.funcs.dom().contains(adapter)
        &&& h != adapter
        &&& new == (ModuleView {
            funcs: old.funcs.insert(h, new.funcs[h]).insert(adapter, new.funcs[adapter]),
            func_order: old.func_order.push(h).push(adapter),
            imports: old.imports.insert(
                import,
                ImportView {
                    module: old.imports[import].module,
                    name: old.imports[import].name,
                    kind: ImportKind::Function(h),
                },
            ),
            locals: new.locals,
            ..old
        })
        &&& old.locals.submap_of(new.locals)
        &&& new.funcs[h] == (FunctionView {
            typed: true,
            sig: Signature {
                params: val_types_of(args.params),
                results: val_types_of(args.results),
            },
            name: None,
            body: FunctionBody::Import(import),
        })
        &&& is_import_adapter(
            new.funcs[adapter],
            adapter_name(old.funcs[source], old.imports[import]),
            h,
            args,
            runtime,
        )
    }
}

/// Rewrites one imported function: the import gets a new function of the
/// declared signature, and a new adapter passes calls on to it.
///
/// The declared signature, with a slot in place of every reference, is
/// compared with the signature of the function that the import brought in
/// so far; where they disagree, or where the module does not hold that
/// function's type, the module is left as it is.
pub fn substitute_import(
    module: &mut Module,
    import: ImportId,
    source: FunctionId,
    args: &FunctionArgs,
    runtime: &RuntimeData,
) -> (r: Result<FunctionId, RewriteError>)
    requires
        wf(contents(*old(module))),
        contents(*old(module)).imports.dom().contains(import),
        contents(*old(module)).imports[import].kind == ImportKind::Function(source),
    ensures
        function_checked(
            args@,
            contents(*old(module)).funcs[source],
            match r {
                Ok(_) => Ok(()),
                Err(e) => Err(e),
            },
        ),
        r is Err ==> contents(*final(module)) == contents(*old(module)),
        r matches Ok(adapter) ==> {
            &&& import_adapted(
                contents(*old(module)),
                contents(*final(module)),
                import,
                source,
                args@,
                *runtime,
                adapter,
            )
            &&& wf(contents(*final(module)))
        },
{
    let ghost start = contents(*module);
    let (own_params, own_results) = match own_signature(module, source) {
        Some(own) => own,
        None => {
            return Err(RewriteError::MissingType);
        },
    };
    let erased_params = erased_types(&args.params);
    let erased_results = erased_types(&args.results);
    check_signature(&erased_params, &erased_results, &own_params, &own_results)?;
    let name = match function_name(module, source) {
        Some(n) => n,
        None => {
            let namespace = import_module(module, import);
            let field = import_name(module, import);
            proof {
                reveal_strlit(".");
                assert("."@ =~= seq!['.']);
            }
            namespace.concat(".").concat(field.as_str())
        },
    };
    assert(name@ == adapter_name(start.funcs[source], start.imports[import]));
    let func_params = val_types(&args.params);
    let func_results = val_types(&args.results);
    let target = add_function_for_import(
        module,
        import,
        func_params.as_slice(),
        func_results.as_slice(),
    );
    let ghost with_target = contents(*module);
    let var_params = add_locals(module, &erased_params);
    let ghost with_params = contents(*module);
    let var_results = add_locals(module, &erased_results);
    let ghost with_results = contents(*module);
    proof {
        assert(start.locals.submap_of(with_results.locals)) by {
            assert forall|k: LocalId| start.locals.dom().contains(k) implies #[trigger] with_results.locals.dom().contains(
                k,
            ) && start.locals[k] == with_results.locals[k] by {
                assert(with_params.locals.dom().contains(k));
            }
        }
    }
    let code = import_adapter_code(
        &args.params,
        &args.results,
        &var_params,
        &var_results,
        target,
        runtime,
    );
    let ghost arg_ids = var_params@;
    let ghost result_ids = var_results@;
    let ghost n = name@;
    let adapter = add_function(module, name, &erased_params, &erased_results, var_params, &code);
    let ghost built = contents(*module);
    set_import_kind(module, import, ImportKind::Function(target));
    proof {
        let end = contents(*module);
        let v = end.funcs[adapter];
        assert(v == built.funcs[adapter]);
        assert(v.body->args == arg_ids);
        assert(is_straight(
            v,
            Signature {
                params: erased_types_of(args@.params),
                results: erased_types_of(args@.results),
            },
            n,
            v.body->args,
            import_code(args@.params, args@.results, v.body->args, result_ids, target, *runtime),
        ));
        assert(is_import_adapter(v, n, target, args@, *runtime));
        lemma_straight_wf(
            v,
            Signature { params: erased_params@, results: erased_results@ },
            n,
            arg_ids,
            code@,
        );
        assert(end.funcs =~= start.funcs.insert(target, end.funcs[target]).insert(adapter, v));
        assert(end.func_order =~= start.func_order.push(target).push(adapter));
        assert forall|g: FunctionId| end.funcs.dom().contains(g) implies function_wf(
            #[trigger] end.funcs[g],
        ) by {
            if g != adapter && g != target {
                assert(end.funcs[g] == start.funcs[g]);
            }
        }
        assert(exports_wf(end)) by {
            assert forall|e: ExportId| end.exports.dom().contains(e) implies match (
                #[trigger] end.exports[e]).item {
                ExportItem::Function(h) => end.funcs.dom().contains(h),
                _ => true,
            } by {
                assert(end.exports[e] == start.exports[e]);
            }
        }
        assert(imports_wf(end)) by {
            assert forall|i: ImportId| end.imports.dom().contains(i) implies match (
                #[trigger] end.imports[i]).kind {
                ImportKind::Function(h) => end.funcs.dom().contains(h) && end.funcs[h].body
                    == FunctionBody::Import(i),
                _ => true,
            } by {
                if i != import {
                    assert(end.imports[i] == start.imports[i]);
                }
            }
        }
        assert(functions_wf(end));
        assert(wf(end));
        assert(end.locals == with_results.locals);
        assert(end == (ModuleView {
            funcs: start.funcs.insert(target, end.funcs[target]).insert(adapter, end.funcs[adapter]),
            func_order: start.func_order.push(target).push(adapter),
            imports: start.imports.insert(
                import,
                ImportView {
                    module: start.imports[import].module,
                    name: start.imports[import].name,
                    kind: ImportKind::Function(target),
                },
            ),
            locals: end.locals,
            ..start
        }));
    }
    Ok(adapter)
}

/// The imported function that the metadata describes, and what it says of
/// it, if `i` is such an import.
pub open spec fn import_plan(view: ModuleView, data: Seq<SymbolView>, i: ImportId) -> Option<
    (FunctionId, FunctionArgsView),
> {
    match view.imports[i].kind {
        ImportKind::Function(f) => match import_args(
            data,
            view.imports[i].module,
            view.imports[i].name,
        ) {
            Some(args) => Some((f, args)),
            None => None,
        },
        _ => None,
    }
}

/// Whether `verdict` is what the check of the import `i` gives: where the
/// metadata describes it, the check of its function; success otherwise.
pub open spec fn import_verdict(
    view: ModuleView,
    data: Seq<SymbolView>,
    i: ImportId,
    verdict: Result<(), RewriteError>,
) -> bool {
    match import_plan(view, data, i) {
        None => verdict is Ok,
        Some((f, args)) => function_checked(args, view.funcs[f], verdict),
    }
}

/// Whether `mid` has, for the import `i` of the function `f`, a new function
/// of the declared signature behind the import, and the adapter `adapter`.
pub open spec fn entry_adapted(
    old: ModuleView,
    mid: ModuleView,
    i: ImportId,
    f: FunctionId,
    args: FunctionArgsView,
    runtime: RuntimeData,
    adapter: FunctionId,
) -> bool {
    &&& mid.imports[i].module == old.imports[i].module
    &&& mid.imports[i].name == old.imports[i].name
    &&& mid.imports[i].kind matches ImportKind::Function(h) && {
        &&& !old.funcs.dom().contains(h)
        &&& mid.funcs.dom().contains(h)
        &&& mid.funcs[h] == (FunctionView {
            typed: true,
            sig: Signature {
                params: val_types_of(args.params),
                results: val_types_of(args.results),
            },
            name: None,
            body: FunctionBody::Import(i),
        })
        &&& !old.funcs.dom().contains(adapter)
        &&& mid.funcs.dom().contains(adapter)
        &&& is_import_adapter(
            mid.funcs[adapter],
            adapter_name(old.funcs[f], old.imports[i]),
            h,
            args,
            runtime,
        )
    }
}

/// Whether `mid` has the import `i` of `old` as the rewriting leaves it
/// before the relinking: an import that the metadata describes is replaced
/// in `entries` by its adapter; any other is as it was.
pub open spec fn import_done(
    old: ModuleView,
    mid: ModuleView,
    data: Seq<SymbolView>,
    i: ImportId,
    runtime: RuntimeData,
    entries: Seq<(FunctionId, FunctionId)>,
) -> bool {
    match import_plan(old, data, i) {
        None => mid.imports[i] == old.imports[i],
        Some((f, args)) => replaces(entries, f) && entry_adapted(
            old,
            mid,
            i,
            f,
            args,
            runtime,
            relink(entries, f),
        ),
    }
}

/// Whether `f` is a function that an import brings in which the metadata
/// describes.
pub open spec fn key_planned(old: ModuleView, data: Seq<SymbolView>, f: FunctionId) -> bool {
    old.funcs.dom().contains(f) && match old.funcs[f].body {
        FunctionBody::Import(i) => old.imports.dom().contains(i) && old.imports[i].kind
            == ImportKind::Function(f) && import_plan(old, data, i) is Some,
        _ => false,
    }
}

/// Whether `mid` is `old` with the first `upto` imports rewritten where the
/// metadata describes them, and `entries` replaces the function of each
/// import that was rewritten, and no other, by its adapter. Nothing is
/// redirected or deleted yet.
pub open spec fn imports_adapted(
    old: ModuleView,
    mid: ModuleView,
    data: Seq<SymbolView>,
    runtime: RuntimeData,
    entries: Seq<(FunctionId, FunctionId)>,
    upto: int,
) -> bool {
    &&& grown(old, mid)
    &&& mid.exports == old.exports
    &&& mid.export_order == old.export_order
    &&& mid.imports.dom() == old.imports.dom()
    &&& mid.import_order == old.import_order
    &&& distinct_keys(entries)
    &&& forall|k: int|
        0 <= k < entries.len() ==> key_planned(old, data, (#[trigger] entries[k]).0)
            && (old.funcs[entries[k].0].body matches FunctionBody::Import(j)
            && old.import_order.subrange(0, upto).contains(j))
    &&& forall|i: ImportId|
        #![trigger old.imports.dom().contains(i)]
        old.imports.dom().contains(i) ==> if old.import_order.subrange(0, upto).contains(i) {
            import_done(old, mid, data, i, runtime, entries)
        } else {
            mid.imports[i] == old.imports[i]
        }
}

/// Whether `r` and `new` are what rewriting the imports of `old` in order
/// gives. Where every check succeeds: success, every import rewritten, and
/// the module relinked. Otherwise: the error of the first import whose
/// check fails, the imports before it rewritten, and nothing relinked. The
/// order holds every import of `old` once.
pub open spec fn imports_rewritten(
    old: ModuleView,
    new: ModuleView,
    data: Seq<SymbolView>,
    runtime: RuntimeData,
    r: Result<(), RewriteError>,
) -> bool {
    lists(old.import_order, old.imports.dom()) && match r {
        Ok(()) => {
            &&& forall|k: int|
                0 <= k < old.import_order.len() ==> import_verdict(
                    old,
                    data,
                    #[trigger] old.import_order[k],
                    Ok(()),
                )
            &&& exists|mid: ModuleView, entries: Seq<(FunctionId, FunctionId)>|
                #![trigger relinked(mid, new, entries)]
                imports_adapted(old, mid, data, runtime, entries, old.import_order.len() as int)
                    && relinked(mid, new, entries)
        },
        Err(err) => exists|k: int, entries: Seq<(FunctionId, FunctionId)>|
            #![trigger imports_adapted(old, new, data, runtime, entries, k)]
            {
                &&& 0 <= k < old.import_order.len()
                &&& import_verdict(old, data, old.import_order[k], Err(err))
                &&& forall|j: int|
                    0 <= j < k ==> import_verdict(
                        old,
                        data,
                        #[trigger] old.import_order[j],
                        Ok(()),
                    )
                &&& imports_adapted(old, new, data, runtime, entries, k)
            },
    }
}

/// Rewrites every imported function that the metadata describes, and
/// redirects the module to the adapters.
///
/// The imports are taken in the module's order. The declared signature of
/// each, with a slot in place of every reference, is compared with the
/// signature of the function that the import brings in; the first that
/// disagrees ends the rewriting with its error, before anything is
/// redirected. Each import that agrees brings in a function of the declared
/// signature from then on, and gets an adapter. At the end every reference
/// to a function that an import brought in before goes to its adapter, and
/// those functions are deleted. So no export may hand out the function of
/// an import that the metadata describes.
pub fn substitute_imports(
    module: &mut Module,
    custom_data: &GodotWasmBindgenData,
    runtime: &RuntimeData,
) -> (r: Result<(), RewriteError>)
    requires
        wf(contents(*old(module))),
        exports_spare(contents(*old(module)), described_imports(custom_data@)),
    ensures
        contents(*final(module)).exports == contents(*old(module)).exports,
        contents(*final(module)).export_order == contents(*old(module)).export_order,
        plain_kept(contents(*old(module)), contents(*final(module))),
        imports_rewritten(
            contents(*old(module)),
            contents(*final(module)),
            custom_data@,
            *runtime,
            r,
        ),
        wf(contents(*final(module))),
{
    let ids = import_ids(module);
    let ghost start = contents(*module);
    let mut map = FuncMap::new();
    let n = ids.len();
    let mut i: usize = 0;
    while i < n
        invariant
            i <= n,
            n == ids@.len(),
            ids@ == start.import_order,
            start == contents(*old(module)),
            lists(ids@, start.imports.dom()),
            wf(start),
            exports_spare(start, described_imports(custom_data@)),
            wf(contents(*module)),
            map.wf(),
            imports_adapted(start, contents(*module), custom_data@, *runtime, map@, i as int),
            forall|k: int|
                0 <= k < i ==> import_verdict(start, custom_data@, #[trigger] ids@[k], Ok(())),
        decreases n - i,
    {
        let e = ids[i];
        let ghost before = contents(*module);
        let ghost entries = map@;
        proof {
            assert(ids@.contains(e));
            lemma_not_in_prefix(ids@, i as int);
            assert(before.imports[e] == start.imports[e]);
        }
        match import_kind(module, e) {
            ImportKind::Function(source) => {
                let namespace = import_module(module, e);
                let name = import_name(module, e);
                match find_import(custom_data, &namespace, &name) {
                    Some(args) => {
                        proof {
                            assert(start.funcs.dom().contains(source));
                            assert(before.funcs[source] == start.funcs[source]);
                            assert(start.funcs[source].body == FunctionBody::Import(e));
                        }
                        match substitute_import(module, e, source, args, runtime) {
                            Ok(adapter) => {
                                proof {
                                    if replaces(entries, source) {
                                        lemma_lookup_key_index(entries, source);
                                        let k = choose|k: int|
                                            0 <= k < entries.len() && (#[trigger] entries[k]).0
                                                == source;
                                        assert(ids@.subrange(0, i as int).contains(e));
                                    }
                                }
                                map.insert(source, adapter);
                                proof {
                                    assert(map@.drop_last() =~= entries);
                                }
                            },
                            Err(err) => {
                                proof {
                                    assert(contents(*module) == before);
                                    assert(import_verdict(
                                        start,
                                        custom_data@,
                                        start.import_order[i as int],
                                        Err(err),
                                    ));
                                    assert(imports_adapted(
                                        start,
                                        before,
                                        custom_data@,
                                        *runtime,
                                        entries,
                                        i as int,
                                    ));
                                    assert(imports_rewritten(
                                        start,
                                        before,
                                        custom_data@,
                                        *runtime,
                                        Err(err),
                                    ));
                                }
                                return Err(err);
                            },
                        }
                    },
                    None => {},
                }
            },
            _ => {},
        }
        proof {
            let now = contents(*module);
            assert(import_verdict(start, custom_data@, e, Ok(())));
            assert(now.imports.dom() =~= start.imports.dom());
            lemma_grown_step(start, before, now);
            assert forall|k: int| 0 <= k < map@.len() implies key_planned(
                start,
                custom_data@,
                (#[trigger] map@[k]).0,
            ) && (start.funcs[map@[k].0].body matches FunctionBody::Import(j) && ids@.subrange(
                0,
                i + 1,
            ).contains(j)) by {
                if k < entries.len() {
                    assert(map@[k] == entries[k]);
                    match start.funcs[entries[k].0].body {
                        FunctionBody::Import(j) => {
                            lemma_prefix_step(ids@, i as int, j);
                        },
                        _ => {},
                    }
                } else {
                    lemma_prefix_step(ids@, i as int, e);
                }
            }
            assert forall|x: ImportId| #![trigger start.imports.dom().contains(x)]
                start.imports.dom().contains(x) implies if ids@.subrange(0, i + 1).contains(x) {
                import_done(start, now, custom_data@, x, *runtime, map@)
            } else {
                now.imports[x] == start.imports[x]
            } by {
                lemma_prefix_step(ids@, i as int, x);
                if x != e {
                    assert(now.imports[x] == before.imports[x]);
                    if ids@.subrange(0, i as int).contains(x) {
                        match import_plan(start, custom_data@, x) {
                            None => {},
                            Some((f, a)) => {
                                assert(replaces(entries, f));
                                assert(start.funcs[f].body == FunctionBody::Import(x));
                                assert(lookup(map@, f) == lookup(entries, f));
                                let w = relink(entries, f);
                                assert(before.funcs.dom().contains(w));
                                assert(now.funcs[w] == before.funcs[w]);
                                match before.imports[x].kind {
                                    ImportKind::Function(h) => {
                                        assert(before.funcs.dom().contains(h));
                                        assert(now.funcs[h] == before.funcs[h]);
                                    },
                                    _ => {},
                                }
                            },
                        }
                    }
                }
            }
        }
        i += 1;
    }
    let ghost mid = contents(*module);
    proof {
        assert(ids@.subrange(0, n as int) =~= ids@);
        assert(imports_adapted(start, mid, custom_data@, *runtime, map@, n as int));
        assert forall|x: ImportId| start.imports.dom().contains(x) implies import_done(
            start,
            mid,
            custom_data@,
            x,
            *runtime,
            map@,
        ) by {
            assert(ids@.contains(x));
        }
        assert(keys_alive(mid, map@));
        assert(detached(mid, map@)) by {
            assert forall|x: ExportId| mid.exports.dom().contains(x) implies match (
                #[trigger] mid.exports[x]).item {
                ExportItem::Function(f) => !replaces(map@, f),
                _ => true,
            } by {
                match mid.exports[x].item {
                    ExportItem::Function(f) => {
                        if replaces(map@, f) {
                            lemma_lookup_key_index(map@, f);
                            let k = choose|k: int| 0 <= k < map@.len() && (#[trigger] map@[k]).0 == f;
                            assert(key_planned(start, custom_data@, map@[k].0));
                            let j = start.funcs[f].body->Import_0;
                            assert(start.imports.dom().contains(j));
                            assert(start.imports[j].kind == ImportKind::Function(f));
                            assert(described_imports(custom_data@).contains(
                                (start.imports[j].module, start.imports[j].name),
                            ));
                            assert(start.exports[x].item == ExportItem::Function(f));
                            assert(start.exports.dom().contains(x));
                        }
                    },
                    _ => {},
                }
            }
            assert forall|x: ImportId| mid.imports.dom().contains(x) implies match (
                #[trigger] mid.imports[x]).kind {
                ImportKind::Function(f) => !replaces(map@, f),
                _ => true,
            } by {
                match mid.imports[x].kind {
                    ImportKind::Function(f) => {
                        if replaces(map@, f) {
                            lemma_lookup_key_index(map@, f);
                            assert(start.funcs.dom().contains(f));
                            assert(mid.funcs[f] == start.funcs[f]);
                            assert(import_done(start, mid, custom_data@, x, *runtime, map@));
                        }
                    },
                    _ => {},
                }
            }
        }
    }
    map_substitute_funcs(module, &map);
    proof {
        assert(relinked(mid, contents(*module), map@));
        assert forall|k: int| 0 <= k < map@.len() implies mid.funcs[(
        #[trigger] map@[k]).0].body is Import by {
            assert(key_planned(start, custom_data@, map@[k].0));
            assert(mid.funcs.dom().contains(map@[k].0));
        }
        lemma_plain_kept(start, mid, contents(*module), map@);
    }
    Ok(())
}

} // verus!
