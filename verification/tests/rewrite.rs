use godot_wasm_bindgen::decode::{
    ArgType, ExportFunction, FunctionArgs, GodotWasmBindgenData, ImportFunction, Symbol,
    SymbolType,
};
use godot_wasm_bindgen::error::RewriteError;
use godot_wasm_bindgen::pipeline;
use godot_wasm_bindgen::runtime::{add_runtime, find_main_memory, RuntimeData};
use godot_wasm_bindgen::substitution::{
    check_signature, erased, erased_types, export_adapter_code, find_export, find_import,
    import_adapter_code, same_val_type, substitute_exports, substitute_imports, val_types,
};
use godot_wasm_bindgen::wasm::Op;
use walrus::ir::{BinaryOp, Instr, UnaryOp, Value};
use walrus::{ExportItem, FunctionBuilder, FunctionId, FunctionKind, ImportKind, Module, ValType};

fn base_module() -> Module {
    let mut module = Module::default();
    let memory = module.memories.add_local(false, 1, None);
    module.exports.add("memory", memory);
    module
}

fn add_identity(module: &mut Module, name: &str, ty: ValType) -> FunctionId {
    let mut builder = FunctionBuilder::new(&mut module.types, &[ty], &[ty]);
    let p = module.locals.add(ty);
    builder.func_body().local_get(p);
    let f = builder.finish(vec![p], &mut module.funcs);
    module.exports.add(name, f);
    f
}

fn export_symbol(name: &str, params: Vec<ArgType>, results: Vec<ArgType>) -> Symbol {
    Symbol {
        version: [1, 0, 0, 0],
        inner: SymbolType::ExportFunction(ExportFunction {
            name: name.to_string(),
            args: FunctionArgs { params, results },
        }),
    }
}

fn import_symbol(module: &str, name: &str, params: Vec<ArgType>, results: Vec<ArgType>) -> Symbol {
    Symbol {
        version: [1, 0, 0, 0],
        inner: SymbolType::ImportFunction(ImportFunction {
            module: module.to_string(),
            name: name.to_string(),
            args: FunctionArgs { params, results },
        }),
    }
}

fn signature(module: &Module, f: FunctionId) -> (Vec<ValType>, Vec<ValType>) {
    let ty = module.types.get(module.funcs.get(f).ty());
    (ty.params().to_vec(), ty.results().to_vec())
}

fn exported(module: &Module, name: &str) -> FunctionId {
    module.exports.get_func(name).unwrap()
}

/// The entry block of a local function, each instruction as a short text.
fn body(module: &Module, f: FunctionId, runtime: &RuntimeData) -> Vec<String> {
    let local = module.funcs.get(f).kind.unwrap_local();
    local
        .block(local.entry_block())
        .instrs
        .iter()
        .map(|(instr, _)| match instr {
            Instr::LocalGet(_) => "local.get".to_string(),
            Instr::LocalSet(_) => "local.set".to_string(),
            Instr::LocalTee(_) => "local.tee".to_string(),
            Instr::GlobalGet(_) => "global.get".to_string(),
            Instr::GlobalSet(_) => "global.set".to_string(),
            Instr::RefFunc(_) => "ref.func".to_string(),
            Instr::Const(c) => match c.value {
                Value::I32(v) => format!("i32.const {}", v),
                _ => "const".to_string(),
            },
            Instr::Binop(b) => format!("{:?}", b.op),
            Instr::Unop(u) => format!("{:?}", u.op),
            Instr::Call(c) if c.func == runtime.alloc_func => "call alloc".to_string(),
            Instr::Call(c) if c.func == runtime.free_func => "call free".to_string(),
            Instr::Call(c) if c.func == runtime.get_func => "call get".to_string(),
            Instr::Call(_) => "call".to_string(),
            Instr::IfElse(_) => "if".to_string(),
            Instr::Load(_) => "load".to_string(),
            Instr::Store(_) => "store".to_string(),
            _ => "other".to_string(),
        })
        .collect()
}

fn reparse(module: &mut Module) -> Module {
    let bytes = module.emit_wasm();
    Module::from_buffer(&bytes).expect("the rewritten module is valid")
}

#[test]
fn runtime_needs_the_main_memory() {
    let mut module = Module::default();
    assert!(matches!(add_runtime(&mut module), Err(RewriteError::NoMainMemory)));
    let table = module.tables.add_local(1, None, ValType::Funcref);
    module.exports.add("memory", table);
    assert!(matches!(add_runtime(&mut module), Err(RewriteError::NoMainMemory)));
    assert_eq!(module.funcs.iter().count(), 0);
    assert_eq!(module.globals.iter().count(), 0);
}

#[test]
fn main_memory_is_the_export_named_memory() {
    let mut module = Module::default();
    let other = module.memories.add_local(false, 1, None);
    let main = module.memories.add_local(false, 3, None);
    module.exports.add("heap", other);
    module.exports.add("memory", main);
    assert_eq!(find_main_memory(&module), Some(main));
    let runtime = add_runtime(&mut module).unwrap();
    assert_eq!(runtime.main_memory, main);
}

#[test]
fn runtime_installs_table_memory_and_globals() {
    let mut module = base_module();
    let runtime = add_runtime(&mut module).unwrap();
    let table = module.tables.get(runtime.extern_table);
    assert_eq!(table.initial, 0);
    assert_eq!(table.maximum, Some(65535));
    assert_eq!(table.element_ty, ValType::Externref);
    let memory = module.memories.get(runtime.extern_memory);
    assert!(!memory.shared);
    assert_eq!(memory.initial, 2);
    assert_eq!(memory.maximum, None);
    assert_ne!(runtime.extern_memory, runtime.main_memory);
    let element = module.elements.get(runtime.declare_funcs);
    assert!(matches!(element.kind, walrus::ElementKind::Declared));
    assert_eq!(element.ty, ValType::Funcref);
    assert!(element.members.is_empty());
    for (global, value) in [
        (runtime.index_global, 0),
        (runtime.limit_global, 0),
        (runtime.head_global, 65535),
    ] {
        let g = module.globals.get(global);
        assert_eq!(g.ty, ValType::I32);
        assert!(g.mutable);
        match g.kind {
            walrus::GlobalKind::Local(walrus::InitExpr::Value(Value::I32(v))) => {
                assert_eq!(v, value)
            }
            _ => panic!("not a constant"),
        }
    }
}

#[test]
fn runtime_functions_have_their_signatures_and_names() {
    let mut module = base_module();
    let runtime = add_runtime(&mut module).unwrap();
    assert_eq!(
        signature(&module, runtime.alloc_func),
        (vec![ValType::Externref], vec![ValType::I32])
    );
    assert_eq!(signature(&module, runtime.free_func), (vec![ValType::I32], vec![]));
    assert_eq!(
        signature(&module, runtime.get_func),
        (vec![ValType::I32], vec![ValType::Externref])
    );
    let name = |f| module.funcs.get(f).name.clone().unwrap();
    assert_eq!(name(runtime.alloc_func), "godot_wasm.alloc");
    assert_eq!(name(runtime.free_func), "godot_wasm.free");
    assert_eq!(name(runtime.get_func), "godot_wasm.get");
    assert_eq!(body(&module, runtime.get_func, &runtime), vec!["local.get", "I32Eqz", "if"]);
    assert_eq!(body(&module, runtime.free_func, &runtime), vec!["local.get", "if"]);
    assert_eq!(
        body(&module, runtime.alloc_func, &runtime),
        vec!["local.get", "other", "if"]
    );
}

#[test]
fn runtime_functions_are_valid_code() {
    let mut module = base_module();
    let runtime = add_runtime(&mut module).unwrap();
    module.exports.add("alloc", runtime.alloc_func);
    module.exports.add("free", runtime.free_func);
    module.exports.add("get", runtime.get_func);
    let back = reparse(&mut module);
    assert_eq!(
        signature(&back, exported(&back, "alloc")),
        (vec![ValType::Externref], vec![ValType::I32])
    );
    assert_eq!(back.memories.iter().count(), 2);
    assert_eq!(back.tables.iter().count(), 1);
}

#[test]
fn export_of_host_values_gets_an_adapter() {
    let mut module = base_module();
    let f = add_identity(&mut module, "f", ValType::I32);
    let data = GodotWasmBindgenData {
        symbols: vec![export_symbol("f", vec![ArgType::GodotValue], vec![ArgType::GodotValue])],
    };
    let runtime = add_runtime(&mut module).unwrap();
    assert_eq!(substitute_exports(&mut module, &data, &runtime), Ok(()));
    let adapter = exported(&module, "f");
    assert_ne!(adapter, f);
    assert_eq!(
        signature(&module, adapter),
        (vec![ValType::Externref], vec![ValType::Externref])
    );
    assert_eq!(signature(&module, f), (vec![ValType::I32], vec![ValType::I32]));
    assert_eq!(module.funcs.get(adapter).name.as_deref(), Some("f"));
    assert_eq!(
        body(&module, adapter, &runtime),
        vec![
            "local.get",
            "call alloc",
            "call",
            "local.tee",
            "call get",
            "local.set",
            "local.get",
            "call free",
            "local.get",
        ]
    );
    let back = reparse(&mut module);
    assert_eq!(
        signature(&back, exported(&back, "f")),
        (vec![ValType::Externref], vec![ValType::Externref])
    );
}

#[test]
fn export_without_metadata_is_left_alone() {
    let mut module = base_module();
    let f = add_identity(&mut module, "f", ValType::I32);
    let g = add_identity(&mut module, "g", ValType::I64);
    let data = GodotWasmBindgenData {
        symbols: vec![
            export_symbol("g", vec![ArgType::I64], vec![ArgType::U64]),
            import_symbol("host", "f", vec![], vec![]),
        ],
    };
    let runtime = add_runtime(&mut module).unwrap();
    assert_eq!(substitute_exports(&mut module, &data, &runtime), Ok(()));
    assert_eq!(exported(&module, "f"), f);
    let adapter = exported(&module, "g");
    assert_ne!(adapter, g);
    assert_eq!(signature(&module, adapter), (vec![ValType::I64], vec![ValType::I64]));
    assert_eq!(
        body(&module, adapter, &runtime),
        vec!["local.get", "call", "local.set", "local.get"]
    );
    assert!(matches!(
        module.exports.iter().find(|e| e.name == "memory").unwrap().item,
        ExportItem::Memory(_)
    ));
}

#[test]
fn narrow_integers_are_normalized_on_the_way_in() {
    let mut module = base_module();
    let mut builder = FunctionBuilder::new(
        &mut module.types,
        &[ValType::I32, ValType::I32, ValType::I32, ValType::I32, ValType::I32],
        &[],
    );
    let locals: Vec<_> = (0..5).map(|_| module.locals.add(ValType::I32)).collect();
    builder.func_body();
    let f = builder.finish(locals, &mut module.funcs);
    module.exports.add("narrow", f);
    let data = GodotWasmBindgenData {
        symbols: vec![export_symbol(
            "narrow",
            vec![ArgType::U8, ArgType::I8, ArgType::U16, ArgType::I16, ArgType::U32],
            vec![],
        )],
    };
    let runtime = add_runtime(&mut module).unwrap();
    assert_eq!(substitute_exports(&mut module, &data, &runtime), Ok(()));
    assert_eq!(
        body(&module, exported(&module, "narrow"), &runtime),
        vec![
            "local.get",
            "i32.const 255",
            "I32And",
            "local.get",
            "I32Extend8S",
            "local.get",
            "i32.const 65535",
            "I32And",
            "local.get",
            "I32Extend16S",
            "local.get",
            "call",
        ]
    );
    reparse(&mut module);
}

#[test]
fn declared_parameter_count_must_match() {
    let mut module = base_module();
    let f = add_identity(&mut module, "f", ValType::I32);
    let data = GodotWasmBindgenData {
        symbols: vec![export_symbol(
            "f",
            vec![ArgType::GodotValue, ArgType::GodotValue],
            vec![ArgType::GodotValue],
        )],
    };
    let runtime = add_runtime(&mut module).unwrap();
    let functions = module.funcs.iter().count();
    assert_eq!(
        substitute_exports(&mut module, &data, &runtime),
        Err(RewriteError::ParameterLengthMismatch { declared: 2, actual: 1 })
    );
    assert_eq!(exported(&module, "f"), f);
    assert_eq!(module.funcs.iter().count(), functions);
}

#[test]
fn declared_result_count_must_match() {
    let mut module = base_module();
    add_identity(&mut module, "f", ValType::I32);
    let data = GodotWasmBindgenData {
        symbols: vec![export_symbol("f", vec![ArgType::I32], vec![])],
    };
    let runtime = add_runtime(&mut module).unwrap();
    assert_eq!(
        substitute_exports(&mut module, &data, &runtime),
        Err(RewriteError::ResultLengthMismatch { declared: 0, actual: 1 })
    );
}

#[test]
fn declared_types_must_match_after_erasure() {
    let mut module = base_module();
    add_identity(&mut module, "f", ValType::I32);
    let runtime = add_runtime(&mut module).unwrap();
    let data = GodotWasmBindgenData {
        symbols: vec![export_symbol("f", vec![ArgType::I64], vec![ArgType::I32])],
    };
    assert_eq!(
        substitute_exports(&mut module, &data, &runtime),
        Err(RewriteError::ParameterTypeMismatch {
            index: 0,
            declared: ValType::I64,
            actual: ValType::I32
        })
    );
    let data = GodotWasmBindgenData {
        symbols: vec![export_symbol("f", vec![ArgType::GodotValue], vec![ArgType::F32])],
    };
    assert_eq!(
        substitute_exports(&mut module, &data, &runtime),
        Err(RewriteError::ResultTypeMismatch {
            index: 0,
            declared: ValType::F32,
            actual: ValType::I32
        })
    );
}

#[test]
fn first_failing_export_decides_the_error() {
    let mut module = base_module();
    let a = add_identity(&mut module, "a", ValType::I32);
    add_identity(&mut module, "b", ValType::I32);
    add_identity(&mut module, "c", ValType::I32);
    let data = GodotWasmBindgenData {
        symbols: vec![
            export_symbol("c", vec![], vec![]),
            export_symbol("b", vec![ArgType::F64], vec![ArgType::I32]),
            export_symbol("a", vec![ArgType::GodotValue], vec![ArgType::I32]),
        ],
    };
    let runtime = add_runtime(&mut module).unwrap();
    assert_eq!(
        substitute_exports(&mut module, &data, &runtime),
        Err(RewriteError::ParameterTypeMismatch {
            index: 0,
            declared: ValType::F64,
            actual: ValType::I32
        })
    );
    assert_ne!(exported(&module, "a"), a);
}

#[test]
fn later_symbol_shadows_an_earlier_one() {
    let data = GodotWasmBindgenData {
        symbols: vec![
            export_symbol("f", vec![ArgType::U8], vec![]),
            import_symbol("m", "f", vec![ArgType::I8], vec![]),
            export_symbol("f", vec![ArgType::U16], vec![]),
            import_symbol("m", "f", vec![ArgType::I16], vec![]),
            import_symbol("n", "f", vec![ArgType::I64], vec![]),
        ],
    };
    assert_eq!(find_export(&data, &"f".to_string()).unwrap().params, vec![ArgType::U16]);
    assert!(find_export(&data, &"g".to_string()).is_none());
    assert_eq!(
        find_import(&data, &"m".to_string(), &"f".to_string()).unwrap().params,
        vec![ArgType::I16]
    );
    assert_eq!(
        find_import(&data, &"n".to_string(), &"f".to_string()).unwrap().params,
        vec![ArgType::I64]
    );
    assert!(find_import(&data, &"f".to_string(), &"m".to_string()).is_none());
}

#[test]
fn val_types_and_erasure() {
    let all = vec![
        ArgType::U8,
        ArgType::I8,
        ArgType::U16,
        ArgType::I16,
        ArgType::U32,
        ArgType::I32,
        ArgType::U64,
        ArgType::I64,
        ArgType::F32,
        ArgType::F64,
        ArgType::GodotValue,
    ];
    let i = ValType::I32;
    let l = ValType::I64;
    assert_eq!(
        val_types(&all),
        vec![i, i, i, i, i, i, l, l, ValType::F32, ValType::F64, ValType::Externref]
    );
    assert_eq!(
        erased_types(&all),
        vec![i, i, i, i, i, i, l, l, ValType::F32, ValType::F64, i]
    );
    assert_eq!(ArgType::GodotValue.val_type(), ValType::Externref);
    assert_eq!(erased(ValType::Externref), ValType::I32);
    assert_eq!(erased(ValType::Funcref), ValType::Funcref);
    assert_eq!(erased(ValType::V128), ValType::V128);
    assert!(same_val_type(ValType::F64, ValType::F64));
    assert!(!same_val_type(ValType::F64, ValType::F32));
    assert!(!same_val_type(ValType::Externref, ValType::Funcref));
}

#[test]
fn signature_check_reports_the_first_disagreement() {
    let i = ValType::I32;
    let l = ValType::I64;
    assert_eq!(check_signature(&vec![i, l], &vec![i], &vec![i, l], &vec![i]), Ok(()));
    assert_eq!(check_signature(&vec![], &vec![], &vec![], &vec![]), Ok(()));
    assert_eq!(
        check_signature(&vec![i, l], &vec![i, i], &vec![i], &vec![i]),
        Err(RewriteError::ParameterLengthMismatch { declared: 2, actual: 1 })
    );
    assert_eq!(
        check_signature(&vec![i], &vec![i, i], &vec![l], &vec![i]),
        Err(RewriteError::ResultLengthMismatch { declared: 2, actual: 1 })
    );
    assert_eq!(
        check_signature(&vec![i, l, l], &vec![l], &vec![i, i, i], &vec![i]),
        Err(RewriteError::ParameterTypeMismatch { index: 1, declared: l, actual: i })
    );
    assert_eq!(
        check_signature(&vec![i], &vec![i, l, i], &vec![i], &vec![i, i, l]),
        Err(RewriteError::ResultTypeMismatch { index: 1, declared: l, actual: i })
    );
}

#[test]
fn adapter_code_for_exports_and_imports() {
    let mut module = base_module();
    let target = add_identity(&mut module, "t", ValType::I32);
    let runtime = add_runtime(&mut module).unwrap();
    let p: Vec<_> = (0..2).map(|_| module.locals.add(ValType::I32)).collect();
    let r: Vec<_> = (0..2).map(|_| module.locals.add(ValType::I32)).collect();
    let temp = module.locals.add(ValType::I32);
    let code = export_adapter_code(
        &vec![ArgType::GodotValue, ArgType::I64],
        &vec![ArgType::I32, ArgType::GodotValue],
        &p,
        &r,
        temp,
        target,
        &runtime,
    );
    assert_eq!(code.len(), 12);
    assert!(matches!(code[0], Op::LocalGet(l) if l == p[0]));
    assert!(matches!(code[1], Op::Call(f) if f == runtime.alloc_func));
    assert!(matches!(code[2], Op::LocalGet(l) if l == p[1]));
    assert!(matches!(code[3], Op::Call(f) if f == target));
    assert!(matches!(code[4], Op::LocalTee(l) if l == temp));
    assert!(matches!(code[5], Op::Call(f) if f == runtime.get_func));
    assert!(matches!(code[6], Op::LocalSet(l) if l == r[1]));
    assert!(matches!(code[7], Op::LocalGet(l) if l == temp));
    assert!(matches!(code[8], Op::Call(f) if f == runtime.free_func));
    assert!(matches!(code[9], Op::LocalSet(l) if l == r[0]));
    assert!(matches!(code[10], Op::LocalGet(l) if l == r[0]));
    assert!(matches!(code[11], Op::LocalGet(l) if l == r[1]));
    let code = import_adapter_code(
        &vec![ArgType::GodotValue, ArgType::I64],
        &vec![ArgType::I8, ArgType::GodotValue],
        &p,
        &r,
        target,
        &runtime,
    );
    assert_eq!(code.len(), 12);
    assert!(matches!(code[0], Op::LocalGet(l) if l == p[0]));
    assert!(matches!(code[1], Op::Call(f) if f == runtime.get_func));
    assert!(matches!(code[2], Op::LocalGet(l) if l == p[0]));
    assert!(matches!(code[3], Op::Call(f) if f == runtime.free_func));
    assert!(matches!(code[4], Op::LocalGet(l) if l == p[1]));
    assert!(matches!(code[5], Op::Call(f) if f == target));
    assert!(matches!(code[6], Op::Call(f) if f == runtime.alloc_func));
    assert!(matches!(code[7], Op::LocalSet(l) if l == r[1]));
    assert!(matches!(code[8], Op::Unop(UnaryOp::I32Extend8S)));
    assert!(matches!(code[9], Op::LocalSet(l) if l == r[0]));
    assert!(matches!(code[10], Op::LocalGet(l) if l == r[0]));
    assert!(matches!(code[11], Op::LocalGet(l) if l == r[1]));
    let _ = BinaryOp::I32And;
}

fn module_with_import(params: &[ValType], results: &[ValType]) -> (Module, FunctionId, FunctionId) {
    let mut module = base_module();
    let ty = module.types.add(params, results);
    let (imported, _) = module.add_import_func("host", "g", ty);
    let mut builder = FunctionBuilder::new(&mut module.types, params, results);
    let locals: Vec<_> = params.iter().map(|t| module.locals.add(*t)).collect();
    {
        let mut body = builder.func_body();
        for l in &locals {
            body.local_get(*l);
        }
        body.call(imported);
    }
    let caller = builder.finish(locals, &mut module.funcs);
    module.exports.add("caller", caller);
    (module, imported, caller)
}

fn call_targets(module: &Module, f: FunctionId) -> Vec<FunctionId> {
    let local = module.funcs.get(f).kind.unwrap_local();
    local
        .block(local.entry_block())
        .instrs
        .iter()
        .filter_map(|(i, _)| match i {
            Instr::Call(c) => Some(c.func),
            _ => None,
        })
        .collect()
}

#[test]
fn import_of_host_values_gets_an_adapter() {
    let (mut module, imported, caller) =
        module_with_import(&[ValType::I32, ValType::I32], &[ValType::I32]);
    let data = GodotWasmBindgenData {
        symbols: vec![import_symbol(
            "host",
            "g",
            vec![ArgType::GodotValue, ArgType::U32],
            vec![ArgType::GodotValue],
        )],
    };
    let runtime = add_runtime(&mut module).unwrap();
    assert_eq!(substitute_imports(&mut module, &data, &runtime), Ok(()));
    assert!(module.funcs.iter().all(|f| f.id() != imported));
    let import = module.imports.iter().find(|i| i.name == "g").unwrap();
    assert_eq!(import.module, "host");
    let host = match import.kind {
        ImportKind::Function(f) => f,
        _ => panic!("not a function"),
    };
    assert_eq!(
        signature(&module, host),
        (vec![ValType::Externref, ValType::I32], vec![ValType::Externref])
    );
    let targets = call_targets(&module, caller);
    assert_eq!(targets.len(), 1);
    let adapter = targets[0];
    assert_ne!(adapter, host);
    assert_eq!(
        signature(&module, adapter),
        (vec![ValType::I32, ValType::I32], vec![ValType::I32])
    );
    assert_eq!(module.funcs.get(adapter).name.as_deref(), Some("host.g"));
    assert_eq!(
        body(&module, adapter, &runtime),
        vec![
            "local.get",
            "call get",
            "local.get",
            "call free",
            "local.get",
            "call",
            "call alloc",
            "local.set",
            "local.get",
        ]
    );
    assert_eq!(call_targets(&module, adapter)[2], host);
    let back = reparse(&mut module);
    let import = back.imports.iter().find(|i| i.name == "g").unwrap();
    match import.kind {
        ImportKind::Function(f) => assert_eq!(
            signature(&back, f),
            (vec![ValType::Externref, ValType::I32], vec![ValType::Externref])
        ),
        _ => panic!("not a function"),
    }
}

#[test]
fn import_keeps_the_name_of_its_function() {
    let (mut module, imported, caller) = module_with_import(&[], &[ValType::I32]);
    module.funcs.get_mut(imported).name = Some("named".to_string());
    let data = GodotWasmBindgenData {
        symbols: vec![import_symbol("host", "g", vec![], vec![ArgType::U16])],
    };
    let runtime = add_runtime(&mut module).unwrap();
    assert_eq!(substitute_imports(&mut module, &data, &runtime), Ok(()));
    let adapter = call_targets(&module, caller)[0];
    assert_eq!(module.funcs.get(adapter).name.as_deref(), Some("named"));
    assert_eq!(
        body(&module, adapter, &runtime),
        vec!["call", "i32.const 65535", "I32And", "local.set", "local.get"]
    );
    reparse(&mut module);
}

#[test]
fn import_with_wrong_types_is_rejected() {
    let (mut module, imported, caller) = module_with_import(&[ValType::I32], &[ValType::I32]);
    let runtime = add_runtime(&mut module).unwrap();
    let functions = module.funcs.iter().count();
    let data = GodotWasmBindgenData {
        symbols: vec![import_symbol("host", "g", vec![ArgType::I64], vec![ArgType::I32])],
    };
    assert_eq!(
        substitute_imports(&mut module, &data, &runtime),
        Err(RewriteError::ParameterTypeMismatch {
            index: 0,
            declared: ValType::I64,
            actual: ValType::I32
        })
    );
    let data = GodotWasmBindgenData {
        symbols: vec![import_symbol("host", "g", vec![], vec![ArgType::I32])],
    };
    assert_eq!(
        substitute_imports(&mut module, &data, &runtime),
        Err(RewriteError::ParameterLengthMismatch { declared: 0, actual: 1 })
    );
    assert_eq!(call_targets(&module, caller), vec![imported]);
    assert_eq!(module.funcs.iter().count(), functions);
    assert!(matches!(module.funcs.get(imported).kind, FunctionKind::Import(_)));
}

#[test]
fn import_without_metadata_is_left_alone() {
    let (mut module, imported, caller) = module_with_import(&[ValType::I32], &[ValType::I32]);
    let runtime = add_runtime(&mut module).unwrap();
    let data = GodotWasmBindgenData {
        symbols: vec![
            import_symbol("host", "other", vec![ArgType::GodotValue], vec![]),
            import_symbol("other", "g", vec![ArgType::GodotValue], vec![]),
            export_symbol("g", vec![ArgType::GodotValue], vec![]),
        ],
    };
    assert_eq!(substitute_imports(&mut module, &data, &runtime), Ok(()));
    assert_eq!(call_targets(&module, caller), vec![imported]);
    assert_eq!(signature(&module, imported), (vec![ValType::I32], vec![ValType::I32]));
}

#[test]
fn export_of_a_function_without_its_type_is_rejected() {
    let mut module = base_module();
    let f = add_identity(&mut module, "f", ValType::I64);
    let runtime = add_runtime(&mut module).unwrap();
    let ty = module.funcs.get(f).ty();
    module.types.delete(ty);
    let functions = module.funcs.iter().count();
    let data = GodotWasmBindgenData {
        symbols: vec![export_symbol("f", vec![ArgType::I64], vec![ArgType::I64])],
    };
    assert_eq!(
        substitute_exports(&mut module, &data, &runtime),
        Err(RewriteError::MissingType)
    );
    assert_eq!(exported(&module, "f"), f);
    assert_eq!(module.funcs.iter().count(), functions);
}

#[test]
fn export_with_its_type_is_checked_against_it() {
    let mut module = base_module();
    add_identity(&mut module, "f", ValType::I64);
    let g = add_identity(&mut module, "g", ValType::I32);
    let runtime = add_runtime(&mut module).unwrap();
    let ty = module.funcs.get(g).ty();
    module.types.delete(ty);
    let data = GodotWasmBindgenData {
        symbols: vec![export_symbol("f", vec![ArgType::I64], vec![ArgType::I64])],
    };
    assert_eq!(substitute_exports(&mut module, &data, &runtime), Ok(()));
    let data = GodotWasmBindgenData {
        symbols: vec![export_symbol("g", vec![ArgType::I32], vec![ArgType::I32])],
    };
    assert_eq!(
        substitute_exports(&mut module, &data, &runtime),
        Err(RewriteError::MissingType)
    );
    assert_eq!(exported(&module, "g"), g);
}

#[test]
fn import_of_a_function_without_its_type_is_rejected() {
    let (mut module, imported, caller) = module_with_import(&[ValType::I64], &[ValType::I64]);
    let runtime = add_runtime(&mut module).unwrap();
    let ty = module.funcs.get(imported).ty();
    module.types.delete(ty);
    let functions = module.funcs.iter().count();
    let data = GodotWasmBindgenData {
        symbols: vec![import_symbol("host", "g", vec![ArgType::I64], vec![ArgType::I64])],
    };
    assert_eq!(
        substitute_imports(&mut module, &data, &runtime),
        Err(RewriteError::MissingType)
    );
    assert_eq!(call_targets(&module, caller), vec![imported]);
    assert_eq!(module.funcs.iter().count(), functions);
}

#[test]
fn exported_import_that_nothing_replaces_is_left_alone() {
    let mut module = base_module();
    let ty = module.types.add(&[ValType::I32], &[ValType::I32]);
    let (imported, import) = module.add_import_func("host", "h", ty);
    module.exports.add("h", imported);
    add_identity(&mut module, "f", ValType::I32);
    let done = pipeline::rewrite(&mut module).unwrap();
    assert!(done.symbols.is_none());
    assert_eq!(exported(&module, "h"), imported);
    assert!(matches!(
        &module.funcs.get(imported).kind,
        FunctionKind::Import(i) if i.import == import
    ));
    assert!(matches!(module.imports.get(import).kind, ImportKind::Function(f) if f == imported));
    let again = reparse(&mut module);
    assert!(again.exports.get_func("h").is_ok());
}

#[test]
fn exported_import_is_left_alone_by_the_substitutions() {
    let mut module = base_module();
    let ty = module.types.add(&[ValType::I32], &[ValType::I32]);
    let (imported, _) = module.add_import_func("host", "h", ty);
    module.exports.add("h", imported);
    let f = add_identity(&mut module, "f", ValType::I32);
    let runtime = add_runtime(&mut module).unwrap();
    let data = GodotWasmBindgenData {
        symbols: vec![
            export_symbol("f", vec![ArgType::GodotValue], vec![ArgType::GodotValue]),
            import_symbol("host", "other", vec![ArgType::GodotValue], vec![]),
        ],
    };
    assert_eq!(substitute_exports(&mut module, &data, &runtime), Ok(()));
    assert_eq!(substitute_imports(&mut module, &data, &runtime), Ok(()));
    assert_eq!(exported(&module, "h"), imported);
    assert_ne!(exported(&module, "f"), f);
    assert!(matches!(module.funcs.get(imported).kind, FunctionKind::Import(_)));
}

#[test]
fn runtime_functions_outlive_the_rewriting() {
    let (mut module, _, _) =
        module_with_import(&[ValType::I32], &[ValType::I32]);
    add_identity(&mut module, "f", ValType::I32);
    let runtime = add_runtime(&mut module).unwrap();
    let data = GodotWasmBindgenData {
        symbols: vec![
            export_symbol("f", vec![ArgType::GodotValue], vec![ArgType::GodotValue]),
            import_symbol("host", "g", vec![ArgType::GodotValue], vec![ArgType::GodotValue]),
        ],
    };
    let before: Vec<Vec<String>> = [runtime.alloc_func, runtime.free_func, runtime.get_func]
        .iter()
        .map(|f| body(&module, *f, &runtime))
        .collect();
    assert_eq!(substitute_exports(&mut module, &data, &runtime), Ok(()));
    assert_eq!(substitute_imports(&mut module, &data, &runtime), Ok(()));
    let names = ["godot_wasm.alloc", "godot_wasm.free", "godot_wasm.get"];
    for (k, f) in [runtime.alloc_func, runtime.free_func, runtime.get_func].iter().enumerate() {
        let function = module.funcs.get(*f);
        assert!(matches!(function.kind, FunctionKind::Local(_)));
        assert_eq!(function.name.as_deref(), Some(names[k]));
        assert_eq!(body(&module, *f, &runtime), before[k]);
    }
}

#[test]
fn exports_are_spared_unless_they_hand_out_a_replaced_import() {
    let mut module = base_module();
    let ty = module.types.add(&[ValType::I32], &[ValType::I32]);
    let (imported, _) = module.add_import_func("host", "h", ty);
    add_identity(&mut module, "f", ValType::I32);
    assert!(pipeline::exports_spared(&module, None));
    module.exports.add("h", imported);
    assert!(pipeline::exports_spared(&module, None));
    let other = GodotWasmBindgenData {
        symbols: vec![
            import_symbol("host", "other", vec![ArgType::I32], vec![ArgType::I32]),
            export_symbol("h", vec![ArgType::I32], vec![ArgType::I32]),
        ],
    };
    assert!(pipeline::exports_spared(&module, Some(&other)));
    let described = GodotWasmBindgenData {
        symbols: vec![import_symbol("host", "h", vec![ArgType::I32], vec![ArgType::I32])],
    };
    assert!(!pipeline::exports_spared(&module, Some(&described)));
}

#[test]
fn export_of_a_catalogue_import_is_not_spared() {
    let mut module = base_module();
    let ty = module.types.add(&[ValType::I32], &[ValType::I32]);
    let (known, _) = module.add_import_func("godot_wasm", "array.len", ty);
    let (unknown, _) = module.add_import_func("godot_wasm", "no.such.operation", ty);
    let (elsewhere, _) = module.add_import_func("host", "array.len", ty);
    assert!(pipeline::exports_spared(&module, None));
    module.exports.add("b", unknown);
    module.exports.add("c", elsewhere);
    assert!(pipeline::exports_spared(&module, None));
    module.exports.add("a", known);
    assert!(!pipeline::exports_spared(&module, None));
    assert!(pipeline::is_replaced(
        &godot_wasm_bindgen::runtime::imports::catalogue::catalogue(),
        None,
        &"godot_wasm".to_string(),
        &"array.len".to_string()
    ));
    assert!(pipeline::hands_out(&module, known));
}

#[test]
fn adapter_is_checked_against_its_own_type() {
    let mut module = base_module();
    add_identity(&mut module, "f", ValType::I32);
    let runtime = add_runtime(&mut module).unwrap();
    let data = GodotWasmBindgenData {
        symbols: vec![export_symbol("f", vec![ArgType::GodotValue], vec![ArgType::GodotValue])],
    };
    assert_eq!(substitute_exports(&mut module, &data, &runtime), Ok(()));
    let adapter = exported(&module, "f");
    assert_eq!(
        signature(&module, adapter),
        (vec![ValType::Externref], vec![ValType::Externref])
    );
    assert_eq!(
        substitute_exports(&mut module, &data, &runtime),
        Err(RewriteError::ParameterTypeMismatch {
            index: 0,
            declared: ValType::I32,
            actual: ValType::Externref
        })
    );
    assert_eq!(exported(&module, "f"), adapter);
}
