use godot_wasm_bindgen::custom::{read_custom_data, require_feature, MULTI_MEMORY};
use godot_wasm_bindgen::decode::{
    ArgType, ExportFunction, Feature, FunctionArgs, GodotWasmBindgenData, Symbol, SymbolType,
    TargetFeatures,
};
use godot_wasm_bindgen::error::{DecodeError, RewriteError};
use godot_wasm_bindgen::pipeline::{rewrite, Error};
use godot_wasm_bindgen::relink::{map_substitute_funcs, relink_members, FuncMap};
use godot_wasm_bindgen::runtime::imports::catalogue::{catalogue, Adapter};
use godot_wasm_bindgen::runtime::imports::{
    erase_all, generate_imports, standard_adapter_code, EXTERNREF_MODULE, MODULE_NAME,
};
use godot_wasm_bindgen::runtime::add_runtime;
use godot_wasm_bindgen::wasm::emit::{add_function, add_locals, emit_all};
use godot_wasm_bindgen::wasm::Op;
use walrus::ir::{Instr, Value};
use walrus::{
    ElementKind, FunctionBuilder, FunctionId, GlobalKind, ImportKind, InitExpr, Module,
    RawCustomSection, ValType,
};

fn base_module() -> Module {
    let mut module = Module::default();
    let memory = module.memories.add_local(false, 1, None);
    module.exports.add("memory", memory);
    module
}

fn import(module: &mut Module, name: &str, params: &[ValType], results: &[ValType]) -> FunctionId {
    let ty = module.types.add(params, results);
    module.add_import_func("godot_wasm", name, ty).0
}

/// A function that calls `callee` with zeros and drops what comes back.
fn caller(module: &mut Module, name: &str, callee: FunctionId) -> FunctionId {
    let ty = module.types.get(module.funcs.get(callee).ty());
    let (params, results) = (ty.params().len(), ty.results().len());
    let mut builder = FunctionBuilder::new(&mut module.types, &[], &[]);
    {
        let mut body = builder.func_body();
        for _ in 0..params {
            body.i32_const(0);
        }
        body.call(callee);
        for _ in 0..results {
            body.drop();
        }
    }
    let f = builder.finish(vec![], &mut module.funcs);
    module.exports.add(name, f);
    f
}

fn signature(module: &Module, f: FunctionId) -> (Vec<ValType>, Vec<ValType>) {
    let ty = module.types.get(module.funcs.get(f).ty());
    (ty.params().to_vec(), ty.results().to_vec())
}

fn call_targets(module: &Module, f: FunctionId) -> Vec<FunctionId> {
    let local = module.funcs.get(f).kind.unwrap_local();
    let mut found = Vec::new();
    let mut stack = vec![local.entry_block()];
    while let Some(seq) = stack.pop() {
        for (instr, _) in &local.block(seq).instrs {
            match instr {
                Instr::Call(c) => found.push(c.func),
                Instr::Block(b) => stack.push(b.seq),
                Instr::Loop(l) => stack.push(l.seq),
                Instr::IfElse(i) => {
                    stack.push(i.alternative);
                    stack.push(i.consequent);
                }
                _ => {}
            }
        }
    }
    found
}

fn host_import(module: &Module, namespace: &str, name: &str) -> FunctionId {
    let import = module
        .imports
        .iter()
        .find(|i| i.module == namespace && i.name == name)
        .unwrap();
    match import.kind {
        ImportKind::Function(f) => f,
        _ => panic!("not a function"),
    }
}

fn alive(module: &Module, f: FunctionId) -> bool {
    module.funcs.iter().any(|g| g.id() == f)
}

#[test]
fn catalogue_lists_every_operation_once() {
    let list = catalogue();
    assert_eq!(list.len(), 12 + 2 + 6 * 3 + 13 * 2 + 3 + 4 + 26);
    let mut names: Vec<&str> = list.iter().map(|e| e.name.as_str()).collect();
    assert_eq!(names[0], "array.new");
    assert_eq!(names[12], "duplicate");
    assert_eq!(names[13], "delete");
    assert_eq!(names[14], "byte_array.len");
    assert_eq!(names[32], "bool.read");
    assert_eq!(names[33], "bool.write");
    assert_eq!(names[58], "string.len");
    assert_eq!(names[61], "string_array.len");
    assert_eq!(names[63], "string_array.get_many");
    assert_eq!(names[64], "string_array.build");
    assert_eq!(names[65], "bool.is");
    assert_eq!(names[90], "color_array.is");
    names.sort();
    names.dedup();
    assert_eq!(names.len(), 91);
}

#[test]
fn catalogue_entries_have_their_signatures() {
    let list = catalogue();
    let find = |name: &str| list.iter().find(|e| e.name == name).unwrap().adapter.clone();
    let r = ValType::Externref;
    let i = ValType::I32;
    match find("array.set") {
        Adapter::Standard { namespace, params, results } => {
            assert_eq!(namespace, "godot_object_v2");
            assert_eq!(params, vec![r, i, r]);
            assert_eq!(results, vec![]);
        }
        _ => panic!("not standard"),
    }
    match find("vector3.is") {
        Adapter::Standard { namespace, params, results } => {
            assert_eq!(namespace, "godot_wasm");
            assert_eq!(params, vec![r]);
            assert_eq!(results, vec![i]);
        }
        _ => panic!("not standard"),
    }
    match find("quat.write") {
        Adapter::Standard { namespace, params, results } => {
            assert_eq!(namespace, "godot_wasm");
            assert_eq!(params, vec![i]);
            assert_eq!(results, vec![r]);
        }
        _ => panic!("not standard"),
    }
    match find("int_array.write") {
        Adapter::Standard { namespace, params, results } => {
            assert_eq!(namespace, "godot_object_v2");
            assert_eq!(params, vec![i, i]);
            assert_eq!(results, vec![r]);
        }
        _ => panic!("not standard"),
    }
    assert!(matches!(find("duplicate"), Adapter::Duplicate));
    assert!(matches!(find("delete"), Adapter::Delete));
    assert!(matches!(find("string_array.get_many"), Adapter::GetMany));
    assert!(matches!(find("string_array.build"), Adapter::Build));
    assert_eq!(MODULE_NAME, "godot_wasm");
    assert_eq!(EXTERNREF_MODULE, "godot_object_v2");
}

#[test]
fn erase_all_puts_slots_for_references() {
    assert_eq!(
        erase_all(&vec![ValType::Externref, ValType::I64, ValType::Funcref, ValType::I32]),
        vec![ValType::I32, ValType::I64, ValType::Funcref, ValType::I32]
    );
}

#[test]
fn absent_imports_are_passed_over() {
    let mut module = base_module();
    let runtime = add_runtime(&mut module).unwrap();
    assert_eq!(module.imports.iter().count(), 0);
    assert_eq!(module.funcs.iter().count(), 3);
    assert!(generate_imports(&mut module, &runtime).is_ok());
    assert_eq!(module.funcs.iter().count(), 3);
}

#[test]
fn standard_import_is_replaced_by_an_adapter() {
    let mut module = base_module();
    let old = import(&mut module, "array.get", &[ValType::I32, ValType::I32], &[ValType::I32]);
    let user = caller(&mut module, "user", old);
    let runtime = add_runtime(&mut module).unwrap();
    assert!(!alive(&module, old));
    assert!(module.imports.iter().all(|i| i.module != "godot_wasm"));
    let host = host_import(&module, "godot_object_v2", "array.get");
    assert_eq!(
        signature(&module, host),
        (vec![ValType::Externref, ValType::I32], vec![ValType::Externref])
    );
    let adapter = call_targets(&module, user)[0];
    assert_eq!(
        signature(&module, adapter),
        (vec![ValType::I32, ValType::I32], vec![ValType::I32])
    );
    assert_eq!(module.funcs.get(adapter).name.as_deref(), Some("godot_wasm.array.get"));
    assert_eq!(
        call_targets(&module, adapter),
        vec![runtime.get_func, host, runtime.alloc_func]
    );
    let bytes = module.emit_wasm();
    Module::from_buffer(&bytes).expect("valid");
}

#[test]
fn type_test_stays_in_the_primary_namespace() {
    let mut module = base_module();
    let old = import(&mut module, "string.is", &[ValType::I32], &[ValType::I32]);
    let user = caller(&mut module, "user", old);
    let runtime = add_runtime(&mut module).unwrap();
    let host = host_import(&module, "godot_wasm", "string.is");
    assert_ne!(host, old);
    assert_eq!(signature(&module, host), (vec![ValType::Externref], vec![ValType::I32]));
    let adapter = call_targets(&module, user)[0];
    assert_eq!(call_targets(&module, adapter), vec![runtime.get_func, host]);
    let bytes = module.emit_wasm();
    Module::from_buffer(&bytes).expect("valid");
}

#[test]
fn duplicate_and_delete_need_no_host_import() {
    let mut module = base_module();
    let dup = import(&mut module, "duplicate", &[ValType::I32], &[ValType::I32]);
    let del = import(&mut module, "delete", &[ValType::I32], &[]);
    let user_dup = caller(&mut module, "dup", dup);
    let user_del = caller(&mut module, "del", del);
    let runtime = add_runtime(&mut module).unwrap();
    assert_eq!(module.imports.iter().count(), 0);
    let adapter = call_targets(&module, user_dup)[0];
    assert_eq!(signature(&module, adapter), (vec![ValType::I32], vec![ValType::I32]));
    assert_eq!(module.funcs.get(adapter).name.as_deref(), Some("godot_wasm.duplicate"));
    assert_eq!(call_targets(&module, adapter), vec![runtime.get_func, runtime.alloc_func]);
    let adapter = call_targets(&module, user_del)[0];
    assert_eq!(signature(&module, adapter), (vec![ValType::I32], vec![]));
    assert_eq!(call_targets(&module, adapter), vec![runtime.free_func]);
    let bytes = module.emit_wasm();
    Module::from_buffer(&bytes).expect("valid");
}

#[test]
fn batch_operations_declare_their_helpers() {
    let mut module = base_module();
    let i = ValType::I32;
    let many = import(&mut module, "string_array.get_many", &[i, i, i, i], &[i]);
    let build = import(&mut module, "string_array.build", &[i, i], &[i]);
    let user_many = caller(&mut module, "many", many);
    let user_build = caller(&mut module, "build", build);
    let runtime = add_runtime(&mut module).unwrap();
    let members = module.elements.get(runtime.declare_funcs).members.clone();
    assert_eq!(members.len(), 2);
    let many_helper = members[0].unwrap();
    let build_helper = members[1].unwrap();
    assert_eq!(
        module.funcs.get(many_helper).name.as_deref(),
        Some("godot_wasm.string_array.get_many.helper")
    );
    assert_eq!(
        module.funcs.get(build_helper).name.as_deref(),
        Some("godot_wasm.string_array.build.helper")
    );
    assert_eq!(signature(&module, many_helper), (vec![ValType::Externref], vec![i]));
    assert_eq!(signature(&module, build_helper), (vec![i], vec![ValType::Externref, i]));
    assert_eq!(call_targets(&module, many_helper), vec![runtime.alloc_func]);
    assert_eq!(call_targets(&module, build_helper), vec![runtime.get_func]);
    let host_many = host_import(&module, "godot_object_v2", "string_array.get_many");
    assert_eq!(
        signature(&module, host_many),
        (vec![ValType::Externref, i, ValType::Funcref], vec![i])
    );
    let host_build = host_import(&module, "godot_object_v2", "string_array.build");
    assert_eq!(
        signature(&module, host_build),
        (vec![ValType::Funcref], vec![ValType::Externref])
    );
    let adapter = call_targets(&module, user_many)[0];
    assert_eq!(signature(&module, adapter), (vec![i, i, i, i], vec![i]));
    assert_eq!(call_targets(&module, adapter), vec![runtime.get_func, host_many]);
    let adapter = call_targets(&module, user_build)[0];
    assert_eq!(signature(&module, adapter), (vec![i, i], vec![i]));
    assert_eq!(call_targets(&module, adapter), vec![host_build, runtime.alloc_func]);
    let bytes = module.emit_wasm();
    Module::from_buffer(&bytes).expect("valid");
}

#[test]
fn every_catalogue_import_is_replaced_and_valid() {
    let mut module = base_module();
    let list = catalogue();
    let mut users = Vec::new();
    let mut olds = Vec::new();
    for entry in &list {
        let (params, results): (Vec<ValType>, Vec<ValType>) = match &entry.adapter {
            Adapter::Standard { params, results, .. } => (erase_all(params), erase_all(results)),
            Adapter::Duplicate => (vec![ValType::I32], vec![ValType::I32]),
            Adapter::Delete => (vec![ValType::I32], vec![]),
            Adapter::GetMany => (vec![ValType::I32; 4], vec![ValType::I32]),
            Adapter::Build => (vec![ValType::I32; 2], vec![ValType::I32]),
        };
        let old = import(&mut module, &entry.name, &params, &results);
        users.push(caller(&mut module, &format!("use.{}", entry.name), old));
        olds.push(old);
    }
    let unknown = import(&mut module, "variant_type", &[ValType::I32], &[ValType::I32]);
    let unknown_user = caller(&mut module, "use.variant_type", unknown);
    add_runtime(&mut module).unwrap();
    for old in &olds {
        assert!(!alive(&module, *old));
    }
    for user in &users {
        for target in call_targets(&module, *user) {
            assert!(!olds.contains(&target));
            assert!(alive(&module, target));
        }
    }
    assert_eq!(call_targets(&module, unknown_user), vec![unknown]);
    assert!(alive(&module, unknown));
    let bytes = module.emit_wasm();
    let back = Module::from_buffer(&bytes).expect("valid");
    assert_eq!(
        back.imports.iter().filter(|i| i.module == "godot_object_v2").count(),
        12 + 18 + 3 + 4
    );
    assert_eq!(
        back.imports.iter().filter(|i| i.module == "godot_wasm").count(),
        26 + 26 + 1
    );
}

#[test]
fn func_map_keeps_the_first_replacement() {
    let mut module = base_module();
    let a = import(&mut module, "a", &[], &[]);
    let b = import(&mut module, "b", &[], &[]);
    let c = import(&mut module, "c", &[], &[]);
    let mut map = FuncMap::new();
    assert_eq!(map.len(), 0);
    assert_eq!(map.get(a), None);
    map.insert(a, b);
    map.insert(b, c);
    map.insert(a, c);
    assert_eq!(map.len(), 2);
    assert_eq!(map.get(a), Some(b));
    assert_eq!(map.get(b), Some(c));
    assert_eq!(map.get(c), None);
    assert_eq!(map.entry(0), (a, b));
    assert_eq!(map.entry(1), (b, c));
    assert_eq!(
        relink_members(&vec![Some(a), None, Some(c), Some(b)], &map),
        vec![Some(b), None, Some(c), Some(c)]
    );
}

#[test]
fn relinking_redirects_calls_elements_and_globals() {
    let mut module = base_module();
    let old1 = import(&mut module, "one", &[], &[]);
    let old2 = import(&mut module, "two", &[], &[]);
    let kept = import(&mut module, "kept", &[], &[]);
    let new1 = {
        let builder = FunctionBuilder::new(&mut module.types, &[], &[]);
        builder.finish(vec![], &mut module.funcs)
    };
    let new2 = {
        let builder = FunctionBuilder::new(&mut module.types, &[], &[]);
        builder.finish(vec![], &mut module.funcs)
    };
    let nested = {
        let mut builder = FunctionBuilder::new(&mut module.types, &[], &[]);
        builder
            .func_body()
            .call(old1)
            .block(None, |b| {
                b.call(old2).loop_(None, |l| {
                    l.call(kept).call(old1);
                });
            })
            .i32_const(1)
            .if_else(
                None,
                |t| {
                    t.call(old2);
                },
                |e| {
                    e.call(old1).call(new1);
                },
            )
            .call(kept);
        builder.finish(vec![], &mut module.funcs)
    };
    module.exports.add("nested", nested);
    let table = module.tables.add_local(4, None, ValType::Funcref);
    let funcs = module.elements.add(
        ElementKind::Active { table, offset: InitExpr::Value(Value::I32(0)) },
        ValType::Funcref,
        vec![Some(old1), None, Some(kept), Some(old2)],
    );
    let other = module.elements.add(ElementKind::Passive, ValType::Externref, vec![Some(old1)]);
    let g_old = module.globals.add_local(ValType::Funcref, false, InitExpr::RefFunc(old2));
    let g_kept = module.globals.add_local(ValType::Funcref, false, InitExpr::RefFunc(kept));
    let g_num = module.globals.add_local(ValType::I32, false, InitExpr::Value(Value::I32(3)));
    let mut map = FuncMap::new();
    map.insert(old1, new1);
    map.insert(old2, new2);
    map_substitute_funcs(&mut module, &map);
    assert!(!alive(&module, old1));
    assert!(!alive(&module, old2));
    assert!(alive(&module, kept));
    assert!(alive(&module, new1));
    assert_eq!(
        call_targets(&module, nested),
        vec![new1, kept, new2, new1, new1, new2, kept, new1]
    );
    assert_eq!(
        module.elements.get(funcs).members,
        vec![Some(new1), None, Some(kept), Some(new2)]
    );
    assert_eq!(module.elements.get(other).members, vec![Some(old1)]);
    let init = |g| match module.globals.get(g).kind {
        GlobalKind::Local(InitExpr::RefFunc(f)) => Some(f),
        _ => None,
    };
    assert_eq!(init(g_old), Some(new2));
    assert_eq!(init(g_kept), Some(kept));
    assert_eq!(init(g_num), None);
    for f in module.funcs.iter_local() {
        for target in call_targets(&module, f.0) {
            assert!(target != old1 && target != old2);
        }
    }
}

#[test]
fn relinking_with_an_empty_map_changes_nothing() {
    let mut module = base_module();
    let kept = import(&mut module, "kept", &[], &[]);
    let user = caller(&mut module, "user", kept);
    let before = module.funcs.iter().count();
    map_substitute_funcs(&mut module, &FuncMap::new());
    assert_eq!(module.funcs.iter().count(), before);
    assert_eq!(call_targets(&module, user), vec![kept]);
}

#[test]
fn emitted_code_is_what_was_asked_for() {
    let mut module = base_module();
    let runtime = add_runtime(&mut module).unwrap();
    let locals = add_locals(&mut module, &vec![ValType::I32, ValType::Externref]);
    assert_eq!(locals.len(), 2);
    assert_eq!(module.locals.get(locals[0]).ty(), ValType::I32);
    assert_eq!(module.locals.get(locals[1]).ty(), ValType::Externref);
    let code = standard_adapter_code(
        &vec![ValType::I32, ValType::Externref],
        &vec![ValType::Externref],
        &locals,
        runtime.get_func,
        &runtime,
    );
    assert_eq!(code.len(), 5);
    let f = add_function(
        &mut module,
        "built".to_string(),
        &vec![ValType::I32, ValType::I32],
        &vec![ValType::I32],
        locals.clone(),
        &code,
    );
    assert_eq!(module.funcs.get(f).name.as_deref(), Some("built"));
    let local = module.funcs.get(f).kind.unwrap_local();
    assert_eq!(local.args, locals);
    let instrs = &local.block(local.entry_block()).instrs;
    assert_eq!(instrs.len(), 5);
    assert!(matches!(&instrs[0].0, Instr::LocalGet(g) if g.local == locals[0]));
    assert!(matches!(&instrs[1].0, Instr::LocalGet(g) if g.local == locals[1]));
    assert!(matches!(&instrs[2].0, Instr::Call(c) if c.func == runtime.get_func));
    assert!(matches!(&instrs[3].0, Instr::Call(c) if c.func == runtime.get_func));
    assert!(matches!(&instrs[4].0, Instr::Call(c) if c.func == runtime.alloc_func));
    let mut builder = FunctionBuilder::new(&mut module.types, &[], &[]);
    let entry = builder.func_body_id();
    emit_all(&mut builder, entry, &vec![Op::I32Const(7), Op::Return]);
    emit_all(&mut builder, entry, &vec![Op::Unreachable]);
    let g = builder.finish(vec![], &mut module.funcs);
    let local = module.funcs.get(g).kind.unwrap_local();
    let instrs = &local.block(local.entry_block()).instrs;
    assert_eq!(instrs.len(), 3);
    assert!(matches!(&instrs[0].0, Instr::Const(c) if matches!(c.value, Value::I32(7))));
    assert!(matches!(&instrs[1].0, Instr::Return(_)));
    assert!(matches!(&instrs[2].0, Instr::Unreachable(_)));
}

fn export_symbol(name: &str) -> Symbol {
    Symbol {
        version: [1, 0, 0, 0],
        inner: SymbolType::ExportFunction(ExportFunction {
            name: name.to_string(),
            args: FunctionArgs { params: vec![ArgType::GodotValue], results: vec![] },
        }),
    }
}

fn raw(module: &mut Module, name: &str, data: Vec<u8>) {
    module.customs.add(RawCustomSection { name: name.to_string(), data });
}

fn take_raw(module: &mut Module, name: &str) -> Option<Vec<u8>> {
    module.customs.remove_raw(name).map(|s| s.data)
}

#[test]
fn custom_data_is_taken_out_of_the_module() {
    let mut module = base_module();
    let table = GodotWasmBindgenData { symbols: vec![export_symbol("f"), export_symbol("g")] };
    raw(&mut module, "other", vec![1, 2, 3]);
    raw(&mut module, "__godot_wasm_bindgen_data", table.data());
    // A longer encoding of the count: the section comes back in canonical form.
    raw(&mut module, "target_features", vec![0x81, 0x00, 43, 1, b'a']);
    assert_eq!(read_custom_data(&mut module), Ok(Some(table)));
    assert_eq!(take_raw(&mut module, "__godot_wasm_bindgen_data"), None);
    assert_eq!(take_raw(&mut module, "target_features"), Some(vec![1, 43, 1, b'a']));
    assert_eq!(take_raw(&mut module, "other"), Some(vec![1, 2, 3]));
}

#[test]
fn module_without_metadata_gives_none() {
    let mut module = base_module();
    assert_eq!(read_custom_data(&mut module), Ok(None));
    raw(&mut module, "target_features", vec![0]);
    assert_eq!(read_custom_data(&mut module), Ok(None));
    assert_eq!(take_raw(&mut module, "target_features"), Some(vec![0]));
}

#[test]
fn malformed_sections_are_rejected() {
    let mut module = base_module();
    raw(&mut module, "target_features", vec![1, 0, 1, b'a']);
    raw(&mut module, "__godot_wasm_bindgen_data", vec![]);
    assert_eq!(read_custom_data(&mut module), Err(DecodeError::UnknownFeatureFlag(0)));
    assert_eq!(take_raw(&mut module, "__godot_wasm_bindgen_data"), Some(vec![]));
    let mut module = base_module();
    raw(&mut module, "__godot_wasm_bindgen_data", vec![1, 0, 0, 0, 1, 7]);
    assert_eq!(read_custom_data(&mut module), Err(DecodeError::UnrecognizedSymbolKind(7)));
    assert_eq!(take_raw(&mut module, "__godot_wasm_bindgen_data"), None);
}

#[test]
fn required_feature_is_appended() {
    let mut module = base_module();
    assert_eq!(require_feature(&mut module, MULTI_MEMORY), Ok(false));
    let list = TargetFeatures {
        features: vec![Feature { enabled: false, name: "simd".to_string() }],
    };
    raw(&mut module, "target_features", list.data());
    assert_eq!(require_feature(&mut module, MULTI_MEMORY), Ok(true));
    let bytes = take_raw(&mut module, "target_features").unwrap();
    assert_eq!(
        TargetFeatures::try_from(&bytes[..]),
        Ok(TargetFeatures {
            features: vec![
                Feature { enabled: false, name: "simd".to_string() },
                Feature { enabled: true, name: "multi-memory".to_string() },
            ],
        })
    );
    raw(&mut module, "target_features", vec![9]);
    assert_eq!(require_feature(&mut module, MULTI_MEMORY), Err(DecodeError::UnexpectedEof));
    assert_eq!(take_raw(&mut module, "target_features"), Some(vec![9]));
}

#[test]
fn whole_rewriting_of_a_module() {
    let mut module = base_module();
    let array_len = import(&mut module, "array.len", &[ValType::I32], &[ValType::I32]);
    let user = caller(&mut module, "user", array_len);
    let table = GodotWasmBindgenData {
        symbols: vec![Symbol {
            version: [1, 0, 0, 0],
            inner: SymbolType::ExportFunction(ExportFunction {
                name: "user".to_string(),
                args: FunctionArgs { params: vec![], results: vec![] },
            }),
        }],
    };
    raw(&mut module, "__godot_wasm_bindgen_data", table.data());
    raw(&mut module, "target_features", vec![1, 43, 1, b'a']);
    let done = rewrite(&mut module).unwrap();
    assert_eq!(done.symbols, Some(table));
    assert_ne!(module.exports.get_func("user").unwrap(), user);
    assert!(!alive(&module, array_len));
    assert_eq!(take_raw(&mut module, "__godot_wasm_bindgen_data"), None);
    assert_eq!(require_feature(&mut module, MULTI_MEMORY), Ok(true));
    let bytes = module.emit_wasm();
    let back = Module::from_buffer(&bytes).expect("valid");
    assert!(back.imports.find("godot_object_v2", "array.len").is_some());

    let mut module = base_module();
    raw(&mut module, "__godot_wasm_bindgen_data", vec![1, 2, 3]);
    assert!(matches!(
        rewrite(&mut module),
        Err(Error::Decode(DecodeError::UnexpectedEof))
    ));

    let mut module = Module::default();
    assert!(matches!(
        rewrite(&mut module),
        Err(Error::Rewrite(RewriteError::NoMainMemory))
    ));

    let mut module = base_module();
    let f = {
        let b = FunctionBuilder::new(&mut module.types, &[], &[]);
        b.finish(vec![], &mut module.funcs)
    };
    module.exports.add("f", f);
    let table = GodotWasmBindgenData {
        symbols: vec![Symbol {
            version: [1, 0, 0, 0],
            inner: SymbolType::ExportFunction(ExportFunction {
                name: "f".to_string(),
                args: FunctionArgs { params: vec![ArgType::I32], results: vec![] },
            }),
        }],
    };
    raw(&mut module, "__godot_wasm_bindgen_data", table.data());
    assert!(matches!(
        rewrite(&mut module),
        Err(Error::Rewrite(RewriteError::ParameterLengthMismatch {
            declared: 1,
            actual: 0
        }))
    ));
}
