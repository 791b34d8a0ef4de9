use godot_wasm_bindgen::decode::ArgType;
use godot_wasm_bindgen::relink::{relink_body, relink_calls, relink_elements, relink_globals, delete_keys, FuncMap};
use godot_wasm_bindgen::runtime::imports::{declare, install, install_batch, install_plain, install_standard, replace_import};
use godot_wasm_bindgen::runtime::imports::catalogue::{
    array_list, joined, kinds0, kinds1, kinds2, kinds3, object_entry, other_list, pool_list,
    pool_name_list, primitive_list, primitive_name_list, string_array_list, string_list,
    type_name_list, typeis_list, value_entry, Adapter, Entry,
};
use godot_wasm_bindgen::runtime::{add_alloc, add_free, add_get, add_runtime, SlotStore};
use godot_wasm_bindgen::substitution::{
    find_difference, push_normalize, push_reads, substitute_export, substitute_import,
};
use godot_wasm_bindgen::wasm::emit::{emit, emit_all};
use godot_wasm_bindgen::wasm::Op;
use walrus::ir::{BinaryOp, ExtendedLoad, Instr, LoadKind, MemArg, StoreKind, UnaryOp, Value};
use walrus::{ExportItem, FunctionBuilder, FunctionId, ImportKind, Module, ValType};

fn signature(module: &Module, f: FunctionId) -> (Vec<ValType>, Vec<ValType>) {
    let ty = module.types.get(module.funcs.get(f).ty());
    (ty.params().to_vec(), ty.results().to_vec())
}

#[test]
fn emit_writes_every_instruction() {
    let mut module = Module::default();
    let memory = module.memories.add_local(false, 1, None);
    let table = module.tables.add_local(1, None, ValType::Externref);
    let global = module.globals.add_local(
        ValType::I32,
        true,
        walrus::InitExpr::Value(Value::I32(0)),
    );
    let local = module.locals.add(ValType::I32);
    let callee = {
        let b = FunctionBuilder::new(&mut module.types, &[], &[]);
        b.finish(vec![], &mut module.funcs)
    };
    let mut builder = FunctionBuilder::new(&mut module.types, &[], &[]);
    let entry = builder.func_body_id();
    let a = builder.dangling_instr_seq(None).id();
    let b = builder.dangling_instr_seq(None).id();
    let load = (LoadKind::I32_16 { kind: ExtendedLoad::ZeroExtend }, MemArg { align: 1, offset: 4 });
    let store = (StoreKind::I32 { atomic: false }, MemArg { align: 2, offset: 8 });
    let ops = vec![
        Op::Block(a),
        Op::Loop(b),
        Op::IfElse(a, b),
        Op::Br(a),
        Op::BrIf(b),
        Op::Return,
        Op::Unreachable,
        Op::Call(callee),
        Op::RefFunc(callee),
        Op::LocalGet(local),
        Op::LocalSet(local),
        Op::LocalTee(local),
        Op::GlobalGet(global),
        Op::GlobalSet(global),
        Op::I32Const(-7),
        Op::Binop(BinaryOp::I32GeU),
        Op::Unop(UnaryOp::I32Extend16S),
        Op::RefNull(ValType::Externref),
        Op::RefIsNull,
        Op::TableGet(table),
        Op::TableSet(table),
        Op::TableSize(table),
        Op::TableGrow(table),
        Op::Load(memory, load.0, load.1),
        Op::Store(memory, store.0, store.1),
    ];
    emit_all(&mut builder, entry, &ops);
    emit(&mut builder, a, Op::I32Const(1));
    emit(&mut builder, b, Op::I32Const(2));
    let f = builder.finish(vec![], &mut module.funcs);
    let function = module.funcs.get(f).kind.unwrap_local();
    let instrs = &function.block(function.entry_block()).instrs;
    assert_eq!(instrs.len(), 25);
    assert!(matches!(&instrs[0].0, Instr::Block(x) if x.seq == a));
    assert!(matches!(&instrs[1].0, Instr::Loop(x) if x.seq == b));
    assert!(matches!(&instrs[2].0, Instr::IfElse(x) if x.consequent == a && x.alternative == b));
    assert!(matches!(&instrs[3].0, Instr::Br(x) if x.block == a));
    assert!(matches!(&instrs[4].0, Instr::BrIf(x) if x.block == b));
    assert!(matches!(&instrs[5].0, Instr::Return(_)));
    assert!(matches!(&instrs[6].0, Instr::Unreachable(_)));
    assert!(matches!(&instrs[7].0, Instr::Call(x) if x.func == callee));
    assert!(matches!(&instrs[8].0, Instr::RefFunc(x) if x.func == callee));
    assert!(matches!(&instrs[9].0, Instr::LocalGet(x) if x.local == local));
    assert!(matches!(&instrs[10].0, Instr::LocalSet(x) if x.local == local));
    assert!(matches!(&instrs[11].0, Instr::LocalTee(x) if x.local == local));
    assert!(matches!(&instrs[12].0, Instr::GlobalGet(x) if x.global == global));
    assert!(matches!(&instrs[13].0, Instr::GlobalSet(x) if x.global == global));
    assert!(matches!(&instrs[14].0, Instr::Const(x) if matches!(x.value, Value::I32(-7))));
    assert!(matches!(&instrs[15].0, Instr::Binop(x) if matches!(x.op, BinaryOp::I32GeU)));
    assert!(matches!(&instrs[16].0, Instr::Unop(x) if matches!(x.op, UnaryOp::I32Extend16S)));
    assert!(matches!(&instrs[17].0, Instr::RefNull(x) if x.ty == ValType::Externref));
    assert!(matches!(&instrs[18].0, Instr::RefIsNull(_)));
    assert!(matches!(&instrs[19].0, Instr::TableGet(x) if x.table == table));
    assert!(matches!(&instrs[20].0, Instr::TableSet(x) if x.table == table));
    assert!(matches!(&instrs[21].0, Instr::TableSize(x) if x.table == table));
    assert!(matches!(&instrs[22].0, Instr::TableGrow(x) if x.table == table));
    assert!(matches!(
        &instrs[23].0,
        Instr::Load(x) if x.memory == memory
            && matches!(x.kind, LoadKind::I32_16 { kind: ExtendedLoad::ZeroExtend })
            && x.arg.align == 1 && x.arg.offset == 4
    ));
    assert!(matches!(
        &instrs[24].0,
        Instr::Store(x) if x.memory == memory
            && matches!(x.kind, StoreKind::I32 { atomic: false })
            && x.arg.align == 2 && x.arg.offset == 8
    ));
    let first = &function.block(a).instrs;
    assert!(matches!(&first[0].0, Instr::Const(x) if matches!(x.value, Value::I32(1))));
    let second = &function.block(b).instrs;
    assert!(matches!(&second[0].0, Instr::Const(x) if matches!(x.value, Value::I32(2))));
}

#[test]
fn normalize_and_reads() {
    let mut module = Module::default();
    let alloc = {
        let b = FunctionBuilder::new(&mut module.types, &[], &[]);
        b.finish(vec![], &mut module.funcs)
    };
    let l0 = module.locals.add(ValType::I32);
    let l1 = module.locals.add(ValType::I32);
    let mut code = vec![Op::Return];
    push_normalize(&mut code, ArgType::U8, alloc);
    assert_eq!(code.len(), 3);
    assert!(matches!(code[1], Op::I32Const(255)));
    assert!(matches!(code[2], Op::Binop(BinaryOp::I32And)));
    push_normalize(&mut code, ArgType::I16, alloc);
    assert!(matches!(code[3], Op::Unop(UnaryOp::I32Extend16S)));
    push_normalize(&mut code, ArgType::U16, alloc);
    assert!(matches!(code[4], Op::I32Const(65535)));
    push_normalize(&mut code, ArgType::I8, alloc);
    assert!(matches!(code[6], Op::Unop(UnaryOp::I32Extend8S)));
    push_normalize(&mut code, ArgType::GodotValue, alloc);
    assert!(matches!(code[7], Op::Call(f) if f == alloc));
    for t in [ArgType::U32, ArgType::I32, ArgType::U64, ArgType::I64, ArgType::F32, ArgType::F64] {
        push_normalize(&mut code, t, alloc);
    }
    assert_eq!(code.len(), 8);
    push_reads(&mut code, &vec![l0, l1]);
    assert_eq!(code.len(), 10);
    assert!(matches!(code[8], Op::LocalGet(l) if l == l0));
    assert!(matches!(code[9], Op::LocalGet(l) if l == l1));
}

#[test]
fn first_difference_of_two_lists() {
    let i = ValType::I32;
    let l = ValType::I64;
    assert_eq!(find_difference(&vec![], &vec![]), None);
    assert_eq!(find_difference(&vec![i, l], &vec![i, l]), None);
    assert_eq!(find_difference(&vec![i, l, i], &vec![i, i, l]), Some(1));
    assert_eq!(find_difference(&vec![l], &vec![i]), Some(0));
}

#[test]
fn catalogue_parts() {
    assert_eq!(type_name_list().len(), 26);
    assert_eq!(primitive_name_list().len(), 13);
    assert_eq!(pool_name_list(), vec!["byte_array", "int_array", "float_array", "vector2_array", "vector3_array", "color_array"]);
    assert_eq!(array_list().len(), 12);
    assert_eq!(other_list().len(), 2);
    assert_eq!(string_list().len(), 3);
    assert_eq!(string_array_list().len(), 4);
    assert_eq!(pool_list().len(), 18);
    assert_eq!(primitive_list().len(), 26);
    assert_eq!(typeis_list().len(), 26);
    assert_eq!(joined("ab", "cd"), "abcd");
    assert_eq!(kinds0(), Vec::<ValType>::new());
    assert_eq!(kinds1(ValType::I64), vec![ValType::I64]);
    assert_eq!(kinds2(ValType::I64, ValType::I32), vec![ValType::I64, ValType::I32]);
    assert_eq!(
        kinds3(ValType::I64, ValType::I32, ValType::Funcref),
        vec![ValType::I64, ValType::I32, ValType::Funcref]
    );
    let e = object_entry("x.y", vec![ValType::I32], vec![]);
    assert_eq!(e.name, "x.y");
    assert!(matches!(e.adapter, Adapter::Standard { ref namespace, .. } if namespace == "godot_object_v2"));
    let e = value_entry("x.z", vec![], vec![ValType::I32]);
    assert!(matches!(e.adapter, Adapter::Standard { ref namespace, .. } if namespace == "godot_wasm"));
    assert_eq!(pool_list()[2].name, "byte_array.write");
    assert_eq!(primitive_list()[3].name, "int.write");
    assert_eq!(typeis_list()[25].name, "color_array.is");
}

fn base_module() -> Module {
    let mut module = Module::default();
    let memory = module.memories.add_local(false, 1, None);
    module.exports.add("memory", memory);
    module
}

#[test]
fn runtime_functions_one_by_one() {
    let mut module = base_module();
    let table = module.tables.add_local(0, Some(65535), ValType::Externref);
    let links = module.memories.add_local(false, 2, None);
    let head = module.globals.add_local(
        ValType::I32,
        true,
        walrus::InitExpr::Value(Value::I32(65535)),
    );
    let store = SlotStore { table, links, head };
    let get = add_get(&mut module, store);
    let free = add_free(&mut module, store);
    let alloc = add_alloc(&mut module, store);
    assert_eq!(signature(&module, get), (vec![ValType::I32], vec![ValType::Externref]));
    assert_eq!(signature(&module, free), (vec![ValType::I32], vec![]));
    assert_eq!(signature(&module, alloc), (vec![ValType::Externref], vec![ValType::I32]));
    module.exports.add("get", get);
    module.exports.add("free", free);
    module.exports.add("alloc", alloc);
    let bytes = module.emit_wasm();
    Module::from_buffer(&bytes).expect("valid");
}

#[test]
fn single_export_and_import_substitution() {
    let mut module = base_module();
    let f = {
        let mut b = FunctionBuilder::new(&mut module.types, &[ValType::I32], &[]);
        let p = module.locals.add(ValType::I32);
        b.func_body().local_get(p).drop();
        b.finish(vec![p], &mut module.funcs)
    };
    let export = module.exports.add("f", f);
    let ty = module.types.add(&[], &[ValType::I32]);
    let (imported, import) = module.add_import_func("host", "g", ty);
    let runtime = add_runtime(&mut module).unwrap();
    let args = godot_wasm_bindgen::decode::FunctionArgs {
        params: vec![ArgType::GodotValue],
        results: vec![],
    };
    let adapter =
        substitute_export(&mut module, export, f, "f".to_string(), &args, &runtime).unwrap();
    assert!(matches!(module.exports.get(export).item, ExportItem::Function(g) if g == adapter));
    assert_eq!(signature(&module, adapter), (vec![ValType::Externref], vec![]));
    let args = godot_wasm_bindgen::decode::FunctionArgs {
        params: vec![],
        results: vec![ArgType::GodotValue],
    };
    let adapter = substitute_import(&mut module, import, imported, &args, &runtime).unwrap();
    assert_eq!(signature(&module, adapter), (vec![], vec![ValType::I32]));
    let host = match module.imports.get(import).kind {
        ImportKind::Function(h) => h,
        _ => panic!("not a function"),
    };
    assert_ne!(host, imported);
    assert_eq!(signature(&module, host), (vec![], vec![ValType::Externref]));
    assert!(module.funcs.iter().any(|x| x.id() == imported));
}

#[test]
fn installing_adapters_one_by_one() {
    let mut module = base_module();
    let runtime = add_runtime(&mut module).unwrap();
    let a = install_standard(
        &mut module,
        &"thing.do".to_string(),
        &"space".to_string(),
        &vec![ValType::Externref, ValType::I64],
        &vec![ValType::I32],
        &runtime,
    );
    assert_eq!(signature(&module, a), (vec![ValType::I32, ValType::I64], vec![ValType::I32]));
    assert_eq!(module.funcs.get(a).name.as_deref(), Some("godot_wasm.thing.do"));
    assert!(module.imports.find("space", "thing.do").is_some());
    let b = install_plain(&mut module, &"delete".to_string(), true, &runtime);
    assert_eq!(signature(&module, b), (vec![ValType::I32], vec![]));
    let c = install_plain(&mut module, &"duplicate".to_string(), false, &runtime);
    assert_eq!(signature(&module, c), (vec![ValType::I32], vec![ValType::I32]));
    let d = install_batch(&mut module, &"string_array.build".to_string(), true, &runtime);
    assert_eq!(signature(&module, d), (vec![ValType::I32; 2], vec![ValType::I32]));
    let e = install_batch(&mut module, &"string_array.get_many".to_string(), false, &runtime);
    assert_eq!(signature(&module, e), (vec![ValType::I32; 4], vec![ValType::I32]));
    assert_eq!(module.elements.get(runtime.declare_funcs).members.len(), 2);
    declare(&mut module, a, &runtime);
    assert_eq!(module.elements.get(runtime.declare_funcs).members[2], Some(a));
    let entry = Entry { name: "duplicate".to_string(), adapter: Adapter::Duplicate };
    let f = install(&mut module, &entry, &runtime);
    assert_eq!(module.funcs.get(f).name.as_deref(), Some("godot_wasm.duplicate"));
    for x in [a, b, c, d, e, f] {
        module.exports.add(&format!("x{:?}", x), x);
    }
    let bytes = module.emit_wasm();
    Module::from_buffer(&bytes).expect("valid");
}

#[test]
fn replacing_one_import() {
    let mut module = base_module();
    let runtime = add_runtime(&mut module).unwrap();
    let ty = module.types.add(&[ValType::I32], &[ValType::I32]);
    let (old, _) = module.add_import_func("godot_wasm", "array.len", ty);
    let (other, _) = module.add_import_func("elsewhere", "array.len", ty);
    let mut map = FuncMap::new();
    let entry = object_entry("array.len", vec![ValType::Externref], vec![ValType::I32]);
    replace_import(&mut module, &mut map, &entry, &runtime);
    assert_eq!(map.len(), 1);
    let adapter = map.get(old).unwrap();
    assert_eq!(signature(&module, adapter), (vec![ValType::I32], vec![ValType::I32]));
    assert!(module.imports.find("godot_wasm", "array.len").is_none());
    assert!(module.imports.find("godot_object_v2", "array.len").is_some());
    assert!(module.imports.find("elsewhere", "array.len").is_some());
    assert_eq!(map.get(other), None);
    replace_import(&mut module, &mut map, &entry, &runtime);
    assert_eq!(map.len(), 1);
}

#[test]
fn relinking_in_steps() {
    let mut module = base_module();
    let ty = module.types.add(&[], &[]);
    let (old, _) = module.add_import_func("m", "old", ty);
    let new = {
        let b = FunctionBuilder::new(&mut module.types, &[], &[]);
        b.finish(vec![], &mut module.funcs)
    };
    let user = {
        let mut b = FunctionBuilder::new(&mut module.types, &[], &[]);
        b.func_body().call(old).if_else(
            None,
            |t| {
                t.call(old);
            },
            |_| {},
        );
        b.finish(vec![], &mut module.funcs)
    };
    let second = {
        let mut b = FunctionBuilder::new(&mut module.types, &[], &[]);
        b.func_body().call(old);
        b.finish(vec![], &mut module.funcs)
    };
    let element = module.elements.add(walrus::ElementKind::Passive, ValType::Funcref, vec![Some(old)]);
    let global = module.globals.add_local(ValType::Funcref, false, walrus::InitExpr::RefFunc(old));
    let mut map = FuncMap::new();
    map.insert(old, new);
    let calls = |module: &Module, f: FunctionId| -> Vec<FunctionId> {
        let local = module.funcs.get(f).kind.unwrap_local();
        let mut found = Vec::new();
        let mut stack = vec![local.entry_block()];
        while let Some(seq) = stack.pop() {
            for (instr, _) in &local.block(seq).instrs {
                match instr {
                    Instr::Call(c) => found.push(c.func),
                    Instr::IfElse(i) => {
                        stack.push(i.alternative);
                        stack.push(i.consequent);
                    }
                    _ => {}
                }
            }
        }
        found
    };
    relink_body(&mut module, user, &map);
    assert_eq!(calls(&module, user), vec![new, new]);
    assert_eq!(calls(&module, second), vec![old]);
    relink_calls(&mut module, &map);
    assert_eq!(calls(&module, second), vec![new]);
    assert_eq!(module.elements.get(element).members, vec![Some(old)]);
    relink_elements(&mut module, &map);
    assert_eq!(module.elements.get(element).members, vec![Some(new)]);
    relink_globals(&mut module, &map);
    assert!(matches!(
        module.globals.get(global).kind,
        walrus::GlobalKind::Local(walrus::InitExpr::RefFunc(f)) if f == new
    ));
    assert!(module.funcs.iter().any(|f| f.id() == old));
    delete_keys(&mut module, &map);
    assert!(!module.funcs.iter().any(|f| f.id() == old));
    assert!(module.funcs.iter().any(|f| f.id() == new));
}
