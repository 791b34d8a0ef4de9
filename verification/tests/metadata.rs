use godot_wasm_bindgen::decode::parser::{
    parse_arg_types, parse_bindgen_data, parse_export_function, parse_feature,
    parse_function_args, parse_import_function, parse_name, parse_symbol, parse_symbol_type,
    parse_target_features,
};
use godot_wasm_bindgen::decode::{
    write_arg_types, write_function_args, write_name, ArgType, ExportFunction, Feature,
    FunctionArgs, GodotWasmBindgenData, ImportFunction, Symbol, SymbolType, TargetFeatures,
};
use godot_wasm_bindgen::error::DecodeError;

fn export(name: &str, params: Vec<ArgType>, results: Vec<ArgType>) -> Symbol {
    Symbol {
        version: [1, 0, 0, 0],
        inner: SymbolType::ExportFunction(ExportFunction {
            name: name.to_string(),
            args: FunctionArgs { params, results },
        }),
    }
}

fn import(module: &str, name: &str, params: Vec<ArgType>, results: Vec<ArgType>) -> Symbol {
    Symbol {
        version: [1, 0, 0, 0],
        inner: SymbolType::ImportFunction(ImportFunction {
            module: module.to_string(),
            name: name.to_string(),
            args: FunctionArgs { params, results },
        }),
    }
}

const ALL_TYPES: [ArgType; 11] = [
    ArgType::U8,
    ArgType::I8,
    ArgType::U16,
    ArgType::I16,
    ArgType::U32,
    ArgType::I32,
    ArgType::U64,
    ArgType::I64,
    ArgType::F32,
    ArgType::F64,
    ArgType::GodotValue,
];

#[test]
fn arg_type_codes_are_one_to_eleven() {
    for (i, t) in ALL_TYPES.iter().enumerate() {
        assert_eq!(t.code(), (i + 1) as u8);
        assert_eq!(ArgType::from_code((i + 1) as u8), Some(*t));
    }
}

#[test]
fn arg_type_codes_zero_and_twelve_are_rejected() {
    assert_eq!(ArgType::from_code(0), None);
    assert_eq!(ArgType::from_code(12), None);
    assert_eq!(ArgType::from_code(255), None);
    assert_eq!(parse_arg_types(&[0]), Err(DecodeError::InvalidArgType(0)));
    assert_eq!(parse_arg_types(&[12]), Err(DecodeError::InvalidArgType(12)));
    assert_eq!(parse_arg_types(&[1, 2, 12, 3]), Err(DecodeError::InvalidArgType(12)));
}

#[test]
fn every_arg_type_parses_to_its_variant() {
    let codes: Vec<u8> = (1..=11).collect();
    assert_eq!(parse_arg_types(&codes), Ok(ALL_TYPES.to_vec()));
    assert_eq!(parse_arg_types(&[]), Ok(vec![]));
}

#[test]
fn function_args_are_two_prefixed_lists() {
    let input = [2u8, 11, 6, 1, 11, 0xaa];
    let (rest, args) = parse_function_args(&input).unwrap();
    assert_eq!(args.params, vec![ArgType::GodotValue, ArgType::I32]);
    assert_eq!(args.results, vec![ArgType::GodotValue]);
    assert_eq!(rest, &[0xaau8][..]);
}

#[test]
fn function_args_with_bad_code_are_rejected() {
    assert_eq!(parse_function_args(&[1, 0, 0]), Err(DecodeError::InvalidArgType(0)));
    assert_eq!(parse_function_args(&[0, 1, 12]), Err(DecodeError::InvalidArgType(12)));
    assert_eq!(parse_function_args(&[2, 1]), Err(DecodeError::UnexpectedEof));
    assert_eq!(parse_function_args(&[0]), Err(DecodeError::UnexpectedEof));
}

#[test]
fn names_are_prefixed_utf8() {
    let input = [5u8, b'h', b'e', b'l', b'l', b'o', 1];
    let (rest, name) = parse_name(&input).unwrap();
    assert_eq!(name, "hello");
    assert_eq!(rest, &[1u8][..]);
    let snowman = [3u8, 0xe2, 0x98, 0x83];
    assert_eq!(parse_name(&snowman).unwrap().1, "\u{2603}");
}

#[test]
fn names_that_are_not_utf8_are_rejected() {
    assert_eq!(parse_name(&[2, 0xff, 0xfe]), Err(DecodeError::InvalidUtf8));
    assert_eq!(parse_name(&[1, 0x80]), Err(DecodeError::InvalidUtf8));
    assert_eq!(parse_name(&[4, b'a']), Err(DecodeError::UnexpectedEof));
}

#[test]
fn write_name_and_lists() {
    let mut buf = vec![7u8];
    write_name(&mut buf, "ab");
    assert_eq!(buf, vec![7u8, 2, b'a', b'b']);
    let mut buf = Vec::new();
    write_arg_types(&mut buf, &vec![ArgType::U8, ArgType::GodotValue]);
    assert_eq!(buf, vec![2u8, 1, 11]);
    let mut buf = Vec::new();
    write_function_args(
        &mut buf,
        &FunctionArgs { params: vec![ArgType::I64], results: vec![] },
    );
    assert_eq!(buf, vec![1u8, 8, 0]);
}

#[test]
fn export_function_body() {
    let input = [1u8, b'f', 1, 11, 1, 11];
    let (rest, f) = parse_export_function(&input).unwrap();
    assert!(rest.is_empty());
    assert_eq!(f.name, "f");
    assert_eq!(f.args.params, vec![ArgType::GodotValue]);
    assert_eq!(f.args.results, vec![ArgType::GodotValue]);
}

#[test]
fn import_function_body() {
    let input = [4u8, b'h', b'o', b's', b't', 2, b'g', b'o', 0, 1, 6];
    let (rest, f) = parse_import_function(&input).unwrap();
    assert!(rest.is_empty());
    assert_eq!(f.module, "host");
    assert_eq!(f.name, "go");
    assert_eq!(f.args.params, vec![]);
    assert_eq!(f.args.results, vec![ArgType::I32]);
}

#[test]
fn symbol_type_by_discriminant() {
    let exported = [64u8, 1, b'f', 0, 0];
    assert!(matches!(
        parse_symbol_type(&exported).unwrap().1,
        SymbolType::ExportFunction(_)
    ));
    let imported = [0u8, 1, b'm', 1, b'f', 0, 0];
    assert!(matches!(
        parse_symbol_type(&imported).unwrap().1,
        SymbolType::ImportFunction(_)
    ));
}

#[test]
fn unknown_discriminant_is_rejected() {
    assert_eq!(
        parse_symbol_type(&[1, 1, b'f', 0, 0]),
        Err(DecodeError::UnrecognizedSymbolKind(1))
    );
    assert_eq!(
        parse_symbol_type(&[65, 1, b'f', 0, 0]),
        Err(DecodeError::UnrecognizedSymbolKind(65))
    );
    // A longer encoding of a recognised discriminant is still recognised.
    assert!(parse_symbol_type(&[0xc0, 0x00, 1, b'f', 0, 0]).is_ok());
}

#[test]
fn symbol_is_version_and_block() {
    let input = [1u8, 0, 0, 0, 5, 64, 1, b'f', 0, 0, 0xee];
    let (rest, s) = parse_symbol(&input).unwrap();
    assert_eq!(rest, &[0xeeu8][..]);
    assert_eq!(s, export("f", vec![], vec![]));
}

#[test]
fn unrecognized_version_is_rejected() {
    let input = [2u8, 0, 0, 0, 5, 64, 1, b'f', 0, 0];
    assert_eq!(parse_symbol(&input), Err(DecodeError::UnrecognizedVersion));
    let input = [1u8, 0, 0, 1, 5, 64, 1, b'f', 0, 0];
    assert_eq!(parse_symbol(&input), Err(DecodeError::UnrecognizedVersion));
    assert_eq!(parse_symbol(&[1, 0, 0]), Err(DecodeError::UnexpectedEof));
}

#[test]
fn bytes_left_in_a_symbol_block_are_rejected() {
    let input = [1u8, 0, 0, 0, 6, 64, 1, b'f', 0, 0, 0];
    assert_eq!(parse_symbol(&input), Err(DecodeError::TrailingBytes));
}

#[test]
fn truncated_symbol_block_is_unexpected_eof() {
    let input = [1u8, 0, 0, 0, 9, 64, 1, b'f', 0, 0];
    assert_eq!(parse_symbol(&input), Err(DecodeError::UnexpectedEof));
}

#[test]
fn empty_section_is_an_empty_table() {
    let (rest, table) = parse_bindgen_data(&[]).unwrap();
    assert!(rest.is_empty());
    assert!(table.symbols.is_empty());
    assert_eq!(GodotWasmBindgenData::default().data(), Vec::<u8>::new());
    assert!(GodotWasmBindgenData::default().symbols.is_empty());
}

#[test]
fn garbage_after_the_last_symbol_is_rejected() {
    let mut bytes = GodotWasmBindgenData { symbols: vec![export("f", vec![], vec![])] }.data();
    bytes.push(7);
    assert_eq!(
        GodotWasmBindgenData::try_from(&bytes[..]),
        Err(DecodeError::UnexpectedEof)
    );
    bytes.extend_from_slice(&[0, 0, 0, 0]);
    assert_eq!(
        GodotWasmBindgenData::try_from(&bytes[..]),
        Err(DecodeError::UnrecognizedVersion)
    );
}

#[test]
fn export_symbol_bytes_are_exact() {
    let table = GodotWasmBindgenData {
        symbols: vec![export("f", vec![ArgType::GodotValue], vec![ArgType::I32])],
    };
    assert_eq!(
        table.data(),
        vec![1u8, 0, 0, 0, 7, 64, 1, b'f', 1, 11, 1, 6]
    );
    assert_eq!(table.name(), "__godot_wasm_bindgen_data");
}

#[test]
fn import_symbol_bytes_are_exact() {
    let table = GodotWasmBindgenData {
        symbols: vec![import("host", "g", vec![ArgType::U8], vec![])],
    };
    assert_eq!(
        table.data(),
        vec![1u8, 0, 0, 0, 11, 0, 4, b'h', b'o', b's', b't', 1, b'g', 1, 1, 0]
    );
}

#[test]
fn symbol_table_round_trip() {
    let table = GodotWasmBindgenData {
        symbols: vec![
            export("first", vec![ArgType::GodotValue, ArgType::U8], vec![ArgType::GodotValue]),
            import("host", "second", ALL_TYPES.to_vec(), vec![ArgType::F64, ArgType::I16]),
            export("", vec![], vec![]),
            import("", "", vec![], vec![ArgType::GodotValue]),
            export("first", vec![ArgType::I64], vec![]),
            export("sn\u{2603}w", vec![ArgType::F32], vec![ArgType::F32]),
        ],
    };
    let bytes = table.data();
    assert_eq!(GodotWasmBindgenData::try_from(&bytes[..]), Ok(table.clone()));
    let (rest, parsed) = parse_bindgen_data(&bytes).unwrap();
    assert!(rest.is_empty());
    assert_eq!(parsed, table);
}

#[test]
fn long_name_round_trip() {
    let name: String = std::iter::repeat('x').take(300).collect();
    let table = GodotWasmBindgenData {
        symbols: vec![export(&name, vec![ArgType::U32; 200], vec![])],
    };
    let bytes = table.data();
    assert_eq!(GodotWasmBindgenData::try_from(&bytes[..]), Ok(table));
}

#[test]
fn feature_with_plus_and_minus() {
    let (rest, f) = parse_feature(&[43, 2, b'a', b'b', 9]).unwrap();
    assert_eq!(f, Feature { enabled: true, name: "ab".to_string() });
    assert_eq!(rest, &[9u8][..]);
    let (_, f) = parse_feature(&[45, 1, b'z']).unwrap();
    assert_eq!(f, Feature { enabled: false, name: "z".to_string() });
}

#[test]
fn feature_with_sign_byte_zero_is_rejected() {
    assert_eq!(
        parse_feature(&[0x00, 1, b'a']),
        Err(DecodeError::UnknownFeatureFlag(0))
    );
    assert_eq!(
        TargetFeatures::try_from(&[1u8, 0x00, 1, b'a'][..]),
        Err(DecodeError::UnknownFeatureFlag(0))
    );
    assert_eq!(
        parse_feature(&[b'=', 1, b'a']),
        Err(DecodeError::UnknownFeatureFlag(b'='))
    );
    assert_eq!(parse_feature(&[]), Err(DecodeError::UnexpectedEof));
}

#[test]
fn target_features_bytes_are_exact() {
    let list = TargetFeatures {
        features: vec![
            Feature { enabled: true, name: "simd".to_string() },
            Feature { enabled: false, name: "x".to_string() },
        ],
    };
    assert_eq!(
        list.data(),
        vec![2u8, 43, 4, b's', b'i', b'm', b'd', 45, 1, b'x']
    );
    assert_eq!(list.name(), "target_features");
}

#[test]
fn target_features_round_trip() {
    let list = TargetFeatures {
        features: vec![
            Feature { enabled: true, name: "reference-types".to_string() },
            Feature { enabled: false, name: "".to_string() },
            Feature { enabled: true, name: "multi-memory".to_string() },
        ],
    };
    let bytes = list.data();
    assert_eq!(TargetFeatures::try_from(&bytes[..]), Ok(list));
    assert_eq!(
        TargetFeatures::try_from(&[0u8][..]),
        Ok(TargetFeatures { features: vec![] })
    );
}

#[test]
fn target_features_count_must_match() {
    assert_eq!(
        parse_target_features(&[2, 43, 1, b'a']),
        Err(DecodeError::UnexpectedEof)
    );
    assert_eq!(
        parse_target_features(&[1, 43, 1, b'a', 45, 1, b'b']),
        Err(DecodeError::TrailingBytes)
    );
    assert_eq!(parse_target_features(&[]), Err(DecodeError::UnexpectedEof));
}
