//! The symbol table that a module carries in its metadata section, and the
//! list of target features beside it.

pub mod parser;
pub mod roundtrip;

use vstd::prelude::*;
use vstd::string::StringSliceAdditionalSpecFns;
use vstd::utf8::encode_utf8;

use crate::error::DecodeError;
use crate::util::{append, tagging};
use crate::varint::{encoding, write_unsigned};

verus! {

/// The name of the custom section that holds the symbol table.
pub const GODOT_WASM_BINDGEN_NAME: &'static str = "__godot_wasm_bindgen_data";

/// The name of the custom section that holds the target features.
pub const TARGET_FEATURES_NAME: &'static str = "target_features";

/// The kind of one parameter or result of a bound function.
#[derive(Debug, Clone, Copy, PartialEq, Eq, Structural)]
pub enum ArgType {
    U8,
    I8,
    U16,
    I16,
    U32,
    I32,
    U64,
    I64,
    F32,
    F64,
    /// An opaque, reference-counted value of the host.
    GodotValue,
}

/// The parameter and result kinds of a bound function, in order.
#[derive(Debug, Clone, PartialEq, Eq)]
pub struct FunctionArgs {
    pub params: Vec<ArgType>,
    pub results: Vec<ArgType>,
}

/// A function that the module exports to the host.
#[derive(Debug, Clone, PartialEq, Eq)]
pub struct ExportFunction {
    pub name: String,
    pub args: FunctionArgs,
}

/// A function that the module imports from the host.
#[derive(Debug, Clone, PartialEq, Eq)]
pub struct ImportFunction {
    pub module: String,
    pub name: String,
    pub args: FunctionArgs,
}

/// What a symbol describes.
#[derive(Debug, Clone, PartialEq, Eq)]
pub enum SymbolType {
    ExportFunction(ExportFunction),
    ImportFunction(ImportFunction),
}

/// One record of the symbol table.
#[derive(Debug, Clone, PartialEq, Eq)]
pub struct Symbol {
    pub version: [u8; 4],
    pub inner: SymbolType,
}

/// The symbol table, in the order of its records.
#[derive(Debug, Clone, PartialEq, Eq)]
pub struct GodotWasmBindgenData {
    pub symbols: Vec<Symbol>,
}

/// One target feature and whether it is switched on.
#[derive(Debug, Clone, PartialEq, Eq)]
pub struct Feature {
    pub enabled: bool,
    pub name: String,
}

/// The target features of a module, in the order of their records.
#[derive(Debug, Clone, PartialEq, Eq)]
pub struct TargetFeatures {
    pub features: Vec<Feature>,
}

/// The mathematical value of a [`FunctionArgs`].
pub struct FunctionArgsView {
    pub params: Seq<ArgType>,
    pub results: Seq<ArgType>,
}

/// The mathematical value of an [`ExportFunction`].
pub struct ExportFunctionView {
    pub name: Seq<char>,
    pub args: FunctionArgsView,
}

/// The mathematical value of an [`ImportFunction`].
pub struct ImportFunctionView {
    pub module: Seq<char>,
    pub name: Seq<char>,
    pub args: FunctionArgsView,
}

/// The mathematical value of a [`SymbolType`].
pub enum SymbolTypeView {
    ExportFunction(ExportFunctionView),
    ImportFunction(ImportFunctionView),
}

/// The mathematical value of a [`Symbol`].
pub struct SymbolView {
    pub version: Seq<u8>,
    pub inner: SymbolTypeView,
}

/// The mathematical value of a [`Feature`].
pub struct FeatureView {
    pub enabled: bool,
    pub name: Seq<char>,
}

impl View for FunctionArgs {
    type V = FunctionArgsView;

    open spec fn view(&self) -> FunctionArgsView {
        FunctionArgsView { params: self.params@, results: self.results@ }
    }
}

impl View for ExportFunction {
    type V = ExportFunctionView;

    open spec fn view(&self) -> ExportFunctionView {
        ExportFunctionView { name: self.name@, args: self.args@ }
    }
}

impl View for ImportFunction {
    type V = ImportFunctionView;

    open spec fn view(&self) -> ImportFunctionView {
        ImportFunctionView { module: self.module@, name: self.name@, args: self.args@ }
    }
}

impl View for SymbolType {
    type V = SymbolTypeView;

    open spec fn view(&self) -> SymbolTypeView {
        match self {
            SymbolType::ExportFunction(e) => SymbolTypeView::ExportFunction(e@),
            SymbolType::ImportFunction(i) => SymbolTypeView::ImportFunction(i@),
        }
    }
}

impl View for Symbol {
    type V = SymbolView;

    open spec fn view(&self) -> SymbolView {
        SymbolView { version: self.version@, inner: self.inner@ }
    }
}

impl View for GodotWasmBindgenData {
    type V = Seq<SymbolView>;

    open spec fn view(&self) -> Seq<SymbolView> {
        Seq::new(self.symbols@.len(), |i: int| self.symbols@[i]@)
    }
}

impl View for Feature {
    type V = FeatureView;

    open spec fn view(&self) -> FeatureView {
        FeatureView { enabled: self.enabled, name: self.name@ }
    }
}

impl View for TargetFeatures {
    type V = Seq<FeatureView>;

    open spec fn view(&self) -> Seq<FeatureView> {
        Seq::new(self.features@.len(), |i: int| self.features@[i]@)
    }
}

/// The version tag that every symbol starts with.
pub open spec fn version_tag() -> Seq<u8> {
    seq![1u8, 0u8, 0u8, 0u8]
}

/// The discriminant of an exported function.
pub const EXPORT_FUNCTION_TAG: u64 = 64;

/// The discriminant of an imported function.
pub const IMPORT_FUNCTION_TAG: u64 = 0;

/// The sign byte of a feature that is switched on: `+`.
pub const FEATURE_ENABLED: u8 = 43;

/// The sign byte of a feature that is switched off: `-`.
pub const FEATURE_DISABLED: u8 = 45;

/// The byte that stands for an argument kind.
pub open spec fn code_of(t: ArgType) -> u8 {
    match t {
        ArgType::U8 => 1,
        ArgType::I8 => 2,
        ArgType::U16 => 3,
        ArgType::I16 => 4,
        ArgType::U32 => 5,
        ArgType::I32 => 6,
        ArgType::U64 => 7,
        ArgType::I64 => 8,
        ArgType::F32 => 9,
        ArgType::F64 => 10,
        ArgType::GodotValue => 11,
    }
}

/// The argument kind that a byte stands for, if it stands for one.
pub open spec fn arg_type_of(code: u8) -> Option<ArgType> {
    if code == 1 {
        Some(ArgType::U8)
    } else if code == 2 {
        Some(ArgType::I8)
    } else if code == 3 {
        Some(ArgType::U16)
    } else if code == 4 {
        Some(ArgType::I16)
    } else if code == 5 {
        Some(ArgType::U32)
    } else if code == 6 {
        Some(ArgType::I32)
    } else if code == 7 {
        Some(ArgType::U64)
    } else if code == 8 {
        Some(ArgType::I64)
    } else if code == 9 {
        Some(ArgType::F32)
    } else if code == 10 {
        Some(ArgType::F64)
    } else if code == 11 {
        Some(ArgType::GodotValue)
    } else {
        None
    }
}

impl ArgType {
    /// The byte that stands for this kind in the metadata section.
    pub fn code(self) -> (c: u8)
        ensures
            c == code_of(self),
            arg_type_of(c) == Some(self),
    {
        match self {
            ArgType::U8 => 1,
            ArgType::I8 => 2,
            ArgType::U16 => 3,
            ArgType::I16 => 4,
            ArgType::U32 => 5,
            ArgType::I32 => 6,
            ArgType::U64 => 7,
            ArgType::I64 => 8,
            ArgType::F32 => 9,
            ArgType::F64 => 10,
            ArgType::GodotValue => 11,
        }
    }

    /// The kind that `code` stands for: one for each of `1..=11`, none for
    /// any other byte.
    pub fn from_code(code: u8) -> (t: Option<ArgType>)
        ensures
            t == arg_type_of(code),
            t is Some <==> 1 <= code <= 11,
    {
        match code {
            1 => Some(ArgType::U8),
            2 => Some(ArgType::I8),
            3 => Some(ArgType::U16),
            4 => Some(ArgType::I16),
            5 => Some(ArgType::U32),
            6 => Some(ArgType::I32),
            7 => Some(ArgType::U64),
            8 => Some(ArgType::I64),
            9 => Some(ArgType::F32),
            10 => Some(ArgType::F64),
            11 => Some(ArgType::GodotValue),
            _ => None,
        }
    }
}

/// The bytes that stand for a list of argument kinds, one each.
pub open spec fn arg_codes(ts: Seq<ArgType>) -> Seq<u8> {
    Seq::new(ts.len(), |i: int| code_of(ts[i]))
}

/// The bytes of a function's argument lists: the parameters behind their
/// count, then the results behind theirs.
pub open spec fn function_args_bytes(a: FunctionArgsView) -> Seq<u8> {
    tagging(arg_codes(a.params)) + tagging(arg_codes(a.results))
}

/// The bytes of a name: its UTF-8 form behind its length.
pub open spec fn name_bytes(n: Seq<char>) -> Seq<u8> {
    tagging(encode_utf8(n))
}

/// The bytes of a symbol's block: the discriminant, then the body.
pub open spec fn symbol_type_bytes(t: SymbolTypeView) -> Seq<u8> {
    match t {
        SymbolTypeView::ExportFunction(e) => encoding(EXPORT_FUNCTION_TAG as nat) + name_bytes(
            e.name,
        ) + function_args_bytes(e.args),
        SymbolTypeView::ImportFunction(i) => encoding(IMPORT_FUNCTION_TAG as nat) + name_bytes(
            i.module,
        ) + name_bytes(i.name) + function_args_bytes(i.args),
    }
}

/// The bytes of a symbol: its version, then its block behind the block's length.
pub open spec fn symbol_bytes(s: SymbolView) -> Seq<u8> {
    s.version + tagging(symbol_type_bytes(s.inner))
}

/// The bytes of a symbol table: those of its symbols, in order.
pub open spec fn data_bytes(ss: Seq<SymbolView>) -> Seq<u8>
    decreases ss.len(),
{
    if ss.len() == 0 {
        Seq::empty()
    } else {
        data_bytes(ss.drop_last()) + symbol_bytes(ss.last())
    }
}

/// The bytes of a feature: its sign byte, then its name.
pub open spec fn feature_bytes(f: FeatureView) -> Seq<u8> {
    seq![if f.enabled { FEATURE_ENABLED } else { FEATURE_DISABLED }] + name_bytes(f.name)
}

/// The bytes of a list of features, in order.
pub open spec fn features_bytes(fs: Seq<FeatureView>) -> Seq<u8>
    decreases fs.len(),
{
    if fs.len() == 0 {
        Seq::empty()
    } else {
        features_bytes(fs.drop_last()) + feature_bytes(fs.last())
    }
}

/// The bytes of a feature section: the number of features, then the features.
pub open spec fn target_features_bytes(fs: Seq<FeatureView>) -> Seq<u8> {
    encoding(fs.len()) + features_bytes(fs)
}

/// Appends a name to `buf`: its length, then its bytes.
pub fn write_name(buf: &mut Vec<u8>, name: &str)
    ensures
        final(buf)@ == old(buf)@ + name_bytes(name@),
{
    let bytes = name.as_bytes();
    write_unsigned(buf, bytes.len() as u64);
    append(buf, bytes);
    assert(buf@ =~= old(buf)@ + name_bytes(name@));
}

/// Appends a list of argument kinds to `buf`: its length, then one byte each.
pub fn write_arg_types(buf: &mut Vec<u8>, types: &Vec<ArgType>)
    ensures
        final(buf)@ == old(buf)@ + tagging(arg_codes(types@)),
{
    let n = types.len();
    write_unsigned(buf, n as u64);
    let mut i: usize = 0;
    while i < n
        invariant
            i <= n,
            n == types@.len(),
            buf@ == old(buf)@ + encoding(n as nat) + arg_codes(types@.subrange(0, i as int)),
        decreases n - i,
    {
        buf.push(types[i].code());
        i += 1;
        assert(buf@ =~= old(buf)@ + encoding(n as nat) + arg_codes(
            types@.subrange(0, i as int),
        ));
    }
    assert(types@.subrange(0, n as int) =~= types@);
    assert(buf@ =~= old(buf)@ + tagging(arg_codes(types@)));
}

/// Appends the parameter and result lists of a function to `buf`.
pub fn write_function_args(buf: &mut Vec<u8>, args: &FunctionArgs)
    ensures
        final(buf)@ == old(buf)@ + function_args_bytes(args@),
{
    write_arg_types(buf, &args.params);
    write_arg_types(buf, &args.results);
    assert(buf@ =~= old(buf)@ + function_args_bytes(args@));
}

impl SymbolType {
    /// The bytes of this symbol's block.
    pub fn data(&self) -> (bytes: Vec<u8>)
        ensures
            bytes@ == symbol_type_bytes(self@),
    {
        let mut temp: Vec<u8> = Vec::new();
        match self {
            SymbolType::ExportFunction(e) => {
                write_unsigned(&mut temp, EXPORT_FUNCTION_TAG);
                write_name(&mut temp, e.name.as_str());
                write_function_args(&mut temp, &e.args);
            },
            SymbolType::ImportFunction(i) => {
                write_unsigned(&mut temp, IMPORT_FUNCTION_TAG);
                write_name(&mut temp, i.module.as_str());
                write_name(&mut temp, i.name.as_str());
                write_function_args(&mut temp, &i.args);
            },
        }
        assert(temp@ =~= symbol_type_bytes(self@));
        temp
    }
}

impl GodotWasmBindgenData {
    /// The name of the section that holds a symbol table.
    pub fn name(&self) -> (n: &'static str)
        ensures
            n@ == GODOT_WASM_BINDGEN_NAME@,
    {
        GODOT_WASM_BINDGEN_NAME
    }

    /// The section's bytes: each symbol's version, the length of its block,
    /// and the block.
    pub fn data(&self) -> (bytes: Vec<u8>)
        ensures
            bytes@ == data_bytes(self@),
    {
        let mut ret: Vec<u8> = Vec::new();
        let n = self.symbols.len();
        let mut i: usize = 0;
        while i < n
            invariant
                i <= n,
                n == self.symbols@.len(),
                ret@ == data_bytes(self@.subrange(0, i as int)),
            decreases n - i,
        {
            let s = &self.symbols[i];
            let ghost before = ret@;
            let temp = s.inner.data();
            append(&mut ret, s.version.as_slice());
            write_unsigned(&mut ret, temp.len() as u64);
            append(&mut ret, temp.as_slice());
            i += 1;
            proof {
                let upto = self@.subrange(0, i as int);
                assert(upto.drop_last() =~= self@.subrange(0, i - 1));
                assert(upto.last() == s@);
                assert(ret@ =~= before + symbol_bytes(s@));
            }
        }
        assert(self@.subrange(0, n as int) =~= self@);
        ret
    }

    /// Decodes a whole section.
    pub fn try_from(bytes: &[u8]) -> (r: Result<GodotWasmBindgenData, DecodeError>)
        ensures
            match r {
                Ok(table) => parser::bindgen_data(bytes@) == Ok::<_, DecodeError>(
                    (Seq::<u8>::empty(), table@),
                ),
                Err(e) => parser::bindgen_data(bytes@) == Err::<(Seq<u8>, Seq<SymbolView>), _>(e),
            },
    {
        match parser::parse_bindgen_data(bytes) {
            Ok((rest, table)) => {
                assert(rest@ =~= Seq::<u8>::empty());
                Ok(table)
            },
            Err(e) => Err(e),
        }
    }
}

impl Default for GodotWasmBindgenData {
    /// The table without symbols.
    fn default() -> (table: GodotWasmBindgenData)
        ensures
            table@ == Seq::<SymbolView>::empty(),
    {
        let table = GodotWasmBindgenData { symbols: Vec::new() };
        assert(table@ =~= Seq::<SymbolView>::empty());
        table
    }
}

impl TargetFeatures {
    /// The name of the section that holds the target features.
    pub fn name(&self) -> (n: &'static str)
        ensures
            n@ == TARGET_FEATURES_NAME@,
    {
        TARGET_FEATURES_NAME
    }

    /// The section's bytes: the number of features, then each feature's sign
    /// byte and name.
    pub fn data(&self) -> (bytes: Vec<u8>)
        ensures
            bytes@ == target_features_bytes(self@),
    {
        let mut ret: Vec<u8> = Vec::new();
        let n = self.features.len();
        write_unsigned(&mut ret, n as u64);
        let mut i: usize = 0;
        while i < n
            invariant
                i <= n,
                n == self.features@.len(),
                ret@ == encoding(n as nat) + features_bytes(self@.subrange(0, i as int)),
            decreases n - i,
        {
            let f = &self.features[i];
            let ghost before = ret@;
            ret.push(if f.enabled { FEATURE_ENABLED } else { FEATURE_DISABLED });
            write_name(&mut ret, f.name.as_str());
            i += 1;
            proof {
                let upto = self@.subrange(0, i as int);
                assert(upto.drop_last() =~= self@.subrange(0, i - 1));
                assert(upto.last() == f@);
                assert(ret@ =~= before + feature_bytes(f@));
            }
        }
        assert(self@.subrange(0, n as int) =~= self@);
        ret
    }

    /// Decodes a whole section.
    pub fn try_from(bytes: &[u8]) -> (r: Result<TargetFeatures, DecodeError>)
        ensures
            match r {
                Ok(list) => parser::target_features(bytes@) == Ok::<_, DecodeError>(
                    (Seq::<u8>::empty(), list@),
                ),
                Err(e) => parser::target_features(bytes@) == Err::<
                    (Seq<u8>, Seq<FeatureView>),
                    _,
                >(e),
            },
    {
        match parser::parse_target_features(bytes) {
            Ok((rest, list)) => {
                assert(rest@ =~= Seq::<u8>::empty());
                Ok(list)
            },
            Err(e) => Err(e),
        }
    }
}

} // verus!
