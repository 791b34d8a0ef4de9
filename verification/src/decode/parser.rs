//! The grammar of the two metadata sections, and the decoders that follow it.
//!
//! Every decoder takes the bytes that are left and returns the bytes that
//! follow what it read, together with the value.

use vstd::prelude::*;
use vstd::slice::slice_subrange;
use vstd::string::StringSliceAdditionalSpecFns;
use vstd::utf8::{decode_utf8, encode_utf8_decode_utf8, valid_utf8};

use crate::decode::{
    arg_type_of, version_tag, ArgType, EXPORT_FUNCTION_TAG, ExportFunction, ExportFunctionView,
    FEATURE_DISABLED, FEATURE_ENABLED, Feature, FeatureView, FunctionArgs, FunctionArgsView,
    GodotWasmBindgenData, IMPORT_FUNCTION_TAG, ImportFunction, ImportFunctionView, Symbol,
    SymbolType, SymbolTypeView, SymbolView, TargetFeatures,
};
use crate::error::DecodeError;
use crate::util::{read_tagged, tagged};
use crate::varint::{decoding, leb128_unsigned, lemma_decoding_consumes};

verus! {

/// The view of a decoder's result: the bytes that are left, and the value's view.
pub open spec fn viewed_result<T: View>(r: Result<(&[u8], T), DecodeError>) -> Result<
    (Seq<u8>, T::V),
    DecodeError,
> {
    match r {
        Ok((rest, v)) => Ok((rest@, v@)),
        Err(e) => Err(e),
    }
}

/// A block in which every byte stands for an argument kind. The first byte
/// that stands for none is the block's error.
pub open spec fn arg_types(block: Seq<u8>) -> Result<Seq<ArgType>, DecodeError>
    decreases block.len(),
{
    if block.len() == 0 {
        Ok(Seq::empty())
    } else {
        match arg_type_of(block[0]) {
            None => Err(DecodeError::InvalidArgType(block[0])),
            Some(t) => match arg_types(block.drop_first()) {
                Err(e) => Err(e),
                Ok(ts) => Ok(seq![t] + ts),
            },
        }
    }
}

/// Two length-prefixed lists of argument kinds: parameters, then results.
pub open spec fn function_args(bytes: Seq<u8>) -> Result<(Seq<u8>, FunctionArgsView), DecodeError> {
    match tagged(bytes) {
        Err(e) => Err(e),
        Ok((rest, block)) => match arg_types(block) {
            Err(e) => Err(e),
            Ok(params) => match tagged(rest) {
                Err(e) => Err(e),
                Ok((rest, block)) => match arg_types(block) {
                    Err(e) => Err(e),
                    Ok(results) => Ok((rest, FunctionArgsView { params, results })),
                },
            },
        },
    }
}

/// A length-prefixed UTF-8 string.
pub open spec fn name(bytes: Seq<u8>) -> Result<(Seq<u8>, Seq<char>), DecodeError> {
    match tagged(bytes) {
        Err(e) => Err(e),
        Ok((rest, block)) => if valid_utf8(block) {
            Ok((rest, decode_utf8(block)))
        } else {
            Err(DecodeError::InvalidUtf8)
        },
    }
}

/// The body of an exported function: its name, then its argument lists.
pub open spec fn export_function(bytes: Seq<u8>) -> Result<
    (Seq<u8>, ExportFunctionView),
    DecodeError,
> {
    match name(bytes) {
        Err(e) => Err(e),
        Ok((rest, n)) => match function_args(rest) {
            Err(e) => Err(e),
            Ok((rest, args)) => Ok((rest, ExportFunctionView { name: n, args })),
        },
    }
}

/// The body of an imported function: its namespace, its name, then its
/// argument lists.
pub open spec fn import_function(bytes: Seq<u8>) -> Result<
    (Seq<u8>, ImportFunctionView),
    DecodeError,
> {
    match name(bytes) {
        Err(e) => Err(e),
        Ok((rest, module)) => match name(rest) {
            Err(e) => Err(e),
            Ok((rest, n)) => match function_args(rest) {
                Err(e) => Err(e),
                Ok((rest, args)) => Ok((rest, ImportFunctionView { module, name: n, args })),
            },
        },
    }
}

/// A discriminant, then the body that it announces.
pub open spec fn symbol_type(bytes: Seq<u8>) -> Result<(Seq<u8>, SymbolTypeView), DecodeError> {
    match decoding(bytes) {
        Err(e) => Err(e),
        Ok((rest, tag)) => if tag == EXPORT_FUNCTION_TAG {
            match export_function(rest) {
                Err(e) => Err(e),
                Ok((rest, f)) => Ok((rest, SymbolTypeView::ExportFunction(f))),
            }
        } else if tag == IMPORT_FUNCTION_TAG {
            match import_function(rest) {
                Err(e) => Err(e),
                Ok((rest, f)) => Ok((rest, SymbolTypeView::ImportFunction(f))),
            }
        } else {
            Err(DecodeError::UnrecognizedSymbolKind(tag))
        },
    }
}

/// The version tag, then a length-prefixed block that holds exactly one
/// discriminated body.
pub open spec fn symbol(bytes: Seq<u8>) -> Result<(Seq<u8>, SymbolView), DecodeError> {
    if bytes.len() < 4 {
        Err(DecodeError::UnexpectedEof)
    } else if bytes.subrange(0, 4) != version_tag() {
        Err(DecodeError::UnrecognizedVersion)
    } else {
        match tagged(bytes.subrange(4, bytes.len() as int)) {
            Err(e) => Err(e),
            Ok((rest, block)) => match symbol_type(block) {
                Err(e) => Err(e),
                Ok((left, inner)) => if left.len() != 0 {
                    Err(DecodeError::TrailingBytes)
                } else {
                    Ok((rest, SymbolView { version: version_tag(), inner }))
                },
            },
        }
    }
}

/// Symbols until the bytes are used up.
pub open spec fn bindgen_data(bytes: Seq<u8>) -> Result<(Seq<u8>, Seq<SymbolView>), DecodeError>
    decreases bytes.len(),
{
    if bytes.len() == 0 {
        Ok((bytes, Seq::empty()))
    } else {
        match symbol(bytes) {
            Err(e) => Err(e),
            Ok((rest, s)) => {
                if rest.len() < bytes.len() {
                    match bindgen_data(rest) {
                        Err(e) => Err(e),
                        Ok((rest, ss)) => Ok((rest, seq![s] + ss)),
                    }
                } else {
                    Err(DecodeError::UnexpectedEof)
                }
            },
        }
    }
}

/// A sign byte, then the feature's name.
pub open spec fn feature(bytes: Seq<u8>) -> Result<(Seq<u8>, FeatureView), DecodeError> {
    if bytes.len() == 0 {
        Err(DecodeError::UnexpectedEof)
    } else if bytes[0] != FEATURE_ENABLED && bytes[0] != FEATURE_DISABLED {
        Err(DecodeError::UnknownFeatureFlag(bytes[0]))
    } else {
        match name(bytes.drop_first()) {
            Err(e) => Err(e),
            Ok((rest, n)) => Ok((rest, FeatureView { enabled: bytes[0] == FEATURE_ENABLED, name: n })),
        }
    }
}

/// `count` features, one after the other.
pub open spec fn features(bytes: Seq<u8>, count: nat) -> Result<
    (Seq<u8>, Seq<FeatureView>),
    DecodeError,
>
    decreases count,
{
    if count == 0 {
        Ok((bytes, Seq::empty()))
    } else {
        match feature(bytes) {
            Err(e) => Err(e),
            Ok((rest, f)) => match features(rest, (count - 1) as nat) {
                Err(e) => Err(e),
                Ok((rest, fs)) => Ok((rest, seq![f] + fs)),
            },
        }
    }
}

/// A count, that many features, and nothing after them.
pub open spec fn target_features(bytes: Seq<u8>) -> Result<
    (Seq<u8>, Seq<FeatureView>),
    DecodeError,
> {
    match decoding(bytes) {
        Err(e) => Err(e),
        Ok((rest, count)) => match features(rest, count as nat) {
            Err(e) => Err(e),
            Ok((rest, fs)) => if rest.len() != 0 {
                Err(DecodeError::TrailingBytes)
            } else {
                Ok((rest, fs))
            },
        },
    }
}

/// Reading a block uses at least one byte.
pub proof fn lemma_tagged_consumes(bytes: Seq<u8>)
    requires
        tagged(bytes) is Ok,
    ensures
        tagged(bytes).unwrap().0.len() < bytes.len(),
{
    lemma_decoding_consumes(bytes);
}

/// A symbol uses at least five bytes, so the length test in [`bindgen_data`]
/// never fails.
pub proof fn lemma_symbol_consumes(bytes: Seq<u8>)
    requires
        symbol(bytes) is Ok,
    ensures
        symbol(bytes).unwrap().0.len() + 4 < bytes.len(),
{
    lemma_tagged_consumes(bytes.subrange(4, bytes.len() as int));
}

/// Checks that `bytes` is UTF-8 and hands it back as a string slice.
///
/// This is `core::str::from_utf8`. Its documentation is taken on trust: it
/// succeeds exactly on valid UTF-8, and the slice it returns has the bytes
/// that it was given.
#[verifier::external_body]
fn str_from_utf8(bytes: &[u8]) -> (r: Option<&str>)
    ensures
        r is Some <==> valid_utf8(bytes@),
        r matches Some(s) ==> s.spec_bytes() == bytes@,
{
    match core::str::from_utf8(bytes) {
        Ok(s) => Some(s),
        Err(_) => None,
    }
}

/// Reads a length-prefixed UTF-8 string.
pub fn parse_name(input: &[u8]) -> (r: Result<(&[u8], String), DecodeError>)
    ensures
        viewed_result(r) == name(input@),
{
    let (rest, block) = read_tagged(input)?;
    match str_from_utf8(block) {
        Some(s) => {
            proof {
                encode_utf8_decode_utf8(s@);
            }
            Ok((rest, s.to_owned()))
        },
        None => Err(DecodeError::InvalidUtf8),
    }
}

/// The result `r` of a tail, behind the kinds `acc` that were read before it.
pub open spec fn after_arg_types(acc: Seq<ArgType>, r: Result<Seq<ArgType>, DecodeError>) -> Result<
    Seq<ArgType>,
    DecodeError,
> {
    match r {
        Ok(ts) => Ok(acc + ts),
        Err(e) => Err(e),
    }
}

/// Reads a block of argument kinds, one byte each.
pub fn parse_arg_types(block: &[u8]) -> (r: Result<Vec<ArgType>, DecodeError>)
    ensures
        match r {
            Ok(v) => arg_types(block@) == Ok::<_, DecodeError>(v@),
            Err(e) => arg_types(block@) == Err::<Seq<ArgType>, _>(e),
        },
{
    let n = block.len();
    let mut acc: Vec<ArgType> = Vec::new();
    let mut i: usize = 0;
    assert(block@.subrange(0, n as int) =~= block@);
    assert(after_arg_types(acc@, arg_types(block@)) == arg_types(block@)) by {
        match arg_types(block@) {
            Ok(ts) => {
                assert(acc@ + ts =~= ts);
            },
            Err(_) => {},
        }
    }
    while i < n
        invariant
            i <= n,
            n == block@.len(),
            arg_types(block@) == after_arg_types(
                acc@,
                arg_types(block@.subrange(i as int, n as int)),
            ),
        decreases n - i,
    {
        let ghost tail = block@.subrange(i as int, n as int);
        let ghost before = acc@;
        assert(tail[0] == block@[i as int]);
        assert(tail.drop_first() =~= block@.subrange(i + 1, n as int));
        match ArgType::from_code(block[i]) {
            None => {
                return Err(DecodeError::InvalidArgType(block[i]));
            },
            Some(t) => {
                acc.push(t);
                proof {
                    match arg_types(tail.drop_first()) {
                        Ok(ts) => {
                            assert(before + (seq![t] + ts) =~= acc@ + ts);
                        },
                        Err(_) => {},
                    }
                }
            },
        }
        i += 1;
    }
    assert(acc@ + Seq::<ArgType>::empty() =~= acc@);
    Ok(acc)
}

/// Reads the parameter kinds and the result kinds of a function.
pub fn parse_function_args(input: &[u8]) -> (r: Result<(&[u8], FunctionArgs), DecodeError>)
    ensures
        viewed_result(r) == function_args(input@),
{
    let (rest, block) = read_tagged(input)?;
    let params = parse_arg_types(block)?;
    let (rest, block) = read_tagged(rest)?;
    let results = parse_arg_types(block)?;
    Ok((rest, FunctionArgs { params, results }))
}

/// Reads the body of an exported function.
pub fn parse_export_function(input: &[u8]) -> (r: Result<(&[u8], ExportFunction), DecodeError>)
    ensures
        viewed_result(r) == export_function(input@),
{
    let (rest, name) = parse_name(input)?;
    let (rest, args) = parse_function_args(rest)?;
    Ok((rest, ExportFunction { name, args }))
}

/// Reads the body of an imported function.
pub fn parse_import_function(input: &[u8]) -> (r: Result<(&[u8], ImportFunction), DecodeError>)
    ensures
        viewed_result(r) == import_function(input@),
{
    let (rest, module) = parse_name(input)?;
    let (rest, name) = parse_name(rest)?;
    let (rest, args) = parse_function_args(rest)?;
    Ok((rest, ImportFunction { module, name, args }))
}

/// Reads a discriminant and the body that it announces.
pub fn parse_symbol_type(input: &[u8]) -> (r: Result<(&[u8], SymbolType), DecodeError>)
    ensures
        viewed_result(r) == symbol_type(input@),
{
    let (rest, tag) = leb128_unsigned(input)?;
    if tag == EXPORT_FUNCTION_TAG {
        let (rest, f) = parse_export_function(rest)?;
        Ok((rest, SymbolType::ExportFunction(f)))
    } else if tag == IMPORT_FUNCTION_TAG {
        let (rest, f) = parse_import_function(rest)?;
        Ok((rest, SymbolType::ImportFunction(f)))
    } else {
        Err(DecodeError::UnrecognizedSymbolKind(tag))
    }
}

/// Reads one symbol: the version tag and the block behind it.
pub fn parse_symbol(input: &[u8]) -> (r: Result<(&[u8], Symbol), DecodeError>)
    ensures
        viewed_result(r) == symbol(input@),
{
    let len = input.len();
    if len < 4 {
        return Err(DecodeError::UnexpectedEof);
    }
    if input[0] != 1 || input[1] != 0 || input[2] != 0 || input[3] != 0 {
        assert(input@.subrange(0, 4)[0] == input@[0]);
        assert(input@.subrange(0, 4)[1] == input@[1]);
        assert(input@.subrange(0, 4)[2] == input@[2]);
        assert(input@.subrange(0, 4)[3] == input@[3]);
        return Err(DecodeError::UnrecognizedVersion);
    }
    assert(input@.subrange(0, 4) =~= version_tag());
    let (rest, block) = read_tagged(slice_subrange(input, 4, len))?;
    let (left, inner) = parse_symbol_type(block)?;
    if left.len() != 0 {
        return Err(DecodeError::TrailingBytes);
    }
    let version: [u8; 4] = [1, 0, 0, 0];
    assert(version@ =~= version_tag());
    Ok((rest, Symbol { version, inner }))
}

/// The result `r` of a tail, behind the symbols `acc` that were read before it.
pub open spec fn after_symbols(
    acc: Seq<SymbolView>,
    r: Result<(Seq<u8>, Seq<SymbolView>), DecodeError>,
) -> Result<(Seq<u8>, Seq<SymbolView>), DecodeError> {
    match r {
        Ok((rest, ss)) => Ok((rest, acc + ss)),
        Err(e) => Err(e),
    }
}

/// Reads a whole symbol table: symbols until the input is used up.
///
/// What is left on success is empty.
pub fn parse_bindgen_data(input: &[u8]) -> (r: Result<(&[u8], GodotWasmBindgenData), DecodeError>)
    ensures
        viewed_result(r) == bindgen_data(input@),
        r matches Ok((rest, _)) ==> rest@.len() == 0,
{
    let mut symbols: Vec<Symbol> = Vec::new();
    let mut cur = input;
    let ghost mut acc: Seq<SymbolView> = Seq::empty();
    assert(after_symbols(acc, bindgen_data(input@)) == bindgen_data(input@)) by {
        match bindgen_data(input@) {
            Ok((_, ss)) => {
                assert(acc + ss =~= ss);
            },
            Err(_) => {},
        }
    }
    while cur.len() > 0
        invariant
            acc =~= Seq::new(symbols@.len(), |i: int| symbols@[i]@),
            bindgen_data(input@) == after_symbols(acc, bindgen_data(cur@)),
        decreases cur@.len(),
    {
        let ghost before = acc;
        let ghost bytes = cur@;
        let (rest, s) = parse_symbol(cur)?;
        proof {
            lemma_symbol_consumes(bytes);
            acc = acc.push(s@);
            match bindgen_data(rest@) {
                Ok((_, ss)) => {
                    assert(before + (seq![s@] + ss) =~= acc + ss);
                },
                Err(_) => {},
            }
        }
        symbols.push(s);
        cur = rest;
    }
    assert(acc + Seq::<SymbolView>::empty() =~= acc);
    Ok((cur, GodotWasmBindgenData { symbols }))
}

/// Reads one feature: its sign byte and its name.
pub fn parse_feature(input: &[u8]) -> (r: Result<(&[u8], Feature), DecodeError>)
    ensures
        viewed_result(r) == feature(input@),
{
    let len = input.len();
    if len == 0 {
        return Err(DecodeError::UnexpectedEof);
    }
    let sign = input[0];
    if sign != FEATURE_ENABLED && sign != FEATURE_DISABLED {
        return Err(DecodeError::UnknownFeatureFlag(sign));
    }
    assert(input@.drop_first() =~= input@.subrange(1, len as int));
    let (rest, name) = parse_name(slice_subrange(input, 1, len))?;
    Ok((rest, Feature { enabled: sign == FEATURE_ENABLED, name }))
}

/// The result `r` of a tail, behind the features `acc` that were read before it.
pub open spec fn after_features(
    acc: Seq<FeatureView>,
    r: Result<(Seq<u8>, Seq<FeatureView>), DecodeError>,
) -> Result<(Seq<u8>, Seq<FeatureView>), DecodeError> {
    match r {
        Ok((rest, fs)) => Ok((rest, acc + fs)),
        Err(e) => Err(e),
    }
}

/// Reads a whole feature section: a count, that many features, and nothing more.
///
/// What is left on success is empty.
pub fn parse_target_features(input: &[u8]) -> (r: Result<(&[u8], TargetFeatures), DecodeError>)
    ensures
        viewed_result(r) == target_features(input@),
        r matches Ok((rest, _)) ==> rest@.len() == 0,
{
    let (start, count) = leb128_unsigned(input)?;
    let mut list: Vec<Feature> = Vec::new();
    let mut cur = start;
    let mut i: u64 = 0;
    let ghost mut acc: Seq<FeatureView> = Seq::empty();
    assert(after_features(acc, features(start@, count as nat)) == features(start@, count as nat))
        by {
        match features(start@, count as nat) {
            Ok((_, fs)) => {
                assert(acc + fs =~= fs);
            },
            Err(_) => {},
        }
    }
    while i < count
        invariant
            i <= count,
            acc =~= Seq::new(list@.len(), |k: int| list@[k]@),
            features(start@, count as nat) == after_features(
                acc,
                features(cur@, (count - i) as nat),
            ),
            decoding(input@) == Ok::<_, DecodeError>((start@, count)),
        decreases count - i,
    {
        let ghost before = acc;
        let (rest, f) = parse_feature(cur)?;
        proof {
            acc = acc.push(f@);
            match features(rest@, (count - i - 1) as nat) {
                Ok((_, fs)) => {
                    assert(before + (seq![f@] + fs) =~= acc + fs);
                },
                Err(_) => {},
            }
        }
        list.push(f);
        cur = rest;
        i += 1;
    }
    assert(acc + Seq::<FeatureView>::empty() =~= acc);
    if cur.len() != 0 {
        return Err(DecodeError::TrailingBytes);
    }
    Ok((cur, TargetFeatures { features: list }))
}

} // verus!
