//! Decoding undoes encoding, for both metadata sections.

use vstd::prelude::*;
use vstd::utf8::{encode_utf8, encode_utf8_decode_utf8, encode_utf8_valid_utf8};

use crate::decode::parser::{
    arg_types, bindgen_data, export_function, feature, features, function_args, import_function,
    name, symbol, symbol_type, target_features,
};
use crate::decode::{
    arg_codes, data_bytes, feature_bytes, features_bytes, function_args_bytes, name_bytes,
    symbol_bytes, symbol_type_bytes, target_features_bytes, version_tag, ArgType,
    EXPORT_FUNCTION_TAG, ExportFunctionView, FeatureView, FunctionArgsView, IMPORT_FUNCTION_TAG,
    ImportFunctionView, SymbolTypeView, SymbolView,
};
use crate::error::DecodeError;
use crate::util::{lemma_tagged_tagging, tagged, tagging};
use crate::varint::{decoding, encoding, lemma_decode_encode};

verus! {

/// A symbol that the format can hold: it carries the recognised version, and
/// the length of its block fits the 64 bits of a length prefix.
pub open spec fn symbol_well_formed(s: SymbolView) -> bool {
    &&& s.version == version_tag()
    &&& symbol_type_bytes(s.inner).len() <= u64::MAX
}

/// A symbol table all of whose symbols are well formed.
pub open spec fn well_formed(table: Seq<SymbolView>) -> bool {
    forall|i: int| 0 <= i < table.len() ==> symbol_well_formed(#[trigger] table[i])
}

/// A feature list that the format can hold: the number of features and the
/// length of each name fit the 64 bits of a length prefix.
pub open spec fn features_well_formed(list: Seq<FeatureView>) -> bool {
    &&& list.len() <= u64::MAX
    &&& forall|i: int| 0 <= i < list.len() ==> encode_utf8((#[trigger] list[i]).name).len() <= u64::MAX
}

/// Decoding undoes encoding for a list of argument kinds.
proof fn lemma_arg_types(ts: Seq<ArgType>)
    ensures
        arg_types(arg_codes(ts)) == Ok::<_, DecodeError>(ts),
    decreases ts.len(),
{
    if ts.len() > 0 {
        lemma_arg_types(ts.drop_first());
        assert(arg_codes(ts).drop_first() =~= arg_codes(ts.drop_first()));
        assert(seq![ts[0]] + ts.drop_first() =~= ts);
    } else {
        assert(ts =~= Seq::<ArgType>::empty());
    }
}

/// Decoding undoes encoding for the argument lists of a function,
/// whatever follows them.
proof fn lemma_function_args(a: FunctionArgsView, rest: Seq<u8>)
    requires
        a.params.len() <= u64::MAX,
        a.results.len() <= u64::MAX,
    ensures
        function_args(function_args_bytes(a) + rest) == Ok::<_, DecodeError>((rest, a)),
{
    let p = arg_codes(a.params);
    let r = arg_codes(a.results);
    lemma_arg_types(a.params);
    lemma_arg_types(a.results);
    lemma_tagged_tagging(p, tagging(r) + rest);
    lemma_tagged_tagging(r, rest);
    assert(function_args_bytes(a) + rest =~= tagging(p) + (tagging(r) + rest));
}

/// Decoding undoes encoding for a name, whatever follows it.
proof fn lemma_name(n: Seq<char>, rest: Seq<u8>)
    requires
        encode_utf8(n).len() <= u64::MAX,
    ensures
        name(name_bytes(n) + rest) == Ok::<_, DecodeError>((rest, n)),
{
    lemma_tagged_tagging(encode_utf8(n), rest);
    encode_utf8_valid_utf8(n);
    encode_utf8_decode_utf8(n);
}

/// Decoding undoes encoding for the body of an export, whatever follows it.
proof fn lemma_export_function(e: ExportFunctionView, rest: Seq<u8>)
    requires
        encode_utf8(e.name).len() <= u64::MAX,
        e.args.params.len() <= u64::MAX,
        e.args.results.len() <= u64::MAX,
    ensures
        export_function(name_bytes(e.name) + function_args_bytes(e.args) + rest) == Ok::<
            _,
            DecodeError,
        >((rest, e)),
{
    let after_name = function_args_bytes(e.args) + rest;
    lemma_name(e.name, after_name);
    lemma_function_args(e.args, rest);
    assert(name_bytes(e.name) + function_args_bytes(e.args) + rest =~= name_bytes(e.name)
        + after_name);
}

/// Decoding undoes encoding for the body of an import, whatever follows it.
proof fn lemma_import_function(i: ImportFunctionView, rest: Seq<u8>)
    requires
        encode_utf8(i.module).len() <= u64::MAX,
        encode_utf8(i.name).len() <= u64::MAX,
        i.args.params.len() <= u64::MAX,
        i.args.results.len() <= u64::MAX,
    ensures
        import_function(
            name_bytes(i.module) + name_bytes(i.name) + function_args_bytes(i.args) + rest,
        ) == Ok::<_, DecodeError>((rest, i)),
{
    let after_name = function_args_bytes(i.args) + rest;
    let after_module = name_bytes(i.name) + after_name;
    let whole = name_bytes(i.module) + after_module;
    assert(name(whole) == Ok::<_, DecodeError>((after_module, i.module))) by {
        lemma_name(i.module, after_module);
    }
    assert(name(after_module) == Ok::<_, DecodeError>((after_name, i.name))) by {
        lemma_name(i.name, after_name);
    }
    assert(function_args(after_name) == Ok::<_, DecodeError>((rest, i.args))) by {
        lemma_function_args(i.args, rest);
    }
    assert(import_function(whole) == Ok::<_, DecodeError>((rest, i)));
    assert(name_bytes(i.module) + name_bytes(i.name) + function_args_bytes(i.args) + rest
        == whole) by {
        lemma_concat4(name_bytes(i.module), name_bytes(i.name), function_args_bytes(i.args), rest);
    }
}

/// Joining four byte strings from the left or from the right is the same.
proof fn lemma_concat4(a: Seq<u8>, b: Seq<u8>, c: Seq<u8>, d: Seq<u8>)
    ensures
        a + b + c + d == a + (b + (c + d)),
{
    assert(a + b + c + d =~= a + (b + (c + d)));
}

/// No part of a block is longer than the block.
proof fn lemma_block_parts(t: SymbolTypeView)
    ensures
        match t {
            SymbolTypeView::ExportFunction(e) => {
                &&& encode_utf8(e.name).len() <= symbol_type_bytes(t).len()
                &&& e.args.params.len() <= symbol_type_bytes(t).len()
                &&& e.args.results.len() <= symbol_type_bytes(t).len()
            },
            SymbolTypeView::ImportFunction(i) => {
                &&& encode_utf8(i.module).len() <= symbol_type_bytes(t).len()
                &&& encode_utf8(i.name).len() <= symbol_type_bytes(t).len()
                &&& i.args.params.len() <= symbol_type_bytes(t).len()
                &&& i.args.results.len() <= symbol_type_bytes(t).len()
            },
        },
{
}

/// Decoding undoes encoding for the block of a symbol, and uses the
/// whole block.
proof fn lemma_symbol_type(t: SymbolTypeView)
    requires
        symbol_type_bytes(t).len() <= u64::MAX,
    ensures
        symbol_type(symbol_type_bytes(t)) == Ok::<_, DecodeError>((Seq::<u8>::empty(), t)),
{
    let none = Seq::<u8>::empty();
    lemma_block_parts(t);
    match t {
        SymbolTypeView::ExportFunction(e) => {
            let body = name_bytes(e.name) + function_args_bytes(e.args) + none;
            let whole = encoding(EXPORT_FUNCTION_TAG as nat) + body;
            assert(export_function(body) == Ok::<_, DecodeError>((none, e))) by {
                lemma_export_function(e, none);
            }
            assert(decoding(whole) == Ok::<_, DecodeError>((body, EXPORT_FUNCTION_TAG))) by {
                lemma_decode_encode(EXPORT_FUNCTION_TAG, body);
            }
            assert(symbol_type(whole) == Ok::<_, DecodeError>((none, t)));
            assert(symbol_type_bytes(t) == whole) by {
                assert(symbol_type_bytes(t) =~= whole);
            }
        },
        SymbolTypeView::ImportFunction(i) => {
            let body = name_bytes(i.module) + name_bytes(i.name) + function_args_bytes(i.args)
                + none;
            let whole = encoding(IMPORT_FUNCTION_TAG as nat) + body;
            assert(import_function(body) == Ok::<_, DecodeError>((none, i))) by {
                lemma_import_function(i, none);
            }
            assert(decoding(whole) == Ok::<_, DecodeError>((body, IMPORT_FUNCTION_TAG))) by {
                lemma_decode_encode(IMPORT_FUNCTION_TAG, body);
            }
            assert(symbol_type(whole) == Ok::<_, DecodeError>((none, t)));
            assert(symbol_type_bytes(t) == whole) by {
                assert(symbol_type_bytes(t) =~= whole);
            }
        },
    }
}

/// Decoding undoes encoding for a symbol, whatever follows it.
proof fn lemma_symbol(s: SymbolView, rest: Seq<u8>)
    requires
        symbol_well_formed(s),
    ensures
        symbol(symbol_bytes(s) + rest) == Ok::<_, DecodeError>((rest, s)),
{
    let none = Seq::<u8>::empty();
    let block = symbol_type_bytes(s.inner);
    let tail = tagging(block) + rest;
    let whole = version_tag() + tail;
    assert(symbol_type(block) == Ok::<_, DecodeError>((none, s.inner))) by {
        lemma_symbol_type(s.inner);
    }
    assert(tagged(tail) == Ok::<_, DecodeError>((rest, block))) by {
        lemma_tagged_tagging(block, rest);
    }
    assert(whole.len() >= 4 && whole.subrange(0, 4) == version_tag() && whole.subrange(
        4,
        whole.len() as int,
    ) == tail) by {
        assert(version_tag().len() == 4);
        assert(whole.subrange(0, 4) =~= version_tag());
        assert(whole.subrange(4, whole.len() as int) =~= tail);
    }
    assert(symbol(whole) == Ok::<_, DecodeError>((rest, s)));
    assert(symbol_bytes(s) + rest == whole) by {
        assert(symbol_bytes(s) + rest =~= whole);
    }
}

/// The bytes of a table are those of its first symbol and those of the rest.
proof fn lemma_data_bytes_front(s: SymbolView, ss: Seq<SymbolView>)
    ensures
        data_bytes(seq![s] + ss) == symbol_bytes(s) + data_bytes(ss),
    decreases ss.len(),
{
    let all = seq![s] + ss;
    if ss.len() == 0 {
        assert(all.drop_last() =~= Seq::<SymbolView>::empty());
        assert(data_bytes(all.drop_last()) =~= Seq::<u8>::empty());
        assert(data_bytes(all) =~= symbol_bytes(s) + data_bytes(ss));
    } else {
        lemma_data_bytes_front(s, ss.drop_last());
        assert(all.drop_last() =~= seq![s] + ss.drop_last());
        assert(data_bytes(all) =~= symbol_bytes(s) + data_bytes(ss));
    }
}

/// Decoding the bytes of a well-formed symbol table gives the table back,
/// symbol for symbol and in the same order, and uses all the bytes.
pub proof fn lemma_parse_serialize(table: Seq<SymbolView>)
    requires
        well_formed(table),
    ensures
        bindgen_data(data_bytes(table)) == Ok::<_, DecodeError>((Seq::<u8>::empty(), table)),
    decreases table.len(),
{
    if table.len() == 0 {
        assert(table =~= Seq::<SymbolView>::empty());
    } else {
        let s = table[0];
        let ss = table.drop_first();
        assert(seq![s] + ss =~= table);
        lemma_data_bytes_front(s, ss);
        lemma_symbol(s, data_bytes(ss));
        assert(well_formed(ss)) by {
            assert forall|i: int| 0 <= i < ss.len() implies symbol_well_formed(
                #[trigger] ss[i],
            ) by {
                assert(ss[i] == table[i + 1]);
            }
        }
        lemma_parse_serialize(ss);
    }
}

/// Decoding undoes encoding for a feature, whatever follows it.
proof fn lemma_feature(f: FeatureView, rest: Seq<u8>)
    requires
        encode_utf8(f.name).len() <= u64::MAX,
    ensures
        feature(feature_bytes(f) + rest) == Ok::<_, DecodeError>((rest, f)),
{
    let all = feature_bytes(f) + rest;
    lemma_name(f.name, rest);
    assert(all.drop_first() =~= name_bytes(f.name) + rest);
}

/// The bytes of a list of features are those of the first and those of the
/// rest.
proof fn lemma_features_bytes_front(f: FeatureView, fs: Seq<FeatureView>)
    ensures
        features_bytes(seq![f] + fs) == feature_bytes(f) + features_bytes(fs),
    decreases fs.len(),
{
    let all = seq![f] + fs;
    if fs.len() == 0 {
        assert(all.drop_last() =~= Seq::<FeatureView>::empty());
        assert(features_bytes(all.drop_last()) =~= Seq::<u8>::empty());
        assert(features_bytes(all) =~= feature_bytes(f) + features_bytes(fs));
    } else {
        lemma_features_bytes_front(f, fs.drop_last());
        assert(all.drop_last() =~= seq![f] + fs.drop_last());
        assert(features_bytes(all) =~= feature_bytes(f) + features_bytes(fs));
    }
}

/// Decoding as many features as were encoded gives them back.
proof fn lemma_features(list: Seq<FeatureView>)
    requires
        features_well_formed(list),
    ensures
        features(features_bytes(list), list.len()) == Ok::<_, DecodeError>(
            (Seq::<u8>::empty(), list),
        ),
    decreases list.len(),
{
    if list.len() == 0 {
        assert(list =~= Seq::<FeatureView>::empty());
    } else {
        let f = list[0];
        let fs = list.drop_first();
        assert(seq![f] + fs =~= list);
        lemma_features_bytes_front(f, fs);
        lemma_feature(f, features_bytes(fs));
        assert(features_well_formed(fs)) by {
            assert forall|i: int| 0 <= i < fs.len() implies encode_utf8(
                (#[trigger] fs[i]).name,
            ).len() <= u64::MAX by {
                assert(fs[i] == list[i + 1]);
            }
        }
        lemma_features(fs);
    }
}

/// Decoding the bytes of a well-formed feature list gives the list back, in
/// the same order, and uses all the bytes.
pub proof fn lemma_parse_serialize_features(list: Seq<FeatureView>)
    requires
        features_well_formed(list),
    ensures
        target_features(target_features_bytes(list)) == Ok::<_, DecodeError>(
            (Seq::<u8>::empty(), list),
        ),
{
    lemma_features(list);
    lemma_decode_encode(list.len() as u64, features_bytes(list));
}

} // verus!
