//! The two metadata sections of a module: taking them out of the module,
//! and putting the target features back.

use vstd::prelude::*;
use walrus::Module;

use crate::decode::parser::{bindgen_data, target_features};
use crate::decode::{
    target_features_bytes, Feature, FeatureView, GODOT_WASM_BINDGEN_NAME, GodotWasmBindgenData,
    SymbolView, TARGET_FEATURES_NAME, TargetFeatures,
};
use crate::error::DecodeError;
use crate::wasm::module::{add_custom_section, take_custom_section};
use crate::wasm::{contents, first_custom, ModuleView};

verus! {

/// The name of the feature that a rewritten module needs: it has a second
/// memory.
pub const MULTI_MEMORY: &'static str = "multi-memory";

/// What reading the feature section makes of the custom sections: the
/// section is taken out, decoded, and put back at the end in its canonical
/// form. A section that cannot be decoded stays out, and its error is the
/// result.
pub open spec fn features_read(customs: Seq<(Seq<char>, Seq<u8>)>) -> Result<
    Seq<(Seq<char>, Seq<u8>)>,
    DecodeError,
> {
    match first_custom(customs, TARGET_FEATURES_NAME@, 0) {
        None => Ok(customs),
        Some(i) => match target_features(customs[i].1) {
            Err(e) => Err(e),
            Ok((_, list)) => Ok(
                customs.remove(i).push((TARGET_FEATURES_NAME@, target_features_bytes(list))),
            ),
        },
    }
}

/// What reading the symbol table makes of the custom sections, and what it
/// gives: the section is taken out and decoded.
pub open spec fn symbols_read(customs: Seq<(Seq<char>, Seq<u8>)>) -> (
    Seq<(Seq<char>, Seq<u8>)>,
    Result<Option<Seq<SymbolView>>, DecodeError>,
) {
    match first_custom(customs, GODOT_WASM_BINDGEN_NAME@, 0) {
        None => (customs, Ok(None)),
        Some(i) => (
            customs.remove(i),
            match bindgen_data(customs[i].1) {
                Err(e) => Err(e),
                Ok((_, table)) => Ok(Some(table)),
            },
        ),
    }
}

/// The view of what [`read_custom_data`] returns.
pub open spec fn table_view(r: Result<Option<GodotWasmBindgenData>, DecodeError>) -> Result<
    Option<Seq<SymbolView>>,
    DecodeError,
> {
    match r {
        Ok(Some(table)) => Ok(Some(table@)),
        Ok(None) => Ok(None),
        Err(e) => Err(e),
    }
}

/// Takes the metadata out of the module.
///
/// The feature section, if there is one, is decoded and put back in its
/// canonical form. Then the symbol table, if there is one, is taken out
/// and decoded; the module is left without it. The first section that
/// cannot be decoded ends the reading with its error.
pub fn read_custom_data(module: &mut Module) -> (r: Result<Option<GodotWasmBindgenData>, DecodeError>)
    ensures
        contents(*final(module)) == (ModuleView {
            customs: contents(*final(module)).customs,
            ..contents(*old(module))
        }),
        match features_read(contents(*old(module)).customs) {
            Err(e) => {
                &&& r == Err::<Option<GodotWasmBindgenData>, _>(e)
                &&& contents(*final(module)).customs == contents(*old(module)).customs.remove(
                    first_custom(contents(*old(module)).customs, TARGET_FEATURES_NAME@, 0)->0,
                )
            },
            Ok(customs) => {
                &&& table_view(r) == symbols_read(customs).1
                &&& contents(*final(module)).customs == symbols_read(customs).0
            },
        },
{
    let ghost start = contents(*module);
    match take_custom_section(module, TARGET_FEATURES_NAME) {
        Some(bytes) => {
            let features = TargetFeatures::try_from(bytes.as_slice())?;
            add_custom_section(module, TARGET_FEATURES_NAME.to_owned(), features.data());
        },
        None => {},
    }
    match take_custom_section(module, GODOT_WASM_BINDGEN_NAME) {
        Some(bytes) => {
            let table = GodotWasmBindgenData::try_from(bytes.as_slice())?;
            Ok(Some(table))
        },
        None => Ok(None),
    }
}

/// What requiring a feature makes of the custom sections: where there is a
/// feature section that can be decoded, it is put back at the end with the
/// feature as one more entry, switched on.
pub open spec fn feature_required(customs: Seq<(Seq<char>, Seq<u8>)>, name: Seq<char>) -> Seq<
    (Seq<char>, Seq<u8>),
> {
    match first_custom(customs, TARGET_FEATURES_NAME@, 0) {
        None => customs,
        Some(i) => match target_features(customs[i].1) {
            Err(_) => customs.remove(i).push(customs[i]),
            Ok((_, list)) => customs.remove(i).push(
                (
                    TARGET_FEATURES_NAME@,
                    target_features_bytes(list.push(FeatureView { enabled: true, name })),
                ),
            ),
        },
    }
}

/// The section that is found has the name that was looked for.
pub proof fn lemma_first_custom(customs: Seq<(Seq<char>, Seq<u8>)>, name: Seq<char>, from: int)
    requires
        first_custom(customs, name, from) is Some,
    ensures
        from <= first_custom(customs, name, from)->0 < customs.len(),
        customs[first_custom(customs, name, from)->0].0 == name,
    decreases customs.len() - from,
{
    if 0 <= from < customs.len() && customs[from].0 != name {
        lemma_first_custom(customs, name, from + 1);
    }
}

/// Records that the module needs the feature `name`.
///
/// Returns whether it was recorded: it is not where the module has no
/// feature section. A feature section that cannot be decoded is left with
/// the bytes that it had, and its error is the result.
pub fn require_feature(module: &mut Module, name: &str) -> (r: Result<bool, DecodeError>)
    ensures
        contents(*final(module)) == (ModuleView {
            customs: feature_required(contents(*old(module)).customs, name@),
            ..contents(*old(module))
        }),
        match first_custom(contents(*old(module)).customs, TARGET_FEATURES_NAME@, 0) {
            None => r == Ok::<_, DecodeError>(false),
            Some(i) => match target_features(contents(*old(module)).customs[i].1) {
                Err(e) => r == Err::<bool, _>(e),
                Ok(_) => r == Ok::<_, DecodeError>(true),
            },
        },
{
    proof {
        let customs = contents(*module).customs;
        if first_custom(customs, TARGET_FEATURES_NAME@, 0) is Some {
            lemma_first_custom(customs, TARGET_FEATURES_NAME@, 0);
        }
    }
    match take_custom_section(module, TARGET_FEATURES_NAME) {
        Some(bytes) => {
            match TargetFeatures::try_from(bytes.as_slice()) {
                Ok(list) => {
                    let ghost before = list@;
                    let mut list = list;
                    list.features.push(Feature { enabled: true, name: name.to_owned() });
                    assert(list@ =~= before.push(FeatureView { enabled: true, name: name@ }));
                    add_custom_section(module, TARGET_FEATURES_NAME.to_owned(), list.data());
                    Ok(true)
                },
                Err(e) => {
                    add_custom_section(module, TARGET_FEATURES_NAME.to_owned(), bytes);
                    Err(e)
                },
            }
        },
        None => Ok(false),
    }
}

} // verus!
