//! Post-processing of WebAssembly modules that were compiled against a tagged
//! host value type: the byte format of the metadata sections, and the rewriting
//! of imports and exports onto a table of host references.

pub mod custom;
pub mod decode;
pub mod error;
pub mod godot_value;
pub mod hidden;
pub mod pipeline;
pub mod relink;
pub mod runtime;
pub mod substitution;
pub mod util;
pub mod varint;
pub mod wasm;
