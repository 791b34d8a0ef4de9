//! The ways in which a metadata section can be malformed.

use vstd::prelude::*;
use walrus::ValType;

verus! {

/// Why a module could not be rewritten.
#[derive(Clone, Copy, Debug, PartialEq, Eq)]
pub enum RewriteError {
    /// The module exports no memory under the name `memory`.
    NoMainMemory,
    /// A function that the metadata describes names a type that the module
    /// does not hold.
    MissingType,
    /// The metadata declares another number of parameters than the function has.
    ParameterLengthMismatch { declared: usize, actual: usize },
    /// The metadata declares another number of results than the function has.
    ResultLengthMismatch { declared: usize, actual: usize },
    /// The parameter at `index` is declared with a kind that the function's
    /// own type does not have there.
    ParameterTypeMismatch { index: usize, declared: ValType, actual: ValType },
    /// The result at `index` is declared with a kind that the function's own
    /// type does not have there.
    ResultTypeMismatch { index: usize, declared: ValType, actual: ValType },
}

/// Why a byte stream was rejected by one of the decoders.
#[derive(Clone, Copy, Debug, PartialEq, Eq, Structural)]
pub enum DecodeError {
    /// The stream ended inside a value.
    UnexpectedEof,
    /// A variable-length integer does not fit in 64 bits.
    Overflow,
    /// A symbol does not start with the recognised version tag.
    UnrecognizedVersion,
    /// A symbol's discriminant is neither that of an export nor that of an import.
    UnrecognizedSymbolKind(u64),
    /// A parameter or result code is outside `1..=11`.
    InvalidArgType(u8),
    /// A feature's sign byte is neither `+` nor `-`.
    UnknownFeatureFlag(u8),
    /// A name is not valid UTF-8.
    InvalidUtf8,
    /// A block or section holds bytes after its last value.
    TrailingBytes,
}

} // verus!
