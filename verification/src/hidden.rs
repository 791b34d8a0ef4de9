//! The codes of argument kinds, by the Rust type that stands for each.

use core::marker::PhantomData;
use vstd::prelude::*;

use crate::decode::{code_of, ArgType};
use crate::godot_value::GodotValue;

verus! {

/// The code of the argument kind that the type `T` stands for.
pub struct DataTypeValue<T>(PhantomData<T>);

impl DataTypeValue<u8> {
    /// The code of [`ArgType::U8`].
    pub fn value() -> (c: u8)
        ensures
            c == code_of(ArgType::U8),
    {
        ArgType::U8.code()
    }
}

impl DataTypeValue<i8> {
    /// The code of [`ArgType::I8`].
    pub fn value() -> (c: u8)
        ensures
            c == code_of(ArgType::I8),
    {
        ArgType::I8.code()
    }
}

impl DataTypeValue<u16> {
    /// The code of [`ArgType::U16`].
    pub fn value() -> (c: u8)
        ensures
            c == code_of(ArgType::U16),
    {
        ArgType::U16.code()
    }
}

impl DataTypeValue<i16> {
    /// The code of [`ArgType::I16`].
    pub fn value() -> (c: u8)
        ensures
            c == code_of(ArgType::I16),
    {
        ArgType::I16.code()
    }
}

impl DataTypeValue<u32> {
    /// The code of [`ArgType::U32`].
    pub fn value() -> (c: u8)
        ensures
            c == code_of(ArgType::U32),
    {
        ArgType::U32.code()
    }
}

impl DataTypeValue<i32> {
    /// The code of [`ArgType::I32`].
    pub fn value() -> (c: u8)
        ensures
            c == code_of(ArgType::I32),
    {
        ArgType::I32.code()
    }
}

impl DataTypeValue<u64> {
    /// The code of [`ArgType::U64`].
    pub fn value() -> (c: u8)
        ensures
            c == code_of(ArgType::U64),
    {
        ArgType::U64.code()
    }
}

impl DataTypeValue<i64> {
    /// The code of [`ArgType::I64`].
    pub fn value() -> (c: u8)
        ensures
            c == code_of(ArgType::I64),
    {
        ArgType::I64.code()
    }
}

impl DataTypeValue<GodotValue> {
    /// The code of [`ArgType::GodotValue`].
    pub fn value() -> (c: u8)
        ensures
            c == code_of(ArgType::GodotValue),
    {
        ArgType::GodotValue.code()
    }
}

} // verus!
