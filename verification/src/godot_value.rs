//! The handle that code inside the module holds on a value of the host.

use vstd::prelude::*;
use vstd::string::StringExecFns;

verus! {

/// A slot of the module's table of host values. Slot 0 stands for no value.
#[derive(Debug, PartialEq, Eq)]
pub struct GodotValue {
    ptr: u32,
}

impl View for GodotValue {
    type V = u32;

    closed spec fn view(&self) -> u32 {
        self.ptr
    }
}

impl GodotValue {
    /// The slot number of this handle.
    pub fn to_raw(&self) -> (slot: u32)
        ensures
            slot == self@,
    {
        self.ptr
    }

    /// Gives the handle up for its slot number.
    pub fn into_raw(self) -> (slot: u32)
        ensures
            slot == self@,
    {
        self.ptr
    }

    /// The handle on the slot `ptr`.
    pub fn from_raw(ptr: u32) -> (value: GodotValue)
        ensures
            value@ == ptr,
    {
        GodotValue { ptr }
    }

    /// Whether this handle stands for no value.
    pub fn is_null(&self) -> (r: bool)
        ensures
            r == (self@ == 0),
    {
        self.ptr == 0
    }

    /// Whether this handle stands for a value.
    pub fn is_nonnull(&self) -> (r: bool)
        ensures
            r == (self@ != 0),
    {
        self.ptr != 0
    }
}

/// The kinds of value that the host knows.
#[derive(Debug, Clone, Copy, PartialEq, Eq, Hash, Structural)]
pub enum ValueType {
    Null,
    Bool,
    I64,
    F64,
    GodotString,
    Vector2,
    Rect2,
    Vector3,
    Transform2D,
    Plane,
    Quat,
    Aabb,
    Basis,
    Transform,
    Color,
    Nodepath,
    Rid,
    Object,
    Dictionary,
    Array,
    ByteArray,
    IntArray,
    FloatArray,
    StringArray,
    Vector2Array,
    Vector3Array,
    ColorArray,
}

/// The number that the host gives for a kind of value.
pub open spec fn type_number(t: ValueType) -> u32 {
    match t {
        ValueType::Null => 0,
        ValueType::Bool => 1,
        ValueType::I64 => 2,
        ValueType::F64 => 3,
        ValueType::GodotString => 4,
        ValueType::Vector2 => 5,
        ValueType::Rect2 => 6,
        ValueType::Vector3 => 7,
        ValueType::Transform2D => 8,
        ValueType::Plane => 9,
        ValueType::Quat => 10,
        ValueType::Aabb => 11,
        ValueType::Basis => 12,
        ValueType::Transform => 13,
        ValueType::Color => 14,
        ValueType::Nodepath => 15,
        ValueType::Rid => 16,
        ValueType::Object => 17,
        ValueType::Dictionary => 18,
        ValueType::Array => 19,
        ValueType::ByteArray => 20,
        ValueType::IntArray => 21,
        ValueType::FloatArray => 22,
        ValueType::StringArray => 23,
        ValueType::Vector2Array => 24,
        ValueType::Vector3Array => 25,
        ValueType::ColorArray => 26,
    }
}

/// The name of a kind of value.
pub open spec fn kind_name(t: ValueType) -> Seq<char> {
    match t {
        ValueType::Null => "Null"@,
        ValueType::Bool => "Bool"@,
        ValueType::I64 => "I64"@,
        ValueType::F64 => "F64"@,
        ValueType::GodotString => "GodotString"@,
        ValueType::Vector2 => "Vector2"@,
        ValueType::Rect2 => "Rect2"@,
        ValueType::Vector3 => "Vector3"@,
        ValueType::Transform2D => "Transform2D"@,
        ValueType::Plane => "Plane"@,
        ValueType::Quat => "Quat"@,
        ValueType::Aabb => "Aabb"@,
        ValueType::Basis => "Basis"@,
        ValueType::Transform => "Transform"@,
        ValueType::Color => "Color"@,
        ValueType::Nodepath => "Nodepath"@,
        ValueType::Rid => "Rid"@,
        ValueType::Object => "Object"@,
        ValueType::Dictionary => "Dictionary"@,
        ValueType::Array => "Array"@,
        ValueType::ByteArray => "ByteArray"@,
        ValueType::IntArray => "IntArray"@,
        ValueType::FloatArray => "FloatArray"@,
        ValueType::StringArray => "StringArray"@,
        ValueType::Vector2Array => "Vector2Array"@,
        ValueType::Vector3Array => "Vector3Array"@,
        ValueType::ColorArray => "ColorArray"@,
    }
}

impl ValueType {
    /// The kind of value that the host gives the number `n` for: one for
    /// each of `0..=26`.
    pub fn from_number(n: u32) -> (r: Option<ValueType>)
        ensures
            r is Some <==> n <= 26,
            r matches Some(t) ==> type_number(t) == n,
    {
        match n {
            0 => Some(ValueType::Null),
            1 => Some(ValueType::Bool),
            2 => Some(ValueType::I64),
            3 => Some(ValueType::F64),
            4 => Some(ValueType::GodotString),
            5 => Some(ValueType::Vector2),
            6 => Some(ValueType::Rect2),
            7 => Some(ValueType::Vector3),
            8 => Some(ValueType::Transform2D),
            9 => Some(ValueType::Plane),
            10 => Some(ValueType::Quat),
            11 => Some(ValueType::Aabb),
            12 => Some(ValueType::Basis),
            13 => Some(ValueType::Transform),
            14 => Some(ValueType::Color),
            15 => Some(ValueType::Nodepath),
            16 => Some(ValueType::Rid),
            17 => Some(ValueType::Object),
            18 => Some(ValueType::Dictionary),
            19 => Some(ValueType::Array),
            20 => Some(ValueType::ByteArray),
            21 => Some(ValueType::IntArray),
            22 => Some(ValueType::FloatArray),
            23 => Some(ValueType::StringArray),
            24 => Some(ValueType::Vector2Array),
            25 => Some(ValueType::Vector3Array),
            26 => Some(ValueType::ColorArray),
            _ => None,
        }
    }

    /// The name of this kind.
    pub fn name(self) -> (n: &'static str)
        ensures
            n@ == kind_name(self),
    {
        match self {
            ValueType::Null => "Null",
            ValueType::Bool => "Bool",
            ValueType::I64 => "I64",
            ValueType::F64 => "F64",
            ValueType::GodotString => "GodotString",
            ValueType::Vector2 => "Vector2",
            ValueType::Rect2 => "Rect2",
            ValueType::Vector3 => "Vector3",
            ValueType::Transform2D => "Transform2D",
            ValueType::Plane => "Plane",
            ValueType::Quat => "Quat",
            ValueType::Aabb => "Aabb",
            ValueType::Basis => "Basis",
            ValueType::Transform => "Transform",
            ValueType::Color => "Color",
            ValueType::Nodepath => "Nodepath",
            ValueType::Rid => "Rid",
            ValueType::Object => "Object",
            ValueType::Dictionary => "Dictionary",
            ValueType::Array => "Array",
            ValueType::ByteArray => "ByteArray",
            ValueType::IntArray => "IntArray",
            ValueType::FloatArray => "FloatArray",
            ValueType::StringArray => "StringArray",
            ValueType::Vector2Array => "Vector2Array",
            ValueType::Vector3Array => "Vector3Array",
            ValueType::ColorArray => "ColorArray",
        }
    }
}

/// The text of a failed cast.
pub open spec fn cast_message(expect: Seq<char>, got: Seq<char>) -> Seq<char> {
    "Casting error (expected "@ + expect + ", got "@ + got + ")"@
}

/// A handle that stands for no value was used as one that stands for one.
#[derive(Debug, Clone, Copy, PartialEq, Eq, Structural)]
pub struct NullValueError {}

impl NullValueError {
    /// The text of this error.
    pub fn message(&self) -> (text: String)
        ensures
            text@ == "Null pointer"@,
    {
        "Null pointer".to_owned()
    }
}

/// A value is not of the kind that was asked for.
#[derive(Debug, Clone, Copy, PartialEq, Eq, Structural)]
pub struct TypecastError {
    expect: ValueType,
    got: ValueType,
}

impl TypecastError {
    /// The error of a value of kind `got` where one of kind `expect` was
    /// asked for.
    pub fn new(expect: ValueType, got: ValueType) -> (e: TypecastError)
        ensures
            e.expected() == expect,
            e.found() == got,
    {
        TypecastError { expect, got }
    }

    /// The kind that was asked for.
    pub closed spec fn expected(&self) -> ValueType {
        self.expect
    }

    /// The kind that the value has.
    pub closed spec fn found(&self) -> ValueType {
        self.got
    }

    /// The text of this error.
    pub fn message(&self) -> (text: String)
        ensures
            text@ == cast_message(kind_name(self.expected()), kind_name(self.found())),
    {
        "Casting error (expected ".to_owned().concat(self.expect.name()).concat(", got ").concat(
            self.got.name(),
        ).concat(")")
    }
}

/// A value is not of the kind that was asked for; the value comes back with
/// the error.
#[derive(Debug, PartialEq, Eq)]
pub struct TypecastErrorOwned {
    pub original: GodotValue,
    expect: ValueType,
    got: ValueType,
}

impl TypecastErrorOwned {
    /// The error of the value `original` of kind `got` where one of kind
    /// `expect` was asked for.
    pub fn new(original: GodotValue, expect: ValueType, got: ValueType) -> (e: TypecastErrorOwned)
        ensures
            e.value() == original,
            e.expected() == expect,
            e.found() == got,
    {
        TypecastErrorOwned { original, expect, got }
    }

    /// The value that the error is about.
    pub closed spec fn value(&self) -> GodotValue {
        self.original
    }

    /// The same error as `error`, with the value that it is about.
    pub fn from_typecast_error(original: GodotValue, error: TypecastError) -> (e: TypecastErrorOwned)
        ensures
            e.value() == original,
            e.expected() == error.expected(),
            e.found() == error.found(),
    {
        TypecastErrorOwned { original, expect: error.expect, got: error.got }
    }

    /// The kind that was asked for.
    pub closed spec fn expected(&self) -> ValueType {
        self.expect
    }

    /// The kind that the value has.
    pub closed spec fn found(&self) -> ValueType {
        self.got
    }

    /// The text of this error.
    pub fn message(&self) -> (text: String)
        ensures
            text@ == cast_message(kind_name(self.expected()), kind_name(self.found())),
    {
        "Casting error (expected ".to_owned().concat(self.expect.name()).concat(", got ").concat(
            self.got.name(),
        ).concat(")")
    }
}

} // verus!
