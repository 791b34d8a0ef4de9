//! The operations of the host that the rewriting knows.

use vstd::prelude::*;
use vstd::string::StringExecFns;
use walrus::ValType;

use crate::runtime::imports::{EXTERNREF_MODULE, MODULE_NAME};

verus! {

/// How an operation of the host is bridged.
#[derive(Clone, Debug)]
pub enum Adapter {
    /// The host's operation has this signature under this namespace. The
    /// adapter takes a slot for every reference, passes the reference in it
    /// on, and returns the slot of a reference that comes back.
    Standard { namespace: String, params: Vec<ValType>, results: Vec<ValType> },
    /// A second slot for the reference in a slot.
    Duplicate,
    /// A slot is given back.
    Delete,
    /// A run of strings is read into slots in the module's memory.
    GetMany,
    /// A string array is built from slots in the module's memory.
    Build,
}

/// An operation of the host, by the name under which the module imports it.
#[derive(Clone, Debug)]
pub struct Entry {
    pub name: String,
    pub adapter: Adapter,
}

/// The mathematical value of an [`Adapter`].
pub enum AdapterView {
    Standard { namespace: Seq<char>, params: Seq<ValType>, results: Seq<ValType> },
    Duplicate,
    Delete,
    GetMany,
    Build,
}

/// The mathematical value of an [`Entry`].
pub struct EntryView {
    pub name: Seq<char>,
    pub adapter: AdapterView,
}

impl View for Adapter {
    type V = AdapterView;

    open spec fn view(&self) -> AdapterView {
        match self {
            Adapter::Standard { namespace, params, results } => AdapterView::Standard {
                namespace: namespace@,
                params: params@,
                results: results@,
            },
            Adapter::Duplicate => AdapterView::Duplicate,
            Adapter::Delete => AdapterView::Delete,
            Adapter::GetMany => AdapterView::GetMany,
            Adapter::Build => AdapterView::Build,
        }
    }
}

impl View for Entry {
    type V = EntryView;

    open spec fn view(&self) -> EntryView {
        EntryView { name: self.name@, adapter: self.adapter@ }
    }
}

/// The values of a list of entries.
pub open spec fn views(list: Seq<Entry>) -> Seq<EntryView> {
    Seq::new(list.len(), |i: int| list[i]@)
}

/// An operation on objects.
pub open spec fn object_op(
    name: Seq<char>,
    params: Seq<ValType>,
    results: Seq<ValType>,
) -> EntryView {
    EntryView {
        name,
        adapter: AdapterView::Standard { namespace: EXTERNREF_MODULE@, params, results },
    }
}

/// An operation on plain values.
pub open spec fn value_op(
    name: Seq<char>,
    params: Seq<ValType>,
    results: Seq<ValType>,
) -> EntryView {
    EntryView { name, adapter: AdapterView::Standard { namespace: MODULE_NAME@, params, results } }
}

/// The kinds of value that the host knows, by the names that its operations
/// carry.
pub open spec fn type_names() -> Seq<&'static str> {
    seq![
        "bool",
        "int",
        "float",
        "string",
        "vector2",
        "rect2",
        "vector3",
        "transform2d",
        "plane",
        "quat",
        "aabb",
        "basis",
        "transform",
        "color",
        "nodepath",
        "rid",
        "object",
        "dictionary",
        "array",
        "byte_array",
        "int_array",
        "float_array",
        "string_array",
        "vector2_array",
        "vector3_array",
        "color_array",
    ]
}

/// The kinds of value that are read into and written from the module's
/// memory as a whole.
pub open spec fn primitive_names() -> Seq<&'static str> {
    seq![
        "bool",
        "int",
        "float",
        "vector2",
        "vector3",
        "rect2",
        "transform2d",
        "plane",
        "quat",
        "aabb",
        "basis",
        "transform",
        "color",
    ]
}

/// The kinds of array whose elements lie side by side in memory.
pub open spec fn pool_names() -> Seq<&'static str> {
    seq!["byte_array", "int_array", "float_array", "vector2_array", "vector3_array", "color_array"]
}

/// The operations on dynamic arrays.
pub open spec fn array_entries() -> Seq<EntryView> {
    let r = ValType::Externref;
    let i = ValType::I32;
    seq![
        object_op("array.new"@, Seq::empty(), seq![r]),
        object_op("array.len"@, seq![r], seq![i]),
        object_op("array.get"@, seq![r, i], seq![r]),
        object_op("array.set"@, seq![r, i, r], Seq::empty()),
        object_op("array.count"@, seq![r, r], seq![i]),
        object_op("array.contains"@, seq![r, r], seq![i]),
        object_op("array.find"@, seq![r, r, i], seq![i]),
        object_op("array.rfind"@, seq![r, r, i], seq![i]),
        object_op("array.invert"@, seq![r], Seq::empty()),
        object_op("array.sort"@, seq![r], Seq::empty()),
        object_op("array.clear"@, seq![r], Seq::empty()),
        object_op("array.duplicate"@, seq![r], seq![r]),
    ]
}

/// The operations on any value.
pub open spec fn other_entries() -> Seq<EntryView> {
    seq![
        EntryView { name: "duplicate"@, adapter: AdapterView::Duplicate },
        EntryView { name: "delete"@, adapter: AdapterView::Delete },
    ]
}

/// The operations on strings.
pub open spec fn string_entries() -> Seq<EntryView> {
    let r = ValType::Externref;
    let i = ValType::I32;
    seq![
        object_op("string.len"@, seq![r], seq![i]),
        object_op("string.read"@, seq![r, i], seq![i]),
        object_op("string.write"@, seq![i, i], seq![r]),
    ]
}

/// The operations on arrays of strings.
pub open spec fn string_array_entries() -> Seq<EntryView> {
    let r = ValType::Externref;
    let i = ValType::I32;
    seq![
        object_op("string_array.len"@, seq![r], seq![i]),
        object_op("string_array.get"@, seq![r, i], seq![r]),
        EntryView { name: "string_array.get_many"@, adapter: AdapterView::GetMany },
        EntryView { name: "string_array.build"@, adapter: AdapterView::Build },
    ]
}

/// The three operations on one kind of pooled array: its length, reading
/// it into memory, and writing it from memory.
pub open spec fn pool_entries_of(name: Seq<char>) -> Seq<EntryView> {
    let r = ValType::Externref;
    let i = ValType::I32;
    seq![
        object_op(name + ".len"@, seq![r], seq![i]),
        object_op(name + ".read"@, seq![r, i], seq![i]),
        object_op(name + ".write"@, seq![i, i], seq![r]),
    ]
}

/// The two operations on one kind of primitive: reading it into memory and
/// writing it from memory.
pub open spec fn primitive_entries_of(name: Seq<char>) -> Seq<EntryView> {
    let r = ValType::Externref;
    let i = ValType::I32;
    seq![
        value_op(name + ".read"@, seq![r, i], seq![i]),
        value_op(name + ".write"@, seq![i], seq![r]),
    ]
}

/// The test whether a value is of one kind.
pub open spec fn typeis_entry_of(name: Seq<char>) -> EntryView {
    value_op(name + ".is"@, seq![ValType::Externref], seq![ValType::I32])
}

/// The operations on the first `upto` kinds of pooled array.
pub open spec fn pool_entries(upto: int) -> Seq<EntryView>
    decreases upto,
{
    if upto <= 0 {
        Seq::empty()
    } else {
        pool_entries(upto - 1) + pool_entries_of(pool_names()[upto - 1]@)
    }
}

/// The operations on the first `upto` kinds of primitive.
pub open spec fn primitive_entries(upto: int) -> Seq<EntryView>
    decreases upto,
{
    if upto <= 0 {
        Seq::empty()
    } else {
        primitive_entries(upto - 1) + primitive_entries_of(primitive_names()[upto - 1]@)
    }
}

/// The tests for the first `upto` kinds of value.
pub open spec fn typeis_entries(upto: int) -> Seq<EntryView>
    decreases upto,
{
    if upto <= 0 {
        Seq::empty()
    } else {
        typeis_entries(upto - 1).push(typeis_entry_of(type_names()[upto - 1]@))
    }
}

/// Every operation of the host that the rewriting knows, in the order in
/// which it looks for them.
pub open spec fn catalogue_entries() -> Seq<EntryView> {
    array_entries() + other_entries() + pool_entries(pool_names().len() as int)
        + primitive_entries(primitive_names().len() as int) + string_entries()
        + string_array_entries() + typeis_entries(type_names().len() as int)
}

/// No kinds.
pub fn kinds0() -> (v: Vec<ValType>)
    ensures
        v@ == Seq::<ValType>::empty(),
{
    Vec::new()
}

/// One kind.
pub fn kinds1(a: ValType) -> (v: Vec<ValType>)
    ensures
        v@ == seq![a],
{
    let v: Vec<ValType> = vec![a];
    assert(v@ =~= seq![a]);
    v
}

/// Two kinds.
pub fn kinds2(a: ValType, b: ValType) -> (v: Vec<ValType>)
    ensures
        v@ == seq![a, b],
{
    let v: Vec<ValType> = vec![a, b];
    assert(v@ =~= seq![a, b]);
    v
}

/// Three kinds.
pub fn kinds3(a: ValType, b: ValType, c: ValType) -> (v: Vec<ValType>)
    ensures
        v@ == seq![a, b, c],
{
    let v: Vec<ValType> = vec![a, b, c];
    assert(v@ =~= seq![a, b, c]);
    v
}

/// An entry for an operation on objects.
pub fn object_entry(name: &str, params: Vec<ValType>, results: Vec<ValType>) -> (e: Entry)
    ensures
        e@ == object_op(name@, params@, results@),
{
    Entry {
        name: name.to_owned(),
        adapter: Adapter::Standard { namespace: EXTERNREF_MODULE.to_owned(), params, results },
    }
}

/// An entry for an operation on plain values.
pub fn value_entry(name: &str, params: Vec<ValType>, results: Vec<ValType>) -> (e: Entry)
    ensures
        e@ == value_op(name@, params@, results@),
{
    Entry {
        name: name.to_owned(),
        adapter: Adapter::Standard { namespace: MODULE_NAME.to_owned(), params, results },
    }
}

/// `prefix` and `suffix` as one string.
pub fn joined(prefix: &str, suffix: &str) -> (s: String)
    ensures
        s@ == prefix@ + suffix@,
{
    prefix.to_owned().concat(suffix)
}

/// Appends the entries of `more` to `list`.
pub fn extend(list: &mut Vec<Entry>, more: Vec<Entry>)
    ensures
        views(final(list)@) == views(old(list)@) + views(more@),
{
    let ghost before = list@;
    let ghost added = more@;
    let mut more = more;
    list.append(&mut more);
    assert(views(list@) =~= views(before) + views(added));
}

/// The kinds of value that the host knows.
pub fn type_name_list() -> (names: Vec<&'static str>)
    ensures
        names@ == type_names(),
{
    let names: Vec<&'static str> = vec![
        "bool",
        "int",
        "float",
        "string",
        "vector2",
        "rect2",
        "vector3",
        "transform2d",
        "plane",
        "quat",
        "aabb",
        "basis",
        "transform",
        "color",
        "nodepath",
        "rid",
        "object",
        "dictionary",
        "array",
        "byte_array",
        "int_array",
        "float_array",
        "string_array",
        "vector2_array",
        "vector3_array",
        "color_array",
    ];
    assert(names@ =~= type_names());
    names
}

/// The kinds of value that are read and written as a whole.
pub fn primitive_name_list() -> (names: Vec<&'static str>)
    ensures
        names@ == primitive_names(),
{
    let names: Vec<&'static str> = vec![
        "bool",
        "int",
        "float",
        "vector2",
        "vector3",
        "rect2",
        "transform2d",
        "plane",
        "quat",
        "aabb",
        "basis",
        "transform",
        "color",
    ];
    assert(names@ =~= primitive_names());
    names
}

/// The kinds of pooled array.
pub fn pool_name_list() -> (names: Vec<&'static str>)
    ensures
        names@ == pool_names(),
{
    let names: Vec<&'static str> = vec![
        "byte_array",
        "int_array",
        "float_array",
        "vector2_array",
        "vector3_array",
        "color_array",
    ];
    assert(names@ =~= pool_names());
    names
}

/// The operations on dynamic arrays.
pub fn array_list() -> (list: Vec<Entry>)
    ensures
        views(list@) == array_entries(),
{
    let r = ValType::Externref;
    let i = ValType::I32;
    let list: Vec<Entry> = vec![
        object_entry("array.new", kinds0(), kinds1(r)),
        object_entry("array.len", kinds1(r), kinds1(i)),
        object_entry("array.get", kinds2(r, i), kinds1(r)),
        object_entry("array.set", kinds3(r, i, r), kinds0()),
        object_entry("array.count", kinds2(r, r), kinds1(i)),
        object_entry("array.contains", kinds2(r, r), kinds1(i)),
        object_entry("array.find", kinds3(r, r, i), kinds1(i)),
        object_entry("array.rfind", kinds3(r, r, i), kinds1(i)),
        object_entry("array.invert", kinds1(r), kinds0()),
        object_entry("array.sort", kinds1(r), kinds0()),
        object_entry("array.clear", kinds1(r), kinds0()),
        object_entry("array.duplicate", kinds1(r), kinds1(r)),
    ];
    assert(views(list@) =~= array_entries());
    list
}

/// The operations on any value.
pub fn other_list() -> (list: Vec<Entry>)
    ensures
        views(list@) == other_entries(),
{
    let list: Vec<Entry> = vec![
        Entry { name: "duplicate".to_owned(), adapter: Adapter::Duplicate },
        Entry { name: "delete".to_owned(), adapter: Adapter::Delete },
    ];
    assert(views(list@) =~= other_entries());
    list
}

/// The operations on strings.
pub fn string_list() -> (list: Vec<Entry>)
    ensures
        views(list@) == string_entries(),
{
    let r = ValType::Externref;
    let i = ValType::I32;
    let list: Vec<Entry> = vec![
        object_entry("string.len", kinds1(r), kinds1(i)),
        object_entry("string.read", kinds2(r, i), kinds1(i)),
        object_entry("string.write", kinds2(i, i), kinds1(r)),
    ];
    assert(views(list@) =~= string_entries());
    list
}

/// The operations on arrays of strings.
pub fn string_array_list() -> (list: Vec<Entry>)
    ensures
        views(list@) == string_array_entries(),
{
    let r = ValType::Externref;
    let i = ValType::I32;
    let list: Vec<Entry> = vec![
        object_entry("string_array.len", kinds1(r), kinds1(i)),
        object_entry("string_array.get", kinds2(r, i), kinds1(r)),
        Entry { name: "string_array.get_many".to_owned(), adapter: Adapter::GetMany },
        Entry { name: "string_array.build".to_owned(), adapter: Adapter::Build },
    ];
    assert(views(list@) =~= string_array_entries());
    list
}

/// The operations on every kind of pooled array.
pub fn pool_list() -> (list: Vec<Entry>)
    ensures
        views(list@) == pool_entries(pool_names().len() as int),
{
    let names = pool_name_list();
    let r = ValType::Externref;
    let i = ValType::I32;
    let mut list: Vec<Entry> = Vec::new();
    let n = names.len();
    let mut k: usize = 0;
    assert(views(list@) =~= pool_entries(0));
    while k < n
        invariant
            k <= n,
            n == names@.len(),
            names@ == pool_names(),
            r == ValType::Externref,
            i == ValType::I32,
            views(list@) == pool_entries(k as int),
        decreases n - k,
    {
        let name = names[k];
        let more: Vec<Entry> = vec![
            object_entry(joined(name, ".len").as_str(), kinds1(r), kinds1(i)),
            object_entry(joined(name, ".read").as_str(), kinds2(r, i), kinds1(i)),
            object_entry(joined(name, ".write").as_str(), kinds2(i, i), kinds1(r)),
        ];
        assert(views(more@) =~= pool_entries_of(name@));
        extend(&mut list, more);
        k += 1;
    }
    list
}

/// The operations on every kind of primitive.
pub fn primitive_list() -> (list: Vec<Entry>)
    ensures
        views(list@) == primitive_entries(primitive_names().len() as int),
{
    let names = primitive_name_list();
    let r = ValType::Externref;
    let i = ValType::I32;
    let mut list: Vec<Entry> = Vec::new();
    let n = names.len();
    let mut k: usize = 0;
    assert(views(list@) =~= primitive_entries(0));
    while k < n
        invariant
            k <= n,
            n == names@.len(),
            names@ == primitive_names(),
            r == ValType::Externref,
            i == ValType::I32,
            views(list@) == primitive_entries(k as int),
        decreases n - k,
    {
        let name = names[k];
        let more: Vec<Entry> = vec![
            value_entry(joined(name, ".read").as_str(), kinds2(r, i), kinds1(i)),
            value_entry(joined(name, ".write").as_str(), kinds1(i), kinds1(r)),
        ];
        assert(views(more@) =~= primitive_entries_of(name@));
        extend(&mut list, more);
        k += 1;
    }
    list
}

/// The tests for every kind of value.
pub fn typeis_list() -> (list: Vec<Entry>)
    ensures
        views(list@) == typeis_entries(type_names().len() as int),
{
    let names = type_name_list();
    let mut list: Vec<Entry> = Vec::new();
    let n = names.len();
    let mut k: usize = 0;
    assert(views(list@) =~= typeis_entries(0));
    while k < n
        invariant
            k <= n,
            n == names@.len(),
            names@ == type_names(),
            views(list@) == typeis_entries(k as int),
        decreases n - k,
    {
        let name = names[k];
        let ghost before = list@;
        let entry = value_entry(
            joined(name, ".is").as_str(),
            kinds1(ValType::Externref),
            kinds1(ValType::I32),
        );
        assert(entry@ == typeis_entry_of(name@));
        list.push(entry);
        assert(views(list@) =~= views(before).push(typeis_entry_of(name@)));
        k += 1;
    }
    list
}

/// Every operation of the host that the rewriting knows, in the order in
/// which it looks for them.
pub fn catalogue() -> (list: Vec<Entry>)
    ensures
        views(list@) == catalogue_entries(),
{
    let mut list = array_list();
    extend(&mut list, other_list());
    extend(&mut list, pool_list());
    extend(&mut list, primitive_list());
    extend(&mut list, string_list());
    extend(&mut list, string_array_list());
    extend(&mut list, typeis_list());
    list
}

} // verus!
