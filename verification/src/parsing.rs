//! The schema-driven decode engine: schema descriptors, the recursive
//! structural decoder, and the value types it produces.

pub mod array_types;
pub mod errors;
pub mod parse_utils;
pub mod python_types;
pub mod transpose_types;

use vstd::prelude::*;

use crate::parsing::array_types::{
    array_view_wf, decode_array, decode_array_spec, Array, ArrayView, BoolArray, F32Bits, F64Bits,
};
use crate::parsing::errors::{kind_of, DecodeError, ErrView, ValueKind};
use crate::parsing::python_types::{
    dyn_entries_view, dyn_items_view, dyn_view, DynView, PythonType,
};
use crate::parsing::transpose_types::{
    assoc_index, lemma_assoc_index, transpose_keyed, transpose_keyed_spec, transpose_rows,
    transpose_rows_spec,
};

verus! {

/// The element type a schema leaf declares.
///
/// The eleven typed kinds (`int8` through `bool_`) route to a typed column
/// builder performing checked narrowing; the remaining kinds (`int`,
/// `float`, `str`, `bool`, `list`, `dict`, `any`) opt out of typed-array
/// decoding and pass the input subtree through verbatim.
#[derive(Clone, Copy, Debug, PartialEq, Eq, Structural)]
#[allow(non_camel_case_types)]
pub enum InputTypes {
    int8,
    int16,
    int32,
    int64,
    uint8,
    uint16,
    uint32,
    uint64,
    float32,
    float64,
    bool_,
    int_,
    float,
    str,
    bool,
    list,
    dict,
    any,
}

impl DeepView for InputTypes {
    type V = InputTypes;

    open spec fn deep_view(&self) -> InputTypes {
        *self
    }
}

/// The leaf token recognized for each name, `None` for an unknown token
/// (model level).
pub open spec fn token_spec(s: Seq<char>) -> Option<InputTypes> {
    if s == "int8"@ {
        Some(InputTypes::int8)
    } else if s == "int16"@ {
        Some(InputTypes::int16)
    } else if s == "int32"@ {
        Some(InputTypes::int32)
    } else if s == "int64"@ {
        Some(InputTypes::int64)
    } else if s == "uint8"@ {
        Some(InputTypes::uint8)
    } else if s == "uint16"@ {
        Some(InputTypes::uint16)
    } else if s == "uint32"@ {
        Some(InputTypes::uint32)
    } else if s == "uint64"@ {
        Some(InputTypes::uint64)
    } else if s == "float32"@ {
        Some(InputTypes::float32)
    } else if s == "float64"@ {
        Some(InputTypes::float64)
    } else if s == "bool_"@ {
        Some(InputTypes::bool_)
    } else if s == "int"@ {
        Some(InputTypes::int_)
    } else if s == "float"@ {
        Some(InputTypes::float)
    } else if s == "str"@ {
        Some(InputTypes::str)
    } else if s == "bool"@ {
        Some(InputTypes::bool)
    } else if s == "list"@ {
        Some(InputTypes::list)
    } else if s == "dict"@ {
        Some(InputTypes::dict)
    } else if s == "any"@ {
        Some(InputTypes::any)
    } else {
        None
    }
}

/// Character-for-character string equality.
fn str_eq(a: &str, b: &str) -> (r: bool)
    ensures
        r == (a@ == b@),
{
    let a_owned = <String as vstd::string::StringExecFns>::from_str(a);
    let b_owned = <String as vstd::string::StringExecFns>::from_str(b);
    a_owned == b_owned
}

impl InputTypes {
    /// Parses a dtype name token.  Returns `UnsupportedType` exactly on the
    /// tokens that `token_spec` does not recognize.
    pub fn from_str(s: &str) -> (r: Result<InputTypes, DecodeError>)
        ensures
            match r {
                Ok(t) => token_spec(s@) == Some(t),
                Err(e) => token_spec(s@) is None && e.deep_view() == (ErrView::UnsupportedType {
                    token: s@,
                }),
            },
    {
        if str_eq(s, "int8") {
            Ok(InputTypes::int8)
        } else if str_eq(s, "int16") {
            Ok(InputTypes::int16)
        } else if str_eq(s, "int32") {
            Ok(InputTypes::int32)
        } else if str_eq(s, "int64") {
            Ok(InputTypes::int64)
        } else if str_eq(s, "uint8") {
            Ok(InputTypes::uint8)
        } else if str_eq(s, "uint16") {
            Ok(InputTypes::uint16)
        } else if str_eq(s, "uint32") {
            Ok(InputTypes::uint32)
        } else if str_eq(s, "uint64") {
            Ok(InputTypes::uint64)
        } else if str_eq(s, "float32") {
            Ok(InputTypes::float32)
        } else if str_eq(s, "float64") {
            Ok(InputTypes::float64)
        } else if str_eq(s, "bool_") {
            Ok(InputTypes::bool_)
        } else if str_eq(s, "int") {
            Ok(InputTypes::int_)
        } else if str_eq(s, "float") {
            Ok(InputTypes::float)
        } else if str_eq(s, "str") {
            Ok(InputTypes::str)
        } else if str_eq(s, "bool") {
            Ok(InputTypes::bool)
        } else if str_eq(s, "list") {
            Ok(InputTypes::list)
        } else if str_eq(s, "dict") {
            Ok(InputTypes::dict)
        } else if str_eq(s, "any") {
            Ok(InputTypes::any)
        } else {
            Err(DecodeError::UnsupportedType { token: s.to_string() })
        }
    }
}

/// One node of a schema: a typed leaf, a positional tuple, a row-oriented
/// sequence (positional or keyed), or a named object.
#[derive(Debug, PartialEq)]
pub enum Structure {
    ListofList(Vec<Vec<InputTypes>>),
    ListofMap(Vec<Vec<(String, InputTypes)>>),
    List(Vec<InputTypes>),
    Object(Vec<(String, Structure)>),
    Type(InputTypes),
}

/// The mathematical model of a [`Structure`].
pub ghost enum StructView {
    ListofList(Seq<Seq<InputTypes>>),
    ListofMap(Seq<Seq<(Seq<char>, InputTypes)>>),
    List(Seq<InputTypes>),
    Object(Seq<(Seq<char>, StructView)>),
    Type(InputTypes),
}

/// The model of a sequence of named schema fields.
pub open spec fn field_entries_view(fields: Seq<(String, Structure)>) -> Seq<
    (Seq<char>, StructView),
>
    decreases fields,
{
    Seq::new(
        fields.len(),
        |i: int|
            if 0 <= i < fields.len() {
                (fields[i].0@, struct_view(fields[i].1))
            } else {
                (Seq::empty(), StructView::Type(InputTypes::any))
            },
    )
}

/// The model of a schema node (the recursion behind
/// [`Structure::deep_view`]).
pub open spec fn struct_view(s: Structure) -> StructView
    decreases s,
{
    match s {
        Structure::ListofList(rows) => StructView::ListofList(rows.deep_view()),
        Structure::ListofMap(rows) => StructView::ListofMap(rows.deep_view()),
        Structure::List(kinds) => StructView::List(kinds.deep_view()),
        Structure::Object(fields) => StructView::Object(field_entries_view(fields@)),
        Structure::Type(t) => StructView::Type(t),
    }
}

impl DeepView for Structure {
    type V = StructView;

    open spec fn deep_view(&self) -> StructView {
        struct_view(*self)
    }
}

/// A complete schema: the root [`Structure`] driving one decode.
#[derive(Debug, PartialEq)]
pub struct StructureDescriptor {
    pub data: Structure,
}

impl DeepView for StructureDescriptor {
    type V = StructView;

    open spec fn deep_view(&self) -> StructView {
        self.data.deep_view()
    }
}

/// A decoded value: one typed buffer per numeric kind, a boolean buffer, a
/// verbatim passthrough value, a list of passthrough values (a transposed
/// dynamic column), and the tuple and object containers.
#[derive(Debug, PartialEq)]
pub enum OutputTypes {
    I8(Array<i8>),
    I16(Array<i16>),
    I32(Array<i32>),
    I64(Array<i64>),
    U8(Array<u8>),
    U16(Array<u16>),
    U32(Array<u32>),
    U64(Array<u64>),
    F32(Array<F32Bits>),
    F64(Array<F64Bits>),
    Bool(BoolArray),
    PythonType(PythonType),
    PyList(Vec<PythonType>),
    List(Vec<OutputTypes>),
    Dict(Vec<(String, OutputTypes)>),
}

/// The mathematical model of an [`OutputTypes`].
pub ghost enum OutView {
    I8(ArrayView<i8>),
    I16(ArrayView<i16>),
    I32(ArrayView<i32>),
    I64(ArrayView<i64>),
    U8(ArrayView<u8>),
    U16(ArrayView<u16>),
    U32(ArrayView<u32>),
    U64(ArrayView<u64>),
    F32(ArrayView<F32Bits>),
    F64(ArrayView<F64Bits>),
    Bool(ArrayView<bool>),
    PythonType(DynView),
    PyList(Seq<DynView>),
    List(Seq<OutView>),
    Dict(Seq<(Seq<char>, OutView)>),
}

/// The model of a decoded value (the recursion behind
/// [`OutputTypes::deep_view`]).
pub open spec fn out_view(o: OutputTypes) -> OutView
    decreases o,
{
    match o {
        OutputTypes::I8(a) => OutView::I8(a.deep_view()),
        OutputTypes::I16(a) => OutView::I16(a.deep_view()),
        OutputTypes::I32(a) => OutView::I32(a.deep_view()),
        OutputTypes::I64(a) => OutView::I64(a.deep_view()),
        OutputTypes::U8(a) => OutView::U8(a.deep_view()),
        OutputTypes::U16(a) => OutView::U16(a.deep_view()),
        OutputTypes::U32(a) => OutView::U32(a.deep_view()),
        OutputTypes::U64(a) => OutView::U64(a.deep_view()),
        OutputTypes::F32(a) => OutView::F32(a.deep_view()),
        OutputTypes::F64(a) => OutView::F64(a.deep_view()),
        OutputTypes::Bool(a) => OutView::Bool(a.deep_view()),
        OutputTypes::PythonType(p) => OutView::PythonType(dyn_view(p)),
        OutputTypes::PyList(items) => OutView::PyList(dyn_items_view(items@)),
        OutputTypes::List(items) => OutView::List(out_items_view(items@)),
        OutputTypes::Dict(entries) => OutView::Dict(out_entries_view(entries@)),
    }
}

/// The model of a sequence of decoded values.
pub open spec fn out_items_view(items: Seq<OutputTypes>) -> Seq<OutView>
    decreases items,
{
    Seq::new(
        items.len(),
        |i: int|
            if 0 <= i < items.len() {
                out_view(items[i])
            } else {
                OutView::PythonType(DynView::Null)
            },
    )
}

/// The model of a sequence of named decoded entries.
pub open spec fn out_entries_view(entries: Seq<(String, OutputTypes)>) -> Seq<(Seq<char>, OutView)>
    decreases entries,
{
    Seq::new(
        entries.len(),
        |i: int|
            if 0 <= i < entries.len() {
                (entries[i].0@, out_view(entries[i].1))
            } else {
                (Seq::empty(), OutView::PythonType(DynView::Null))
            },
    )
}

impl DeepView for OutputTypes {
    type V = OutView;

    open spec fn deep_view(&self) -> OutView {
        out_view(*self)
    }
}

/// A well-formed decoded value: every dense buffer anywhere in the tree
/// carries a shape whose product equals its element count.
pub open spec fn out_wf(o: OutView) -> bool
    decreases o,
{
    match o {
        OutView::I8(a) => array_view_wf(a),
        OutView::I16(a) => array_view_wf(a),
        OutView::I32(a) => array_view_wf(a),
        OutView::I64(a) => array_view_wf(a),
        OutView::U8(a) => array_view_wf(a),
        OutView::U16(a) => array_view_wf(a),
        OutView::U32(a) => array_view_wf(a),
        OutView::U64(a) => array_view_wf(a),
        OutView::F32(a) => array_view_wf(a),
        OutView::F64(a) => array_view_wf(a),
        OutView::Bool(a) => array_view_wf(a),
        OutView::PythonType(_) => true,
        OutView::PyList(_) => true,
        OutView::List(items) => forall|i: int|
            0 <= i < items.len() ==> out_wf(#[trigger] items[i]),
        OutView::Dict(entries) => forall|i: int|
            0 <= i < entries.len() ==> out_wf((#[trigger] entries[i]).1),
    }
}

/// Whether a schema kind routes to dynamic passthrough rather than to a
/// typed buffer.
pub open spec fn is_dynamic(t: InputTypes) -> bool {
    match t {
        InputTypes::int_ => true,
        InputTypes::float => true,
        InputTypes::str => true,
        InputTypes::bool => true,
        InputTypes::list => true,
        InputTypes::dict => true,
        InputTypes::any => true,
        _ => false,
    }
}

/// What decoding one value against a schema leaf yields: a typed buffer
/// for the eleven typed kinds, the verbatim subtree for the dynamic kinds.
pub open spec fn decode_leaf_spec(t: InputTypes, v: DynView) -> Result<OutView, ErrView> {
    match t {
        InputTypes::int8 => match decode_array_spec::<i8>(v) {
            Ok(a) => Ok(OutView::I8(a)),
            Err(e) => Err(e),
        },
        InputTypes::int16 => match decode_array_spec::<i16>(v) {
            Ok(a) => Ok(OutView::I16(a)),
            Err(e) => Err(e),
        },
        InputTypes::int32 => match decode_array_spec::<i32>(v) {
            Ok(a) => Ok(OutView::I32(a)),
            Err(e) => Err(e),
        },
        InputTypes::int64 => match decode_array_spec::<i64>(v) {
            Ok(a) => Ok(OutView::I64(a)),
            Err(e) => Err(e),
        },
        InputTypes::uint8 => match decode_array_spec::<u8>(v) {
            Ok(a) => Ok(OutView::U8(a)),
            Err(e) => Err(e),
        },
        InputTypes::uint16 => match decode_array_spec::<u16>(v) {
            Ok(a) => Ok(OutView::U16(a)),
            Err(e) => Err(e),
        },
        InputTypes::uint32 => match decode_array_spec::<u32>(v) {
            Ok(a) => Ok(OutView::U32(a)),
            Err(e) => Err(e),
        },
        InputTypes::uint64 => match decode_array_spec::<u64>(v) {
            Ok(a) => Ok(OutView::U64(a)),
            Err(e) => Err(e),
        },
        InputTypes::float32 => match decode_array_spec::<F32Bits>(v) {
            Ok(a) => Ok(OutView::F32(a)),
            Err(e) => Err(e),
        },
        InputTypes::float64 => match decode_array_spec::<F64Bits>(v) {
            Ok(a) => Ok(OutView::F64(a)),
            Err(e) => Err(e),
        },
        InputTypes::bool_ => match decode_array_spec::<bool>(v) {
            Ok(a) => Ok(OutView::Bool(a)),
            Err(e) => Err(e),
        },
        _ => Ok(OutView::PythonType(v)),
    }
}

/// A verbatim copy of a dynamic value.
pub fn clone_value(v: &PythonType) -> (r: PythonType)
    ensures
        r.deep_view() == v.deep_view(),
    decreases v,
{
    match v {
        PythonType::Null => PythonType::Null,
        PythonType::Bool(b) => PythonType::Bool(*b),
        PythonType::Number(n) => PythonType::Number(*n),
        PythonType::Str(s) => PythonType::Str(s.clone()),
        PythonType::List(elems) => {
            let n = elems.len();
            let mut out: Vec<PythonType> = Vec::new();
            let mut i: usize = 0;
            while i < n
                invariant
                    i <= n,
                    n == elems@.len(),
                    *v == PythonType::List(*elems),
                    out@.len() == i,
                    forall|j: int|
                        0 <= j < i ==> #[trigger] dyn_view(out@[j]) == dyn_view(elems@[j]),
                decreases n - i,
            {
                proof {
                    assert(*elems == v->List_0);
                    assert(decreases_to!(*v => v->List_0));
                    assert(decreases_to!(*elems => elems@));
                    assert(decreases_to!(elems@ => elems@[i as int]));
                }
                let c = clone_value(&elems[i]);
                out.push(c);
                i += 1;
            }
            let ghost out_snap = out@;
            let r = PythonType::List(out);
            proof {
                let lhs = r.deep_view()->List_0;
                let rhs = v.deep_view()->List_0;
                assert forall|j: int| 0 <= j < n implies lhs[j] == #[trigger] rhs[j] by {
                    assert(dyn_view(out_snap[j]) == dyn_view(elems@[j]));
                    assert(lhs[j] == dyn_view(out_snap[j]));
                }
                assert(lhs =~= rhs);
            }
            r
        }
        PythonType::Dict(entries) => {
            let n = entries.len();
            let mut out: Vec<(String, PythonType)> = Vec::new();
            let mut i: usize = 0;
            while i < n
                invariant
                    i <= n,
                    n == entries@.len(),
                    *v == PythonType::Dict(*entries),
                    out@.len() == i,
                    forall|j: int|
                        0 <= j < i ==> out@[j].0@ == entries@[j].0@ && #[trigger] dyn_view(
                            out@[j].1,
                        ) == dyn_view(entries@[j].1),
                decreases n - i,
            {
                proof {
                    assert(*entries == v->Dict_0);
                    assert(decreases_to!(*v => v->Dict_0));
                    assert(decreases_to!(*entries => entries@));
                    assert(decreases_to!(entries@ => entries@[i as int]));
                    assert(decreases_to!(entries@[i as int] => entries@[i as int].1));
                }
                let entry = &entries[i];
                let k = entry.0.clone();
                let c = clone_value(&entry.1);
                out.push((k, c));
                i += 1;
            }
            let ghost out_snap = out@;
            let r = PythonType::Dict(out);
            proof {
                reveal_with_fuel(dyn_view, 2);
                reveal_with_fuel(dyn_entries_view, 2);
                let lhs = r.deep_view()->Dict_0;
                let rhs = v.deep_view()->Dict_0;
                assert forall|j: int| 0 <= j < n implies lhs[j] == #[trigger] rhs[j] by {
                    reveal_with_fuel(dyn_entries_view, 2);
                    assert(dyn_view(out_snap[j].1) == dyn_view(entries@[j].1));
                    assert(lhs[j] == (out_snap[j].0@, dyn_view(out_snap[j].1)));
                    assert(rhs[j] == (entries@[j].0@, dyn_view(entries@[j].1)));
                }
                assert(lhs =~= rhs);
            }
            r
        }
    }
}

/// Decodes one value against a schema leaf: the eleven typed kinds invoke
/// the matching typed builder; the dynamic kinds copy the subtree verbatim.
pub fn decode_leaf(t: InputTypes, v: &PythonType) -> (r: Result<OutputTypes, DecodeError>)
    ensures
        match r {
            Ok(o) => decode_leaf_spec(t, v.deep_view()) == Ok::<OutView, ErrView>(o.deep_view()),
            Err(e) => decode_leaf_spec(t, v.deep_view()) == Err::<OutView, ErrView>(e.deep_view()),
        },
{
    match t {
        InputTypes::int8 => match decode_array::<i8>(v) {
            Ok(a) => Ok(OutputTypes::I8(a)),
            Err(e) => Err(e),
        },
        InputTypes::int16 => match decode_array::<i16>(v) {
            Ok(a) => Ok(OutputTypes::I16(a)),
            Err(e) => Err(e),
        },
        InputTypes::int32 => match decode_array::<i32>(v) {
            Ok(a) => Ok(OutputTypes::I32(a)),
            Err(e) => Err(e),
        },
        InputTypes::int64 => match decode_array::<i64>(v) {
            Ok(a) => Ok(OutputTypes::I64(a)),
            Err(e) => Err(e),
        },
        InputTypes::uint8 => match decode_array::<u8>(v) {
            Ok(a) => Ok(OutputTypes::U8(a)),
            Err(e) => Err(e),
        },
        InputTypes::uint16 => match decode_array::<u16>(v) {
            Ok(a) => Ok(OutputTypes::U16(a)),
            Err(e) => Err(e),
        },
        InputTypes::uint32 => match decode_array::<u32>(v) {
            Ok(a) => Ok(OutputTypes::U32(a)),
            Err(e) => Err(e),
        },
        InputTypes::uint64 => match decode_array::<u64>(v) {
            Ok(a) => Ok(OutputTypes::U64(a)),
            Err(e) => Err(e),
        },
        InputTypes::float32 => match decode_array::<F32Bits>(v) {
            Ok(a) => Ok(OutputTypes::F32(a)),
            Err(e) => Err(e),
        },
        InputTypes::float64 => match decode_array::<F64Bits>(v) {
            Ok(a) => Ok(OutputTypes::F64(a)),
            Err(e) => Err(e),
        },
        InputTypes::bool_ => match decode_array::<bool>(v) {
            Ok(a) => Ok(OutputTypes::Bool(a)),
            Err(e) => Err(e),
        },
        _ => Ok(OutputTypes::PythonType(clone_value(v))),
    }
}

/// Replacing the value of the first entry bearing `key`, or appending a
/// new entry when none does.
pub open spec fn upsert<V>(s: Seq<(Seq<char>, V)>, key: Seq<char>, val: V) -> Seq<
    (Seq<char>, V),
> {
    let j = assoc_index(s, key);
    if 0 <= j < s.len() {
        s.update(j, (key, val))
    } else {
        s.push((key, val))
    }
}

/// The names of the first `i` declared fields that the input did not
/// provide, in declared order.
pub open spec fn missing_keys(
    fields: Seq<(Seq<char>, StructView)>,
    out: Seq<(Seq<char>, OutView)>,
    i: int,
) -> Seq<Seq<char>>
    decreases i,
{
    if i <= 0 {
        Seq::empty()
    } else {
        missing_keys(fields, out, i - 1) + if assoc_index(out, fields[i - 1].0) == -1 {
            seq![fields[i - 1].0]
        } else {
            Seq::empty()
        }
    }
}

/// Decoding the first `i` slots of a tuple: slot `k` decodes the input
/// element at position `k` against the `k`-th declared kind; an input
/// sequence shorter than the declared kinds is `SequenceExhausted`
/// (trailing extra elements are ignored).
pub open spec fn decode_tuple_prefix(
    kinds: Seq<InputTypes>,
    elems: Seq<DynView>,
    i: int,
) -> Result<Seq<OutView>, ErrView>
    decreases i,
{
    if i <= 0 {
        Ok(Seq::empty())
    } else {
        match decode_tuple_prefix(kinds, elems, i - 1) {
            Err(e) => Err(e),
            Ok(out) => if i - 1 >= elems.len() {
                Err(
                    ErrView::SequenceExhausted {
                        expected: kinds.len() as int,
                        found: elems.len() as int,
                    },
                )
            } else {
                match decode_leaf_spec(kinds[i - 1], elems[i - 1]) {
                    Err(e) => Err(e),
                    Ok(o) => Ok(out.push(o)),
                }
            },
        }
    }
}

/// Walking an object's input entries in order: an entry bearing a
/// declared field name decodes against that field's schema node (a later
/// entry with the same name overwrites an earlier one); other entries are
/// ignored entirely.
pub open spec fn decode_object_entries(
    fields: Seq<(Seq<char>, StructView)>,
    entries: Seq<(Seq<char>, DynView)>,
) -> Result<Seq<(Seq<char>, OutView)>, ErrView>
    decreases fields, entries.len(),
{
    if entries.len() == 0 {
        Ok(Seq::empty())
    } else {
        match decode_object_entries(fields, entries.drop_last()) {
            Err(e) => Err(e),
            Ok(out) => {
                let key = entries.last().0;
                let val = entries.last().1;
                let j = assoc_index(fields, key);
                if 0 <= j < fields.len() {
                    match decode_spec(fields[j].1, val) {
                        Err(e) => Err(e),
                        Ok(o) => Ok(upsert(out, key, o)),
                    }
                } else {
                    Ok(out)
                }
            },
        }
    }
}

/// What decoding one dynamic value against one schema node yields.
///
/// This is the engine's whole behavior: a leaf invokes the typed builder
/// or the passthrough; an object walks the input's entries against its
/// declared fields and then requires every declared field to have been
/// provided; a tuple decodes by position; a row-oriented node transposes
/// the input rows into columns.  The first error, in input order, aborts
/// the decode.
pub open spec fn decode_spec(s: StructView, v: DynView) -> Result<OutView, ErrView>
    decreases s, 0int,
{
    match s {
        StructView::Type(t) => decode_leaf_spec(t, v),
        StructView::List(kinds) => match v {
            DynView::List(elems) => match decode_tuple_prefix(kinds, elems, kinds.len() as int) {
                Ok(out) => Ok(OutView::List(out)),
                Err(e) => Err(e),
            },
            _ => Err(ErrView::SchemaMismatch { expected: ValueKind::List, found: kind_of(v) }),
        },
        StructView::Object(fields) => match v {
            DynView::Dict(entries) => match decode_object_entries(fields, entries) {
                Err(e) => Err(e),
                Ok(out) => {
                    let missing = missing_keys(fields, out, fields.len() as int);
                    if missing.len() == 0 {
                        Ok(OutView::Dict(out))
                    } else {
                        Err(ErrView::MissingKeys { keys: missing })
                    }
                },
            },
            _ => Err(ErrView::SchemaMismatch { expected: ValueKind::Dict, found: kind_of(v) }),
        },
        StructView::ListofList(template) => match v {
            DynView::List(rows) => {
                let cols = if template.len() > 0 {
                    template[0]
                } else {
                    Seq::empty()
                };
                match transpose_rows_spec(cols, rows) {
                    Ok(state) => Ok(OutView::List(state)),
                    Err(e) => Err(e),
                }
            },
            _ => Err(ErrView::SchemaMismatch { expected: ValueKind::List, found: kind_of(v) }),
        },
        StructView::ListofMap(template) => match v {
            DynView::List(rows) => {
                let cols = if template.len() > 0 {
                    template[0]
                } else {
                    Seq::empty()
                };
                match transpose_keyed_spec(cols, rows) {
                    Ok(state) => Ok(
                        OutView::Dict(Seq::new(cols.len(), |i: int| (cols[i].0, state[i]))),
                    ),
                    Err(e) => Err(e),
                }
            },
            _ => Err(ErrView::SchemaMismatch { expected: ValueKind::List, found: kind_of(v) }),
        },
    }
}

/// An error among the first `i` slots of a tuple is the error of the
/// whole tuple.
proof fn lemma_tuple_prefix_err(kinds: Seq<InputTypes>, elems: Seq<DynView>, i: int, m: int)
    requires
        0 <= i <= m,
        decode_tuple_prefix(kinds, elems, i) is Err,
    ensures
        decode_tuple_prefix(kinds, elems, m) == decode_tuple_prefix(kinds, elems, i),
    decreases m,
{
    if m > i {
        lemma_tuple_prefix_err(kinds, elems, i, m - 1);
    }
}

/// An error among the first `i` entries of an object is the error of the
/// whole object's walk.
proof fn lemma_object_entries_err(
    fields: Seq<(Seq<char>, StructView)>,
    entries: Seq<(Seq<char>, DynView)>,
    i: int,
)
    requires
        0 <= i <= entries.len(),
        decode_object_entries(fields, entries.take(i)) is Err,
    ensures
        decode_object_entries(fields, entries) == decode_object_entries(fields, entries.take(i)),
    decreases entries.len(),
{
    if i == entries.len() {
        assert(entries.take(i) =~= entries);
    } else {
        assert(entries.drop_last().take(i) =~= entries.take(i));
        lemma_object_entries_err(fields, entries.drop_last(), i);
    }
}

/// Looks up a declared field by name (first declaration wins).
fn find_field<'a>(fields: &'a Vec<(String, Structure)>, key: &String) -> (r: Option<
    &'a Structure,
>)
    ensures
        ({
            let fv = field_entries_view(fields@);
            let j = assoc_index(fv, key@);
            match r {
                Some(f) => 0 <= j < fields@.len() && *f == fields@[j].1,
                None => j == -1,
            }
        }),
{
    let ghost fv = field_entries_view(fields@);
    let n = fields.len();
    let mut i: usize = 0;
    while i < n
        invariant
            i <= n,
            n == fields@.len(),
            fv == field_entries_view(fields@),
            fv.len() == n,
            forall|j: int| 0 <= j < i ==> (#[trigger] fv[j]).0 != key@,
        decreases n - i,
    {
        if fields[i].0 == *key {
            proof {
                assert(fv[i as int].0 == key@);
                lemma_assoc_index(fv, key@);
            }
            return Some(&fields[i].1);
        }
        proof {
            assert(fv[i as int].0 == fields@[i as int].0@);
        }
        i += 1;
    }
    proof {
        lemma_assoc_index(fv, key@);
    }
    None
}

/// Whether a decoded entry bearing `key` exists.
fn contains_entry(out: &Vec<(String, OutputTypes)>, key: &String) -> (r: bool)
    ensures
        r == (assoc_index(out_entries_view(out@), key@) != -1),
{
    let ghost ov = out_entries_view(out@);
    let n = out.len();
    let mut i: usize = 0;
    while i < n
        invariant
            i <= n,
            n == out@.len(),
            ov == out_entries_view(out@),
            ov.len() == n,
            forall|j: int| 0 <= j < i ==> (#[trigger] ov[j]).0 != key@,
        decreases n - i,
    {
        if out[i].0 == *key {
            proof {
                assert(ov[i as int].0 == key@);
                lemma_assoc_index(ov, key@);
            }
            return true;
        }
        proof {
            assert(ov[i as int].0 == out@[i as int].0@);
        }
        i += 1;
    }
    proof {
        lemma_assoc_index(ov, key@);
    }
    false
}

/// Stores a decoded field value: replaces the first entry bearing the
/// name, or appends a new entry.
fn upsert_entry(out: &mut Vec<(String, OutputTypes)>, key: String, val: OutputTypes)
    ensures
        out_entries_view(final(out)@) == upsert(
            out_entries_view(old(out)@),
            key@,
            out_view(val),
        ),
{
    let ghost ov = out_entries_view(old(out)@);
    let n = out.len();
    let mut i: usize = 0;
    while i < n
        invariant
            i <= n,
            n == out@.len(),
            out@ == old(out)@,
            ov == out_entries_view(out@),
            ov.len() == n,
            forall|j: int| 0 <= j < i ==> (#[trigger] ov[j]).0 != key@,
        decreases n - i,
    {
        if out[i].0 == key {
            proof {
                assert(ov[i as int].0 == key@);
                lemma_assoc_index(ov, key@);
            }
            out.set(i, (key, val));
            proof {
                assert(out_entries_view(out@) =~= ov.update(i as int, (key@, out_view(val))));
            }
            return;
        }
        proof {
            assert(ov[i as int].0 == out@[i as int].0@);
        }
        i += 1;
    }
    proof {
        lemma_assoc_index(ov, key@);
    }
    out.push((key, val));
    proof {
        assert(out_entries_view(out@) =~= ov.push((key@, out_view(val))));
    }
}

/// Decodes one dynamic value against one schema node; the decoder walks
/// schema and input in lockstep, producing the whole decoded tree or the
/// first error in input order.
pub fn decode_structure(s: &Structure, v: &PythonType) -> (r: Result<OutputTypes, DecodeError>)
    ensures
        match r {
            Ok(o) => decode_spec(s.deep_view(), v.deep_view()) == Ok::<OutView, ErrView>(
                o.deep_view(),
            ),
            Err(e) => decode_spec(s.deep_view(), v.deep_view()) == Err::<OutView, ErrView>(
                e.deep_view(),
            ),
        },
    decreases s,
{
    match s {
        Structure::Type(t) => decode_leaf(*t, v),
        Structure::List(kinds) => match v {
            PythonType::List(elems) => {
                let ghost kv = kinds.deep_view();
                let ghost ev = dyn_view(*v)->List_0;
                proof {
                    assert(kv =~= kinds@);
                }
                let nk = kinds.len();
                let mut out_list: Vec<OutputTypes> = Vec::new();
                let mut i: usize = 0;
                proof {
                    assert(out_items_view(out_list@) =~= Seq::<OutView>::empty());
                }
                while i < nk
                    invariant
                        i <= nk,
                        nk == kinds@.len(),
                        kv == kinds.deep_view(),
                        kv =~= kinds@,
                        *s == Structure::List(*kinds),
                        *v == PythonType::List(*elems),
                        ev == dyn_items_view(elems@),
                        ev.len() == elems@.len(),
                        out_list@.len() == i,
                        decode_tuple_prefix(kv, ev, i as int) == Ok::<Seq<OutView>, ErrView>(
                            out_items_view(out_list@),
                        ),
                    decreases nk - i,
                {
                    if i >= elems.len() {
                        proof {
                            assert(decode_tuple_prefix(kv, ev, i as int + 1) == Err::<
                                Seq<OutView>,
                                ErrView,
                            >(
                                ErrView::SequenceExhausted {
                                    expected: kv.len() as int,
                                    found: ev.len() as int,
                                },
                            ));
                            lemma_tuple_prefix_err(kv, ev, i as int + 1, nk as int);
                        }
                        return Err(
                            DecodeError::SequenceExhausted {
                                expected: kinds.len(),
                                found: elems.len(),
                            },
                        );
                    }
                    proof {
                        assert(ev[i as int] == dyn_view(elems@[i as int]));
                        assert(kv[i as int] == kinds@[i as int]);
                    }
                    let ghost pre = out_items_view(out_list@);
                    match decode_leaf(kinds[i], &elems[i]) {
                        Ok(o) => {
                            let ghost ov = o.deep_view();
                            out_list.push(o);
                            proof {
                                assert(out_items_view(out_list@) =~= pre.push(ov));
                            }
                            i += 1;
                        }
                        Err(e) => {
                            proof {
                                assert(decode_tuple_prefix(kv, ev, i as int + 1) == Err::<
                                    Seq<OutView>,
                                    ErrView,
                                >(e.deep_view()));
                                lemma_tuple_prefix_err(kv, ev, i as int + 1, nk as int);
                            }
                            return Err(e);
                        }
                    }
                }
                Ok(OutputTypes::List(out_list))
            }
            _ => Err(
                DecodeError::SchemaMismatch {
                    expected: ValueKind::List,
                    found: crate::parsing::errors::value_kind(v),
                },
            ),
        },
        Structure::Object(fields) => match v {
            PythonType::Dict(entries) => {
                let ghost fv = field_entries_view(fields@);
                let ghost evs = dyn_view(*v)->Dict_0;
                let n = entries.len();
                let mut out: Vec<(String, OutputTypes)> = Vec::new();
                let mut i: usize = 0;
                proof {
                    assert(evs.take(0) =~= Seq::<(Seq<char>, DynView)>::empty());
                    assert(out_entries_view(out@) =~= Seq::<(Seq<char>, OutView)>::empty());
                }
                while i < n
                    invariant
                        i <= n,
                        n == entries@.len(),
                        *s == Structure::Object(*fields),
                        *v == PythonType::Dict(*entries),
                        fv == field_entries_view(fields@),
                        fv.len() == fields@.len(),
                        evs == dyn_entries_view(entries@),
                        evs.len() == n,
                        decode_object_entries(fv, evs.take(i as int)) == Ok::<
                            Seq<(Seq<char>, OutView)>,
                            ErrView,
                        >(out_entries_view(out@)),
                    decreases n - i,
                {
                    let entry = &entries[i];
                    proof {
                        assert(evs[i as int] == (entry.0@, dyn_view(entry.1)));
                        assert(evs.take(i as int + 1).drop_last() =~= evs.take(i as int));
                        assert(evs.take(i as int + 1).last() == evs[i as int]);
                    }
                    match find_field(fields, &entry.0) {
                        Some(sub) => {
                            let ghost j = assoc_index(fv, entry.0@);
                            proof {
                                assert(*sub == fields@[j].1);
                                assert(fv[j].1 == struct_view(fields@[j].1));
                                assert(decreases_to!(*s => *fields));
                                assert(decreases_to!(*fields => fields@));
                                assert(decreases_to!(fields@ => fields@[j]));
                                assert(decreases_to!(fields@[j] => fields@[j].1));
                            }
                            match decode_structure(sub, &entry.1) {
                                Ok(o) => {
                                    let k = entry.0.clone();
                                    upsert_entry(&mut out, k, o);
                                }
                                Err(e) => {
                                    proof {
                                        assert(decode_object_entries(fv, evs.take(i as int + 1))
                                            == Err::<Seq<(Seq<char>, OutView)>, ErrView>(
                                            e.deep_view(),
                                        ));
                                        lemma_object_entries_err(fv, evs, i as int + 1);
                                    }
                                    return Err(e);
                                }
                            }
                        }
                        None => {
                        }
                    }
                    i += 1;
                }
                proof {
                    assert(evs.take(n as int) =~= evs);
                }
                let ghost outv = out_entries_view(out@);
                let nf = fields.len();
                let mut missing: Vec<String> = Vec::new();
                let mut f: usize = 0;
                while f < nf
                    invariant
                        f <= nf,
                        nf == fields@.len(),
                        fv == field_entries_view(fields@),
                        fv.len() == nf,
                        outv == out_entries_view(out@),
                        missing.deep_view() == missing_keys(fv, outv, f as int),
                    decreases nf - f,
                {
                    let ghost missing_pre = missing.deep_view();
                    proof {
                        assert(fv[f as int].0 == fields@[f as int].0@);
                    }
                    let present = contains_entry(&out, &fields[f].0);
                    if !present {
                        missing.push(fields[f].0.clone());
                        proof {
                            assert(missing.deep_view() =~= missing_pre + seq![fv[f as int].0]);
                            assert(missing.deep_view() =~= missing_keys(fv, outv, f as int + 1));
                        }
                    } else {
                        proof {
                            assert(missing.deep_view() =~= missing_keys(fv, outv, f as int + 1));
                        }
                    }
                    f += 1;
                }
                if missing.len() == 0 {
                    proof {
                        assert(missing_keys(fv, outv, fv.len() as int).len() == 0);
                    }
                    Ok(OutputTypes::Dict(out))
                } else {
                    Err(DecodeError::MissingKeys { keys: missing })
                }
            }
            _ => Err(
                DecodeError::SchemaMismatch {
                    expected: ValueKind::Dict,
                    found: crate::parsing::errors::value_kind(v),
                },
            ),
        },
        Structure::ListofList(template) => match v {
            PythonType::List(rows) => {
                let empty_cols: Vec<InputTypes> = Vec::new();
                let cols: &Vec<InputTypes> = if template.len() > 0 {
                    &template[0]
                } else {
                    &empty_cols
                };
                proof {
                    if template@.len() > 0 {
                        assert(template.deep_view()[0] == template@[0].deep_view());
                    } else {
                        assert(cols.deep_view() =~= Seq::<InputTypes>::empty());
                    }
                }
                match transpose_rows(cols, rows) {
                    Ok(state) => Ok(OutputTypes::List(state)),
                    Err(e) => Err(e),
                }
            }
            _ => Err(
                DecodeError::SchemaMismatch {
                    expected: ValueKind::List,
                    found: crate::parsing::errors::value_kind(v),
                },
            ),
        },
        Structure::ListofMap(template) => match v {
            PythonType::List(rows) => {
                let empty_cols: Vec<(String, InputTypes)> = Vec::new();
                let cols: &Vec<(String, InputTypes)> = if template.len() > 0 {
                    &template[0]
                } else {
                    &empty_cols
                };
                proof {
                    if template@.len() > 0 {
                        assert(template.deep_view()[0] == template@[0].deep_view());
                    } else {
                        assert(cols.deep_view() =~= Seq::<(Seq<char>, InputTypes)>::empty());
                    }
                }
                match transpose_keyed(cols, rows) {
                    Ok(named) => {
                        proof {
                            let colsv = cols.deep_view();
                            let statev = transpose_keyed_spec(
                                colsv,
                                dyn_items_view(rows@),
                            )->Ok_0;
                            assert(out_entries_view(named@) == Seq::new(
                                colsv.len(),
                                |i: int| (colsv[i].0, statev[i]),
                            ));
                        }
                        Ok(OutputTypes::Dict(named))
                    }
                    Err(e) => Err(e),
                }
            }
            _ => Err(
                DecodeError::SchemaMismatch {
                    expected: ValueKind::List,
                    found: crate::parsing::errors::value_kind(v),
                },
            ),
        },
    }
}

impl StructureDescriptor {
    /// Decodes one dynamic document against this schema, producing the
    /// whole decoded tree or the first error in input order — never both.
    /// Every dense buffer of a successful decode carries a shape whose
    /// product equals its element count.
    pub fn deserialize(&self, v: &PythonType) -> (r: Result<OutputTypes, DecodeError>)
        ensures
            match r {
                Ok(o) => decode_spec(self.deep_view(), v.deep_view()) == Ok::<OutView, ErrView>(
                    o.deep_view(),
                ) && out_wf(o.deep_view()),
                Err(e) => decode_spec(self.deep_view(), v.deep_view()) == Err::<OutView, ErrView>(
                    e.deep_view(),
                ),
            },
    {
        let r = decode_structure(&self.data, v);
        proof {
            if r is Ok {
                lemma_decode_wf(self.deep_view(), v.deep_view());
            }
        }
        r
    }
}

/// The token in which the schema grammar reports a structurally malformed
/// description (a non-string leaf, an empty or mixed sequence).
pub open spec fn bad_structure_token() -> Seq<char> {
    "unsupported structure"@
}

/// Parsing the first `i` leaf tokens of a tuple description.
pub open spec fn tokens_of(items: Seq<DynView>, i: int) -> Result<Seq<InputTypes>, ErrView>
    decreases i,
{
    if i <= 0 {
        Ok(Seq::empty())
    } else {
        match tokens_of(items, i - 1) {
            Err(e) => Err(e),
            Ok(ts) => match items[i - 1] {
                DynView::Str(s) => match token_spec(s) {
                    Some(t) => Ok(ts.push(t)),
                    None => Err(ErrView::UnsupportedType { token: s }),
                },
                _ => Err(ErrView::UnsupportedType { token: bad_structure_token() }),
            },
        }
    }
}

/// Parsing the first `i` rows of a row-of-columns description: every row
/// is itself a sequence of leaf tokens.
pub open spec fn lol_of(items: Seq<DynView>, i: int) -> Result<Seq<Seq<InputTypes>>, ErrView>
    decreases i,
{
    if i <= 0 {
        Ok(Seq::empty())
    } else {
        match lol_of(items, i - 1) {
            Err(e) => Err(e),
            Ok(rows) => match items[i - 1] {
                DynView::List(cells) => match tokens_of(cells, cells.len() as int) {
                    Err(e) => Err(e),
                    Ok(ts) => Ok(rows.push(ts)),
                },
                _ => Err(ErrView::UnsupportedType { token: bad_structure_token() }),
            },
        }
    }
}

/// Parsing the first `i` named leaf tokens of one keyed-row description.
pub open spec fn keyed_tokens_of(entries: Seq<(Seq<char>, DynView)>, i: int) -> Result<
    Seq<(Seq<char>, InputTypes)>,
    ErrView,
>
    decreases i,
{
    if i <= 0 {
        Ok(Seq::empty())
    } else {
        match keyed_tokens_of(entries, i - 1) {
            Err(e) => Err(e),
            Ok(ts) => match entries[i - 1].1 {
                DynView::Str(s) => match token_spec(s) {
                    Some(t) => Ok(ts.push((entries[i - 1].0, t))),
                    None => Err(ErrView::UnsupportedType { token: s }),
                },
                _ => Err(ErrView::UnsupportedType { token: bad_structure_token() }),
            },
        }
    }
}

/// Parsing the first `i` rows of a row-of-named-columns description: every
/// row is itself a mapping from names to leaf tokens.
pub open spec fn lom_of(items: Seq<DynView>, i: int) -> Result<
    Seq<Seq<(Seq<char>, InputTypes)>>,
    ErrView,
>
    decreases i,
{
    if i <= 0 {
        Ok(Seq::empty())
    } else {
        match lom_of(items, i - 1) {
            Err(e) => Err(e),
            Ok(rows) => match items[i - 1] {
                DynView::Dict(entries) => match keyed_tokens_of(entries, entries.len() as int) {
                    Err(e) => Err(e),
                    Ok(ts) => Ok(rows.push(ts)),
                },
                _ => Err(ErrView::UnsupportedType { token: bad_structure_token() }),
            },
        }
    }
}

/// What building a schema from a declarative description yields.
///
/// A string leaf is a dtype token; a non-empty sequence is a tuple of
/// tokens, a sequence of token rows, or a sequence of keyed token rows,
/// according to the shape of its first element; a mapping is a named
/// object with recursively described fields.  Anything else, an empty
/// sequence included, is `UnsupportedType`.
pub open spec fn structure_of(v: DynView) -> Result<StructView, ErrView>
    decreases v, 0int,
{
    match v {
        DynView::Str(s) => match token_spec(s) {
            Some(t) => Ok(StructView::Type(t)),
            None => Err(ErrView::UnsupportedType { token: s }),
        },
        DynView::List(items) => if items.len() == 0 {
            Err(ErrView::UnsupportedType { token: bad_structure_token() })
        } else if items[0] is Str {
            match tokens_of(items, items.len() as int) {
                Err(e) => Err(e),
                Ok(ts) => Ok(StructView::List(ts)),
            }
        } else if items[0] is List {
            match lol_of(items, items.len() as int) {
                Err(e) => Err(e),
                Ok(rows) => Ok(StructView::ListofList(rows)),
            }
        } else if items[0] is Dict {
            match lom_of(items, items.len() as int) {
                Err(e) => Err(e),
                Ok(rows) => Ok(StructView::ListofMap(rows)),
            }
        } else {
            Err(ErrView::UnsupportedType { token: bad_structure_token() })
        },
        DynView::Dict(entries) => match structure_of_entries(entries, entries.len() as int) {
            Err(e) => Err(e),
            Ok(fields) => Ok(StructView::Object(fields)),
        },
        _ => Err(ErrView::UnsupportedType { token: bad_structure_token() }),
    }
}

/// Building the first `i` fields of a named object description, each field
/// described recursively.
pub open spec fn structure_of_entries(entries: Seq<(Seq<char>, DynView)>, i: int) -> Result<
    Seq<(Seq<char>, StructView)>,
    ErrView,
>
    decreases entries, i,
{
    if i <= 0 {
        Ok(Seq::empty())
    } else {
        match structure_of_entries(entries, i - 1) {
            Err(e) => Err(e),
            Ok(fields) => if 0 <= i - 1 < entries.len() {
                match structure_of(entries[i - 1].1) {
                    Err(e) => Err(e),
                    Ok(sub) => Ok(fields.push((entries[i - 1].0, sub))),
                }
            } else {
                Ok(fields)
            },
        }
    }
}

/// Parses the leaf tokens of a tuple description.
fn parse_tokens(items: &Vec<PythonType>) -> (r: Result<Vec<InputTypes>, DecodeError>)
    ensures
        ({
            let iv = dyn_items_view(items@);
            match r {
                Ok(ts) => tokens_of(iv, iv.len() as int) == Ok::<Seq<InputTypes>, ErrView>(
                    ts.deep_view(),
                ),
                Err(e) => tokens_of(iv, iv.len() as int) == Err::<Seq<InputTypes>, ErrView>(
                    e.deep_view(),
                ),
            }
        }),
{
    let ghost iv = dyn_items_view(items@);
    let n = items.len();
    let mut out: Vec<InputTypes> = Vec::new();
    let mut i: usize = 0;
    proof {
        assert(out.deep_view() =~= Seq::<InputTypes>::empty());
    }
    while i < n
        invariant
            i <= n,
            n == items@.len(),
            iv == dyn_items_view(items@),
            iv.len() == n,
            tokens_of(iv, i as int) == Ok::<Seq<InputTypes>, ErrView>(out.deep_view()),
        decreases n - i,
    {
        proof {
            assert(iv[i as int] == dyn_view(items@[i as int]));
        }
        let ghost pre = out.deep_view();
        match &items[i] {
            PythonType::Str(tok) => match InputTypes::from_str(tok.as_str()) {
                Ok(t) => {
                    out.push(t);
                    proof {
                        assert(out.deep_view() =~= pre.push(t));
                    }
                }
                Err(e) => {
                    proof {
                        lemma_tokens_of_err(iv, i as int + 1, iv.len() as int);
                    }
                    return Err(e);
                }
            },
            _ => {
                proof {
                    lemma_tokens_of_err(iv, i as int + 1, iv.len() as int);
                }
                return Err(
                    DecodeError::UnsupportedType { token: "unsupported structure".to_string() },
                );
            }
        }
        i += 1;
    }
    Ok(out)
}

/// Parses the rows of a row-of-columns description.
fn parse_lol(items: &Vec<PythonType>) -> (r: Result<Vec<Vec<InputTypes>>, DecodeError>)
    ensures
        ({
            let iv = dyn_items_view(items@);
            match r {
                Ok(rows) => lol_of(iv, iv.len() as int) == Ok::<Seq<Seq<InputTypes>>, ErrView>(
                    rows.deep_view(),
                ),
                Err(e) => lol_of(iv, iv.len() as int) == Err::<Seq<Seq<InputTypes>>, ErrView>(
                    e.deep_view(),
                ),
            }
        }),
{
    let ghost iv = dyn_items_view(items@);
    let n = items.len();
    let mut out: Vec<Vec<InputTypes>> = Vec::new();
    let mut i: usize = 0;
    proof {
        assert(out.deep_view() =~= Seq::<Seq<InputTypes>>::empty());
    }
    while i < n
        invariant
            i <= n,
            n == items@.len(),
            iv == dyn_items_view(items@),
            iv.len() == n,
            lol_of(iv, i as int) == Ok::<Seq<Seq<InputTypes>>, ErrView>(out.deep_view()),
        decreases n - i,
    {
        proof {
            assert(iv[i as int] == dyn_view(items@[i as int]));
        }
        let ghost pre = out.deep_view();
        match &items[i] {
            PythonType::List(cells) => match parse_tokens(cells) {
                Ok(ts) => {
                    let ghost tsv = ts.deep_view();
                    out.push(ts);
                    proof {
                        assert(out.deep_view() =~= pre.push(tsv));
                    }
                }
                Err(e) => {
                    proof {
                        lemma_lol_of_err(iv, i as int + 1, iv.len() as int);
                    }
                    return Err(e);
                }
            },
            _ => {
                proof {
                    lemma_lol_of_err(iv, i as int + 1, iv.len() as int);
                }
                return Err(
                    DecodeError::UnsupportedType { token: "unsupported structure".to_string() },
                );
            }
        }
        i += 1;
    }
    Ok(out)
}

/// Parses the named leaf tokens of one keyed-row description.
fn parse_keyed_tokens(entries: &Vec<(String, PythonType)>) -> (r: Result<
    Vec<(String, InputTypes)>,
    DecodeError,
>)
    ensures
        ({
            let ev = dyn_entries_view(entries@);
            match r {
                Ok(ts) => keyed_tokens_of(ev, ev.len() as int) == Ok::<
                    Seq<(Seq<char>, InputTypes)>,
                    ErrView,
                >(ts.deep_view()),
                Err(e) => keyed_tokens_of(ev, ev.len() as int) == Err::<
                    Seq<(Seq<char>, InputTypes)>,
                    ErrView,
                >(e.deep_view()),
            }
        }),
{
    let ghost ev = dyn_entries_view(entries@);
    let n = entries.len();
    let mut out: Vec<(String, InputTypes)> = Vec::new();
    let mut i: usize = 0;
    proof {
        assert(out.deep_view() =~= Seq::<(Seq<char>, InputTypes)>::empty());
    }
    while i < n
        invariant
            i <= n,
            n == entries@.len(),
            ev == dyn_entries_view(entries@),
            ev.len() == n,
            keyed_tokens_of(ev, i as int) == Ok::<Seq<(Seq<char>, InputTypes)>, ErrView>(
                out.deep_view(),
            ),
        decreases n - i,
    {
        let entry = &entries[i];
        proof {
            assert(ev[i as int] == (entry.0@, dyn_view(entry.1)));
        }
        let ghost pre = out.deep_view();
        match &entry.1 {
            PythonType::Str(tok) => match InputTypes::from_str(tok.as_str()) {
                Ok(t) => {
                    let k = entry.0.clone();
                    out.push((k, t));
                    proof {
                        assert(out.deep_view() =~= pre.push((entry.0@, t)));
                    }
                }
                Err(e) => {
                    proof {
                        lemma_keyed_tokens_of_err(ev, i as int + 1, ev.len() as int);
                    }
                    return Err(e);
                }
            },
            _ => {
                proof {
                    lemma_keyed_tokens_of_err(ev, i as int + 1, ev.len() as int);
                }
                return Err(
                    DecodeError::UnsupportedType { token: "unsupported structure".to_string() },
                );
            }
        }
        i += 1;
    }
    Ok(out)
}

/// Parses the rows of a row-of-named-columns description.
fn parse_lom(items: &Vec<PythonType>) -> (r: Result<
    Vec<Vec<(String, InputTypes)>>,
    DecodeError,
>)
    ensures
        ({
            let iv = dyn_items_view(items@);
            match r {
                Ok(rows) => lom_of(iv, iv.len() as int) == Ok::<
                    Seq<Seq<(Seq<char>, InputTypes)>>,
                    ErrView,
                >(rows.deep_view()),
                Err(e) => lom_of(iv, iv.len() as int) == Err::<
                    Seq<Seq<(Seq<char>, InputTypes)>>,
                    ErrView,
                >(e.deep_view()),
            }
        }),
{
    let ghost iv = dyn_items_view(items@);
    let n = items.len();
    let mut out: Vec<Vec<(String, InputTypes)>> = Vec::new();
    let mut i: usize = 0;
    proof {
        assert(out.deep_view() =~= Seq::<Seq<(Seq<char>, InputTypes)>>::empty());
    }
    while i < n
        invariant
            i <= n,
            n == items@.len(),
            iv == dyn_items_view(items@),
            iv.len() == n,
            lom_of(iv, i as int) == Ok::<Seq<Seq<(Seq<char>, InputTypes)>>, ErrView>(
                out.deep_view(),
            ),
        decreases n - i,
    {
        proof {
            assert(iv[i as int] == dyn_view(items@[i as int]));
        }
        let ghost pre = out.deep_view();
        match &items[i] {
            PythonType::Dict(entries) => match parse_keyed_tokens(entries) {
                Ok(ts) => {
                    let ghost tsv = ts.deep_view();
                    out.push(ts);
                    proof {
                        assert(out.deep_view() =~= pre.push(tsv));
                    }
                }
                Err(e) => {
                    proof {
                        lemma_lom_of_err(iv, i as int + 1, iv.len() as int);
                    }
                    return Err(e);
                }
            },
            _ => {
                proof {
                    lemma_lom_of_err(iv, i as int + 1, iv.len() as int);
                }
                return Err(
                    DecodeError::UnsupportedType { token: "unsupported structure".to_string() },
                );
            }
        }
        i += 1;
    }
    Ok(out)
}

/// Builds one schema node from a declarative description.
pub fn structure_from(v: &PythonType) -> (r: Result<Structure, DecodeError>)
    ensures
        match r {
            Ok(s) => structure_of(v.deep_view()) == Ok::<StructView, ErrView>(s.deep_view()),
            Err(e) => structure_of(v.deep_view()) == Err::<StructView, ErrView>(e.deep_view()),
        },
    decreases v,
{
    match v {
        PythonType::Str(tok) => match InputTypes::from_str(tok.as_str()) {
            Ok(t) => Ok(Structure::Type(t)),
            Err(e) => Err(e),
        },
        PythonType::List(items) => {
            if items.len() == 0 {
                return Err(
                    DecodeError::UnsupportedType { token: "unsupported structure".to_string() },
                );
            }
            proof {
                assert(dyn_items_view(items@)[0] == dyn_view(items@[0]));
            }
            match &items[0] {
                PythonType::Str(_) => match parse_tokens(items) {
                    Ok(ts) => Ok(Structure::List(ts)),
                    Err(e) => Err(e),
                },
                PythonType::List(_) => match parse_lol(items) {
                    Ok(rows) => Ok(Structure::ListofList(rows)),
                    Err(e) => Err(e),
                },
                PythonType::Dict(_) => match parse_lom(items) {
                    Ok(rows) => Ok(Structure::ListofMap(rows)),
                    Err(e) => Err(e),
                },
                _ => Err(
                    DecodeError::UnsupportedType { token: "unsupported structure".to_string() },
                ),
            }
        }
        PythonType::Dict(entries) => {
            let ghost ev = dyn_view(*v)->Dict_0;
            let n = entries.len();
            let mut fields: Vec<(String, Structure)> = Vec::new();
            let mut i: usize = 0;
            proof {
                assert(field_entries_view(fields@) =~= Seq::<(Seq<char>, StructView)>::empty());
            }
            while i < n
                invariant
                    i <= n,
                    n == entries@.len(),
                    *v == PythonType::Dict(*entries),
                    ev == dyn_entries_view(entries@),
                    ev.len() == n,
                    structure_of_entries(ev, i as int) == Ok::<
                        Seq<(Seq<char>, StructView)>,
                        ErrView,
                    >(field_entries_view(fields@)),
                decreases n - i,
            {
                let entry = &entries[i];
                proof {
                    assert(ev[i as int] == (entry.0@, dyn_view(entry.1)));
                    assert(decreases_to!(*v => v->Dict_0));
                    assert(*entries == v->Dict_0);
                    assert(decreases_to!(*entries => entries@));
                    assert(decreases_to!(entries@ => entries@[i as int]));
                    assert(decreases_to!(entries@[i as int] => entries@[i as int].1));
                }
                let ghost pre = field_entries_view(fields@);
                match structure_from(&entry.1) {
                    Ok(sub) => {
                        let ghost subv = sub.deep_view();
                        let k = entry.0.clone();
                        fields.push((k, sub));
                        proof {
                            assert(field_entries_view(fields@) =~= pre.push((entry.0@, subv)));
                        }
                    }
                    Err(e) => {
                        proof {
                            lemma_structure_of_entries_err(ev, i as int + 1, ev.len() as int);
                        }
                        return Err(e);
                    }
                }
                i += 1;
            }
            Ok(Structure::Object(fields))
        }
        _ => Err(DecodeError::UnsupportedType { token: "unsupported structure".to_string() }),
    }
}

impl StructureDescriptor {
    /// Builds a schema from a declarative description: dtype-name strings
    /// at the leaves, sequences for tuples and row templates, mappings for
    /// named objects.
    pub fn from_value(v: &PythonType) -> (r: Result<StructureDescriptor, DecodeError>)
        ensures
            match r {
                Ok(d) => structure_of(v.deep_view()) == Ok::<StructView, ErrView>(d.deep_view()),
                Err(e) => structure_of(v.deep_view()) == Err::<StructView, ErrView>(e.deep_view()),
            },
    {
        match structure_from(v) {
            Ok(data) => Ok(StructureDescriptor { data }),
            Err(e) => Err(e),
        }
    }
}

/// An error among the first `i` tokens is the error of the whole list.
proof fn lemma_tokens_of_err(items: Seq<DynView>, i: int, m: int)
    requires
        0 <= i <= m,
        tokens_of(items, i) is Err,
    ensures
        tokens_of(items, m) == tokens_of(items, i),
    decreases m,
{
    if m > i {
        lemma_tokens_of_err(items, i, m - 1);
    }
}

/// An error among the first `i` rows is the error of the whole list.
proof fn lemma_lol_of_err(items: Seq<DynView>, i: int, m: int)
    requires
        0 <= i <= m,
        lol_of(items, i) is Err,
    ensures
        lol_of(items, m) == lol_of(items, i),
    decreases m,
{
    if m > i {
        lemma_lol_of_err(items, i, m - 1);
    }
}

/// An error among the first `i` named tokens is the error of the whole
/// row description.
proof fn lemma_keyed_tokens_of_err(entries: Seq<(Seq<char>, DynView)>, i: int, m: int)
    requires
        0 <= i <= m,
        keyed_tokens_of(entries, i) is Err,
    ensures
        keyed_tokens_of(entries, m) == keyed_tokens_of(entries, i),
    decreases m,
{
    if m > i {
        lemma_keyed_tokens_of_err(entries, i, m - 1);
    }
}

/// An error among the first `i` keyed rows is the error of the whole list.
proof fn lemma_lom_of_err(items: Seq<DynView>, i: int, m: int)
    requires
        0 <= i <= m,
        lom_of(items, i) is Err,
    ensures
        lom_of(items, m) == lom_of(items, i),
    decreases m,
{
    if m > i {
        lemma_lom_of_err(items, i, m - 1);
    }
}

/// An error among the first `i` described fields is the error of the
/// whole object description.
proof fn lemma_structure_of_entries_err(entries: Seq<(Seq<char>, DynView)>, i: int, m: int)
    requires
        0 <= i <= m,
        structure_of_entries(entries, i) is Err,
    ensures
        structure_of_entries(entries, m) == structure_of_entries(entries, i),
    decreases m,
{
    if m > i {
        lemma_structure_of_entries_err(entries, i, m - 1);
    }
}

/// Every typed buffer of a successful leaf decode is well-formed.
proof fn lemma_leaf_wf(t: InputTypes, v: DynView)
    requires
        decode_leaf_spec(t, v) is Ok,
    ensures
        out_wf(decode_leaf_spec(t, v)->Ok_0),
{
}

/// Every slot of a successfully decoded tuple prefix is well-formed.
proof fn lemma_tuple_wf(kinds: Seq<InputTypes>, elems: Seq<DynView>, i: int)
    requires
        decode_tuple_prefix(kinds, elems, i) is Ok,
    ensures
        ({
            let out = decode_tuple_prefix(kinds, elems, i)->Ok_0;
            forall|j: int| 0 <= j < out.len() ==> out_wf(#[trigger] out[j])
        }),
    decreases i,
{
    if i > 0 {
        lemma_tuple_wf(kinds, elems, i - 1);
        if i - 1 < elems.len() {
            lemma_leaf_wf(kinds[i - 1], elems[i - 1]);
        }
    }
}

/// Every field of a successfully walked object is well-formed.
proof fn lemma_object_entries_wf(
    fields: Seq<(Seq<char>, StructView)>,
    entries: Seq<(Seq<char>, DynView)>,
)
    requires
        decode_object_entries(fields, entries) is Ok,
    ensures
        ({
            let out = decode_object_entries(fields, entries)->Ok_0;
            forall|j: int| 0 <= j < out.len() ==> out_wf((#[trigger] out[j]).1)
        }),
    decreases fields, entries.len(),
{
    if entries.len() > 0 {
        lemma_object_entries_wf(fields, entries.drop_last());
        let key = entries.last().0;
        let val = entries.last().1;
        let j = assoc_index(fields, key);
        if 0 <= j < fields.len() {
            lemma_decode_wf(fields[j].1, val);
        }
    }
}

/// Every successful decode yields only well-formed buffers: in every
/// dense typed buffer anywhere in the decoded tree, the product of the
/// inferred shape equals the number of elements in the flat buffer.
pub proof fn lemma_decode_wf(s: StructView, v: DynView)
    requires
        decode_spec(s, v) is Ok,
    ensures
        out_wf(decode_spec(s, v)->Ok_0),
    decreases s, 0int,
{
    match s {
        StructView::Type(t) => {
            lemma_leaf_wf(t, v);
        }
        StructView::List(kinds) => match v {
            DynView::List(elems) => {
                lemma_tuple_wf(kinds, elems, kinds.len() as int);
            }
            _ => {
            }
        },
        StructView::Object(fields) => match v {
            DynView::Dict(entries) => {
                lemma_object_entries_wf(fields, entries);
            }
            _ => {
            }
        },
        StructView::ListofList(template) => match v {
            DynView::List(rows) => {
                let cols = if template.len() > 0 {
                    template[0]
                } else {
                    Seq::empty()
                };
                crate::parsing::transpose_types::lemma_transpose_rows_wf(cols, rows);
            }
            _ => {
            }
        },
        StructView::ListofMap(template) => match v {
            DynView::List(rows) => {
                let cols = if template.len() > 0 {
                    template[0]
                } else {
                    Seq::empty()
                };
                crate::parsing::transpose_types::lemma_transpose_keyed_wf(cols, rows);
            }
            _ => {
            }
        },
    }
}

/// Decoding is deterministic: one schema and one input value have exactly
/// one decode outcome, so equal schemas applied to equal input documents
/// always yield equal decoded values (or equal errors).
pub proof fn lemma_decode_deterministic(s1: StructView, v1: DynView, s2: StructView, v2: DynView)
    requires
        s1 == s2,
        v1 == v2,
    ensures
        decode_spec(s1, v1) == decode_spec(s2, v2),
{
}

/// Decoding is all-or-nothing: the one decode outcome is either a
/// complete decoded value or a single error, never both and never
/// neither; on an error the caller observes no decoded value.
pub proof fn lemma_decode_all_or_nothing(s: StructView, v: DynView)
    ensures
        (decode_spec(s, v) is Ok) <==> !(decode_spec(s, v) is Err),
{
}

/// The display name of each schema kind (model level).
pub open spec fn kind_name_spec(t: InputTypes) -> Seq<char> {
    match t {
        InputTypes::int8 => "np.int8"@,
        InputTypes::int16 => "np.int16"@,
        InputTypes::int32 => "np.int32"@,
        InputTypes::int64 => "np.int64"@,
        InputTypes::uint8 => "np.uint8"@,
        InputTypes::uint16 => "np.uint16"@,
        InputTypes::uint32 => "np.uint32"@,
        InputTypes::uint64 => "np.uint64"@,
        InputTypes::float32 => "np.float32"@,
        InputTypes::float64 => "np.float64"@,
        InputTypes::bool_ => "np.bool_"@,
        InputTypes::int_ => "int"@,
        InputTypes::float => "float"@,
        InputTypes::str => "str"@,
        InputTypes::bool => "bool"@,
        InputTypes::list => "list"@,
        InputTypes::dict => "dict"@,
        InputTypes::any => "any"@,
    }
}

impl InputTypes {
    /// The display name of this schema kind.
    pub fn kind_name(&self) -> (r: String)
        ensures
            r@ == kind_name_spec(*self),
    {
        let name: &str = match self {
            InputTypes::int8 => "np.int8",
            InputTypes::int16 => "np.int16",
            InputTypes::int32 => "np.int32",
            InputTypes::int64 => "np.int64",
            InputTypes::uint8 => "np.uint8",
            InputTypes::uint16 => "np.uint16",
            InputTypes::uint32 => "np.uint32",
            InputTypes::uint64 => "np.uint64",
            InputTypes::float32 => "np.float32",
            InputTypes::float64 => "np.float64",
            InputTypes::bool_ => "np.bool_",
            InputTypes::int_ => "int",
            InputTypes::float => "float",
            InputTypes::str => "str",
            InputTypes::bool => "bool",
            InputTypes::list => "list",
            InputTypes::dict => "dict",
            InputTypes::any => "any",
        };
        name.to_string()
    }
}

} // verus!
