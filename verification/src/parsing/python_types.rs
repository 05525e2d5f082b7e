//! Dynamic values: the engine's picture of the source document.
//!
//! The engine is agnostic to the concrete wire encoding.  A tokenizer layer
//! (outside this crate) turns raw bytes into a [`PythonType`] tree of plain
//! values, and the engine consumes that tree.  Numbers arrive as a
//! [`JsonNumber`]: the value as it appeared plus its standard conversions,
//! precomputed once by the tokenizer, so that the engine's checked narrowing
//! is pure integer logic.

use vstd::prelude::*;

verus! {

/// How the tokenizer delivered a number: as a non-negative integer, as a
/// negative (or any signed) integer, or as a floating-point value, carried
/// here by its IEEE-754 binary64 bit pattern.
#[derive(Clone, Copy, Debug, PartialEq, Eq)]
pub enum NumRepr {
    Uint(u64),
    Int(i64),
    Float(u64),
}

/// One numeric token of the input document.
///
/// `repr` is the value exactly as the tokenizer saw it.  The remaining
/// fields are the standard conversions of that same value, computed once at
/// tokenization time:
///
/// - `as_i64`: the value truncated toward zero, if the truncation is
///   representable in `i64` (`None` for out-of-range values, NaN and
///   infinities);
/// - `as_u64`: likewise for `u64`;
/// - `as_f32_bits` / `as_f64_bits`: the IEEE-754 bit patterns of the value
///   converted (lossily, in the `f32` case) to binary32 and binary64.
///
/// For an integer `repr` the float bit patterns are those of the rounded
/// value, and `as_i64` / `as_u64` are the exact value when representable.
#[derive(Clone, Copy, Debug, PartialEq, Eq)]
pub struct JsonNumber {
    pub repr: NumRepr,
    pub as_i64: Option<i64>,
    pub as_u64: Option<u64>,
    pub as_f32_bits: u32,
    pub as_f64_bits: u64,
}

impl DeepView for NumRepr {
    type V = NumRepr;

    open spec fn deep_view(&self) -> NumRepr {
        *self
    }
}

impl DeepView for JsonNumber {
    type V = JsonNumber;

    open spec fn deep_view(&self) -> JsonNumber {
        *self
    }
}

/// A dynamic value mirroring the source document's kinds: the input to the
/// decode engine, and the passthrough output for untyped schema leaves.
#[derive(Debug, PartialEq)]
pub enum PythonType {
    Null,
    Bool(bool),
    Number(JsonNumber),
    Str(String),
    List(Vec<PythonType>),
    Dict(Vec<(String, PythonType)>),
}

/// The mathematical model of a [`PythonType`]: the same tree with sequences
/// in place of vectors and character sequences in place of strings.
pub ghost enum DynView {
    Null,
    Bool(bool),
    Num(JsonNumber),
    Str(Seq<char>),
    List(Seq<DynView>),
    Dict(Seq<(Seq<char>, DynView)>),
}

/// The model of a sequence of dynamic values.
pub open spec fn dyn_items_view(items: Seq<PythonType>) -> Seq<DynView>
    decreases items,
{
    Seq::new(
        items.len(),
        |i: int|
            if 0 <= i < items.len() {
                dyn_view(items[i])
            } else {
                DynView::Null
            },
    )
}

/// The model of a sequence of named dynamic entries.
pub open spec fn dyn_entries_view(entries: Seq<(String, PythonType)>) -> Seq<(Seq<char>, DynView)>
    decreases entries,
{
    Seq::new(
        entries.len(),
        |i: int|
            if 0 <= i < entries.len() {
                (entries[i].0@, dyn_view(entries[i].1))
            } else {
                (Seq::empty(), DynView::Null)
            },
    )
}

/// The model of a dynamic value (the recursion behind
/// [`PythonType::deep_view`]).
pub open spec fn dyn_view(v: PythonType) -> DynView
    decreases v,
{
    match v {
        PythonType::Null => DynView::Null,
        PythonType::Bool(b) => DynView::Bool(b),
        PythonType::Number(n) => DynView::Num(n),
        PythonType::Str(s) => DynView::Str(s@),
        PythonType::List(elems) => DynView::List(dyn_items_view(elems@)),
        PythonType::Dict(entries) => DynView::Dict(dyn_entries_view(entries@)),
    }
}

impl DeepView for PythonType {
    type V = DynView;

    open spec fn deep_view(&self) -> DynView {
        dyn_view(*self)
    }
}

} // verus!
