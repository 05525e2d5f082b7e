//! The decode error taxonomy.
//!
//! Every error aborts the whole decode: the caller receives either a
//! complete decoded value or exactly one of these errors, never both.

use vstd::prelude::*;

use crate::parsing::python_types::{DynView, JsonNumber, NumRepr, PythonType};
use crate::parsing::InputTypes;

verus! {

/// The structural kind of a dynamic value, used to report mismatches
/// between what a schema node expects and what the input holds.
#[derive(Clone, Copy, Debug, PartialEq, Eq)]
pub enum ValueKind {
    Null,
    Bool,
    Number,
    Str,
    List,
    Dict,
}

impl DeepView for ValueKind {
    type V = ValueKind;

    open spec fn deep_view(&self) -> ValueKind {
        *self
    }
}

/// The structural kind of a dynamic value (model level).
pub open spec fn kind_of(v: DynView) -> ValueKind {
    match v {
        DynView::Null => ValueKind::Null,
        DynView::Bool(_) => ValueKind::Bool,
        DynView::Num(_) => ValueKind::Number,
        DynView::Str(_) => ValueKind::Str,
        DynView::List(_) => ValueKind::List,
        DynView::Dict(_) => ValueKind::Dict,
    }
}

/// The structural kind of a dynamic value.
pub fn value_kind(v: &PythonType) -> (k: ValueKind)
    ensures
        k == kind_of(v.deep_view()),
{
    match v {
        PythonType::Null => ValueKind::Null,
        PythonType::Bool(_) => ValueKind::Bool,
        PythonType::Number(_) => ValueKind::Number,
        PythonType::Str(_) => ValueKind::Str,
        PythonType::List(_) => ValueKind::List,
        PythonType::Dict(_) => ValueKind::Dict,
    }
}

/// An error of the decode engine.  Each variant carries the data needed to
/// report what went wrong and where the input diverged from the schema.
#[derive(Clone, Debug, PartialEq)]
pub enum DecodeError {
    /// A schema leaf token is not one of the recognized type names, or a
    /// schema description has a shape the grammar does not allow.
    UnsupportedType { token: String },
    /// The input's structural kind does not match what the schema node
    /// expects at this position.
    SchemaMismatch { expected: ValueKind, found: ValueKind },
    /// A numeric value is outside the representable range of its declared
    /// kind: the offending value (with how it arrived) and the target kind.
    CastOverflow { value: NumRepr, target: InputTypes },
    /// A nested array is jagged: the flattened element count does not equal
    /// the product of the inferred shape.
    IrregularShape { shape: Vec<usize>, len: usize },
    /// A tuple or row holds fewer elements than the schema declares.
    SequenceExhausted { expected: usize, found: usize },
    /// An object or keyed row is missing declared fields; every missing
    /// name is reported.
    MissingKeys { keys: Vec<String> },
}

/// The mathematical model of a [`DecodeError`].
pub ghost enum ErrView {
    UnsupportedType { token: Seq<char> },
    SchemaMismatch { expected: ValueKind, found: ValueKind },
    CastOverflow { value: NumRepr, target: InputTypes },
    IrregularShape { shape: Seq<int>, len: int },
    SequenceExhausted { expected: int, found: int },
    MissingKeys { keys: Seq<Seq<char>> },
}

impl DeepView for DecodeError {
    type V = ErrView;

    open spec fn deep_view(&self) -> ErrView {
        match self {
            DecodeError::UnsupportedType { token } => ErrView::UnsupportedType { token: token@ },
            DecodeError::SchemaMismatch { expected, found } => ErrView::SchemaMismatch {
                expected: *expected,
                found: *found,
            },
            DecodeError::CastOverflow { value, target } => ErrView::CastOverflow {
                value: *value,
                target: *target,
            },
            DecodeError::IrregularShape { shape, len } => ErrView::IrregularShape {
                shape: shape@.map_values(|u: usize| u as int),
                len: *len as int,
            },
            DecodeError::SequenceExhausted { expected, found } => ErrView::SequenceExhausted {
                expected: *expected as int,
                found: *found as int,
            },
            DecodeError::MissingKeys { keys } => ErrView::MissingKeys { keys: keys.deep_view() },
        }
    }
}

} // verus!
