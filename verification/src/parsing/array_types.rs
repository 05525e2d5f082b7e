//! Typed growable buffers with shape inference.
//!
//! An [`Array<T>`] is either a single scalar or a dense, flat buffer of
//! elements together with the multi-dimensional shape inferred while the
//! input subtree was visited.  The builder walks a dynamic value once,
//! performing a checked narrowing conversion on every scalar, recording the
//! first child's extent at each nesting level, and finally verifying that
//! the inferred shape accounts for every element.

use vstd::prelude::*;

use crate::parsing::errors::{kind_of, DecodeError, ErrView, ValueKind};
use crate::parsing::python_types::{DynView, JsonNumber, PythonType};
use crate::parsing::InputTypes;

verus! {

/// A single scalar or a flat buffer of elements of one kind.
#[derive(Debug, PartialEq)]
pub enum Base<T> {
    Scalar(T),
    Array(Vec<T>),
}

/// A decoded typed buffer: a [`Base`] plus the inferred shape (`None` for
/// scalars, outermost dimension first for dense buffers).
#[derive(Debug, PartialEq)]
pub struct Array<T>(pub Base<T>, pub Option<Vec<usize>>);

/// A boolean buffer follows the same algorithm as the numeric ones,
/// specialized to `bool` (no numeric narrowing is involved).
pub type BoolArray = Array<bool>;

/// The element type of a `float32` column: the IEEE-754 bit pattern of one
/// binary32 value.  The engine moves these patterns; it never performs
/// floating-point arithmetic on them.
#[derive(Clone, Copy, Debug, PartialEq, Eq, Structural)]
pub struct F32Bits(pub u32);

/// The element type of a `float64` column: the IEEE-754 bit pattern of one
/// binary64 value.
#[derive(Clone, Copy, Debug, PartialEq, Eq, Structural)]
pub struct F64Bits(pub u64);

impl DeepView for F32Bits {
    type V = F32Bits;

    open spec fn deep_view(&self) -> F32Bits {
        *self
    }
}

impl DeepView for F64Bits {
    type V = F64Bits;

    open spec fn deep_view(&self) -> F64Bits {
        *self
    }
}

/// The mathematical model of an [`Array<T>`].
pub ghost enum ArrayView<T> {
    Scalar(T),
    Dense { data: Seq<T>, shape: Seq<int> },
}

/// The sequence of dimension sizes, as mathematical integers.
pub open spec fn ints(s: Seq<usize>) -> Seq<int> {
    s.map_values(|u: usize| u as int)
}

impl<T: Copy> DeepView for Array<T> {
    type V = ArrayView<T>;

    open spec fn deep_view(&self) -> ArrayView<T> {
        match self.0 {
            Base::Scalar(x) => ArrayView::Scalar(x),
            Base::Array(vals) => ArrayView::Dense {
                data: vals@,
                shape: match self.1 {
                    Some(shape) => ints(shape@),
                    None => Seq::empty(),
                },
            },
        }
    }
}

/// A well-formed buffer model: a dense buffer's shape accounts for
/// exactly its elements.
pub open spec fn array_view_wf<T>(a: ArrayView<T>) -> bool {
    match a {
        ArrayView::Scalar(_) => true,
        ArrayView::Dense { data, shape } => product(shape) == data.len(),
    }
}

/// The product of a sequence of dimension sizes.  An empty shape has
/// product 1: a scalar occupies one slot.
pub open spec fn product(s: Seq<int>) -> int
    decreases s.len(),
{
    if s.len() == 0 {
        1
    } else {
        s[0] * product(s.drop_first())
    }
}

impl<T: Copy> Array<T> {
    /// Well-formedness: a scalar carries no shape; a dense buffer carries a
    /// shape whose product equals the number of elements.
    pub open spec fn wf(self) -> bool {
        match self.0 {
            Base::Scalar(_) => self.1 is None,
            Base::Array(vals) => match self.1 {
                Some(shape) => product(ints(shape@)) == vals@.len(),
                None => false,
            },
        }
    }
}

/// An element type of a typed buffer: one of the eight integer widths, the
/// two float-bit-pattern types, or `bool`.  Each element type knows the
/// schema kind it realizes and how one scalar token narrows into it.
pub trait Element: Sized + Copy {
    /// The schema kind this element type realizes.
    spec fn kind_spec() -> InputTypes;

    /// The checked narrowing of one numeric token into this type; `None`
    /// when the value lies outside the representable range.
    spec fn cast_num_spec(n: JsonNumber) -> Option<Self>;

    /// What decoding one non-sequence value into this type yields.
    spec fn cast_leaf_spec(v: DynView) -> Result<Self, ErrView>;

    /// The checked narrowing of one numeric token.
    fn cast_num(n: &JsonNumber) -> (r: Option<Self>)
        ensures
            r == Self::cast_num_spec(*n),
    ;

    /// Decodes one non-sequence value into this type.
    fn cast_leaf(v: &PythonType) -> (r: Result<Self, DecodeError>)
        ensures
            match r {
                Ok(x) => Self::cast_leaf_spec(v.deep_view()) == Ok::<Self, ErrView>(x),
                Err(e) => Self::cast_leaf_spec(v.deep_view()) == Err::<Self, ErrView>(
                    e.deep_view(),
                ),
            },
    ;

    /// The schema kind this element type realizes.
    fn kind() -> (k: InputTypes)
        ensures
            k == Self::kind_spec(),
    ;
}

impl Element for i8 {
    open spec fn kind_spec() -> InputTypes {
        InputTypes::int8
    }

    open spec fn cast_num_spec(n: JsonNumber) -> Option<i8> {
        match n.as_i64 {
            Some(v) => if -128 <= v && v <= 127 {
                Some(v as i8)
            } else {
                None
            },
            None => None,
        }
    }

    open spec fn cast_leaf_spec(v: DynView) -> Result<i8, ErrView> {
        match v {
            DynView::Num(n) => match Self::cast_num_spec(n) {
                Some(x) => Ok(x),
                None => Err(ErrView::CastOverflow { value: n.repr, target: InputTypes::int8 }),
            },
            _ => Err(
                ErrView::SchemaMismatch { expected: ValueKind::Number, found: kind_of(v) },
            ),
        }
    }

    fn cast_leaf(v: &PythonType) -> (r: Result<i8, DecodeError>) {
        match v {
            PythonType::Number(n) => match Self::cast_num(n) {
                Some(x) => Ok(x),
                None => Err(
                    DecodeError::CastOverflow { value: n.repr, target: InputTypes::int8 },
                ),
            },
            _ => Err(
                DecodeError::SchemaMismatch {
                    expected: ValueKind::Number,
                    found: crate::parsing::errors::value_kind(v),
                },
            ),
        }
    }

    fn cast_num(n: &JsonNumber) -> (r: Option<i8>) {
        match n.as_i64 {
            Some(v) => if -128 <= v && v <= 127 {
                Some(v as i8)
            } else {
                None
            },
            None => None,
        }
    }

    fn kind() -> (k: InputTypes) {
        InputTypes::int8
    }
}

impl Element for i16 {
    open spec fn kind_spec() -> InputTypes {
        InputTypes::int16
    }

    open spec fn cast_num_spec(n: JsonNumber) -> Option<i16> {
        match n.as_i64 {
            Some(v) => if -32768 <= v && v <= 32767 {
                Some(v as i16)
            } else {
                None
            },
            None => None,
        }
    }

    open spec fn cast_leaf_spec(v: DynView) -> Result<i16, ErrView> {
        match v {
            DynView::Num(n) => match Self::cast_num_spec(n) {
                Some(x) => Ok(x),
                None => Err(ErrView::CastOverflow { value: n.repr, target: InputTypes::int16 }),
            },
            _ => Err(
                ErrView::SchemaMismatch { expected: ValueKind::Number, found: kind_of(v) },
            ),
        }
    }

    fn cast_leaf(v: &PythonType) -> (r: Result<i16, DecodeError>) {
        match v {
            PythonType::Number(n) => match Self::cast_num(n) {
                Some(x) => Ok(x),
                None => Err(
                    DecodeError::CastOverflow { value: n.repr, target: InputTypes::int16 },
                ),
            },
            _ => Err(
                DecodeError::SchemaMismatch {
                    expected: ValueKind::Number,
                    found: crate::parsing::errors::value_kind(v),
                },
            ),
        }
    }

    fn cast_num(n: &JsonNumber) -> (r: Option<i16>) {
        match n.as_i64 {
            Some(v) => if -32768 <= v && v <= 32767 {
                Some(v as i16)
            } else {
                None
            },
            None => None,
        }
    }

    fn kind() -> (k: InputTypes) {
        InputTypes::int16
    }
}

impl Element for i32 {
    open spec fn kind_spec() -> InputTypes {
        InputTypes::int32
    }

    open spec fn cast_num_spec(n: JsonNumber) -> Option<i32> {
        match n.as_i64 {
            Some(v) => if -2147483648 <= v && v <= 2147483647 {
                Some(v as i32)
            } else {
                None
            },
            None => None,
        }
    }

    open spec fn cast_leaf_spec(v: DynView) -> Result<i32, ErrView> {
        match v {
            DynView::Num(n) => match Self::cast_num_spec(n) {
                Some(x) => Ok(x),
                None => Err(ErrView::CastOverflow { value: n.repr, target: InputTypes::int32 }),
            },
            _ => Err(
                ErrView::SchemaMismatch { expected: ValueKind::Number, found: kind_of(v) },
            ),
        }
    }

    fn cast_leaf(v: &PythonType) -> (r: Result<i32, DecodeError>) {
        match v {
            PythonType::Number(n) => match Self::cast_num(n) {
                Some(x) => Ok(x),
                None => Err(
                    DecodeError::CastOverflow { value: n.repr, target: InputTypes::int32 },
                ),
            },
            _ => Err(
                DecodeError::SchemaMismatch {
                    expected: ValueKind::Number,
                    found: crate::parsing::errors::value_kind(v),
                },
            ),
        }
    }

    fn cast_num(n: &JsonNumber) -> (r: Option<i32>) {
        match n.as_i64 {
            Some(v) => if -2147483648 <= v && v <= 2147483647 {
                Some(v as i32)
            } else {
                None
            },
            None => None,
        }
    }

    fn kind() -> (k: InputTypes) {
        InputTypes::int32
    }
}

impl Element for i64 {
    open spec fn kind_spec() -> InputTypes {
        InputTypes::int64
    }

    open spec fn cast_num_spec(n: JsonNumber) -> Option<i64> {
        n.as_i64
    }

    open spec fn cast_leaf_spec(v: DynView) -> Result<i64, ErrView> {
        match v {
            DynView::Num(n) => match Self::cast_num_spec(n) {
                Some(x) => Ok(x),
                None => Err(ErrView::CastOverflow { value: n.repr, target: InputTypes::int64 }),
            },
            _ => Err(
                ErrView::SchemaMismatch { expected: ValueKind::Number, found: kind_of(v) },
            ),
        }
    }

    fn cast_leaf(v: &PythonType) -> (r: Result<i64, DecodeError>) {
        match v {
            PythonType::Number(n) => match Self::cast_num(n) {
                Some(x) => Ok(x),
                None => Err(
                    DecodeError::CastOverflow { value: n.repr, target: InputTypes::int64 },
                ),
            },
            _ => Err(
                DecodeError::SchemaMismatch {
                    expected: ValueKind::Number,
                    found: crate::parsing::errors::value_kind(v),
                },
            ),
        }
    }

    fn cast_num(n: &JsonNumber) -> (r: Option<i64>) {
        n.as_i64
    }

    fn kind() -> (k: InputTypes) {
        InputTypes::int64
    }
}

impl Element for u8 {
    open spec fn kind_spec() -> InputTypes {
        InputTypes::uint8
    }

    open spec fn cast_num_spec(n: JsonNumber) -> Option<u8> {
        match n.as_u64 {
            Some(v) => if v <= 255 {
                Some(v as u8)
            } else {
                None
            },
            None => None,
        }
    }

    open spec fn cast_leaf_spec(v: DynView) -> Result<u8, ErrView> {
        match v {
            DynView::Num(n) => match Self::cast_num_spec(n) {
                Some(x) => Ok(x),
                None => Err(ErrView::CastOverflow { value: n.repr, target: InputTypes::uint8 }),
            },
            _ => Err(
                ErrView::SchemaMismatch { expected: ValueKind::Number, found: kind_of(v) },
            ),
        }
    }

    fn cast_leaf(v: &PythonType) -> (r: Result<u8, DecodeError>) {
        match v {
            PythonType::Number(n) => match Self::cast_num(n) {
                Some(x) => Ok(x),
                None => Err(
                    DecodeError::CastOverflow { value: n.repr, target: InputTypes::uint8 },
                ),
            },
            _ => Err(
                DecodeError::SchemaMismatch {
                    expected: ValueKind::Number,
                    found: crate::parsing::errors::value_kind(v),
                },
            ),
        }
    }

    fn cast_num(n: &JsonNumber) -> (r: Option<u8>) {
        match n.as_u64 {
            Some(v) => if v <= 255 {
                Some(v as u8)
            } else {
                None
            },
            None => None,
        }
    }

    fn kind() -> (k: InputTypes) {
        InputTypes::uint8
    }
}

impl Element for u16 {
    open spec fn kind_spec() -> InputTypes {
        InputTypes::uint16
    }

    open spec fn cast_num_spec(n: JsonNumber) -> Option<u16> {
        match n.as_u64 {
            Some(v) => if v <= 65535 {
                Some(v as u16)
            } else {
                None
            },
            None => None,
        }
    }

    open spec fn cast_leaf_spec(v: DynView) -> Result<u16, ErrView> {
        match v {
            DynView::Num(n) => match Self::cast_num_spec(n) {
                Some(x) => Ok(x),
                None => Err(ErrView::CastOverflow { value: n.repr, target: InputTypes::uint16 }),
            },
            _ => Err(
                ErrView::SchemaMismatch { expected: ValueKind::Number, found: kind_of(v) },
            ),
        }
    }

    fn cast_leaf(v: &PythonType) -> (r: Result<u16, DecodeError>) {
        match v {
            PythonType::Number(n) => match Self::cast_num(n) {
                Some(x) => Ok(x),
                None => Err(
                    DecodeError::CastOverflow { value: n.repr, target: InputTypes::uint16 },
                ),
            },
            _ => Err(
                DecodeError::SchemaMismatch {
                    expected: ValueKind::Number,
                    found: crate::parsing::errors::value_kind(v),
                },
            ),
        }
    }

    fn cast_num(n: &JsonNumber) -> (r: Option<u16>) {
        match n.as_u64 {
            Some(v) => if v <= 65535 {
                Some(v as u16)
            } else {
                None
            },
            None => None,
        }
    }

    fn kind() -> (k: InputTypes) {
        InputTypes::uint16
    }
}

impl Element for u32 {
    open spec fn kind_spec() -> InputTypes {
        InputTypes::uint32
    }

    open spec fn cast_num_spec(n: JsonNumber) -> Option<u32> {
        match n.as_u64 {
            Some(v) => if v <= 4294967295 {
                Some(v as u32)
            } else {
                None
            },
            None => None,
        }
    }

    open spec fn cast_leaf_spec(v: DynView) -> Result<u32, ErrView> {
        match v {
            DynView::Num(n) => match Self::cast_num_spec(n) {
                Some(x) => Ok(x),
                None => Err(ErrView::CastOverflow { value: n.repr, target: InputTypes::uint32 }),
            },
            _ => Err(
                ErrView::SchemaMismatch { expected: ValueKind::Number, found: kind_of(v) },
            ),
        }
    }

    fn cast_leaf(v: &PythonType) -> (r: Result<u32, DecodeError>) {
        match v {
            PythonType::Number(n) => match Self::cast_num(n) {
                Some(x) => Ok(x),
                None => Err(
                    DecodeError::CastOverflow { value: n.repr, target: InputTypes::uint32 },
                ),
            },
            _ => Err(
                DecodeError::SchemaMismatch {
                    expected: ValueKind::Number,
                    found: crate::parsing::errors::value_kind(v),
                },
            ),
        }
    }

    fn cast_num(n: &JsonNumber) -> (r: Option<u32>) {
        match n.as_u64 {
            Some(v) => if v <= 4294967295 {
                Some(v as u32)
            } else {
                None
            },
            None => None,
        }
    }

    fn kind() -> (k: InputTypes) {
        InputTypes::uint32
    }
}

impl Element for u64 {
    open spec fn kind_spec() -> InputTypes {
        InputTypes::uint64
    }

    open spec fn cast_num_spec(n: JsonNumber) -> Option<u64> {
        n.as_u64
    }

    open spec fn cast_leaf_spec(v: DynView) -> Result<u64, ErrView> {
        match v {
            DynView::Num(n) => match Self::cast_num_spec(n) {
                Some(x) => Ok(x),
                None => Err(ErrView::CastOverflow { value: n.repr, target: InputTypes::uint64 }),
            },
            _ => Err(
                ErrView::SchemaMismatch { expected: ValueKind::Number, found: kind_of(v) },
            ),
        }
    }

    fn cast_leaf(v: &PythonType) -> (r: Result<u64, DecodeError>) {
        match v {
            PythonType::Number(n) => match Self::cast_num(n) {
                Some(x) => Ok(x),
                None => Err(
                    DecodeError::CastOverflow { value: n.repr, target: InputTypes::uint64 },
                ),
            },
            _ => Err(
                DecodeError::SchemaMismatch {
                    expected: ValueKind::Number,
                    found: crate::parsing::errors::value_kind(v),
                },
            ),
        }
    }

    fn cast_num(n: &JsonNumber) -> (r: Option<u64>) {
        n.as_u64
    }

    fn kind() -> (k: InputTypes) {
        InputTypes::uint64
    }
}

impl Element for F32Bits {
    open spec fn kind_spec() -> InputTypes {
        InputTypes::float32
    }

    open spec fn cast_num_spec(n: JsonNumber) -> Option<F32Bits> {
        Some(F32Bits(n.as_f32_bits))
    }

    open spec fn cast_leaf_spec(v: DynView) -> Result<F32Bits, ErrView> {
        match v {
            DynView::Num(n) => match Self::cast_num_spec(n) {
                Some(x) => Ok(x),
                None => Err(ErrView::CastOverflow { value: n.repr, target: InputTypes::float32 }),
            },
            _ => Err(
                ErrView::SchemaMismatch { expected: ValueKind::Number, found: kind_of(v) },
            ),
        }
    }

    fn cast_leaf(v: &PythonType) -> (r: Result<F32Bits, DecodeError>) {
        match v {
            PythonType::Number(n) => match Self::cast_num(n) {
                Some(x) => Ok(x),
                None => Err(
                    DecodeError::CastOverflow { value: n.repr, target: InputTypes::float32 },
                ),
            },
            _ => Err(
                DecodeError::SchemaMismatch {
                    expected: ValueKind::Number,
                    found: crate::parsing::errors::value_kind(v),
                },
            ),
        }
    }

    fn cast_num(n: &JsonNumber) -> (r: Option<F32Bits>) {
        Some(F32Bits(n.as_f32_bits))
    }

    fn kind() -> (k: InputTypes) {
        InputTypes::float32
    }
}

impl Element for F64Bits {
    open spec fn kind_spec() -> InputTypes {
        InputTypes::float64
    }

    open spec fn cast_num_spec(n: JsonNumber) -> Option<F64Bits> {
        Some(F64Bits(n.as_f64_bits))
    }

    open spec fn cast_leaf_spec(v: DynView) -> Result<F64Bits, ErrView> {
        match v {
            DynView::Num(n) => match Self::cast_num_spec(n) {
                Some(x) => Ok(x),
                None => Err(ErrView::CastOverflow { value: n.repr, target: InputTypes::float64 }),
            },
            _ => Err(
                ErrView::SchemaMismatch { expected: ValueKind::Number, found: kind_of(v) },
            ),
        }
    }

    fn cast_leaf(v: &PythonType) -> (r: Result<F64Bits, DecodeError>) {
        match v {
            PythonType::Number(n) => match Self::cast_num(n) {
                Some(x) => Ok(x),
                None => Err(
                    DecodeError::CastOverflow { value: n.repr, target: InputTypes::float64 },
                ),
            },
            _ => Err(
                DecodeError::SchemaMismatch {
                    expected: ValueKind::Number,
                    found: crate::parsing::errors::value_kind(v),
                },
            ),
        }
    }

    fn cast_num(n: &JsonNumber) -> (r: Option<F64Bits>) {
        Some(F64Bits(n.as_f64_bits))
    }

    fn kind() -> (k: InputTypes) {
        InputTypes::float64
    }
}

impl Element for bool {
    open spec fn kind_spec() -> InputTypes {
        InputTypes::bool_
    }

    open spec fn cast_num_spec(n: JsonNumber) -> Option<bool> {
        None
    }

    /// A boolean buffer accepts exactly the boolean tokens.
    open spec fn cast_leaf_spec(v: DynView) -> Result<bool, ErrView> {
        match v {
            DynView::Bool(b) => Ok(b),
            _ => Err(ErrView::SchemaMismatch { expected: ValueKind::Bool, found: kind_of(v) }),
        }
    }

    fn cast_num(n: &JsonNumber) -> (r: Option<bool>) {
        None
    }

    fn cast_leaf(v: &PythonType) -> (r: Result<bool, DecodeError>) {
        match v {
            PythonType::Bool(b) => Ok(*b),
            _ => Err(
                DecodeError::SchemaMismatch {
                    expected: ValueKind::Bool,
                    found: crate::parsing::errors::value_kind(v),
                },
            ),
        }
    }

    fn kind() -> (k: InputTypes) {
        InputTypes::bool_
    }
}

/// The dimension sizes inferred for a dynamic value: nothing for a scalar;
/// for a sequence, its length followed by the dimensions of its first
/// element.  Only the leftmost spine of the tree contributes, mirroring the
/// builder, which takes the first child's shape as canonical at each level.
pub open spec fn dims(v: DynView) -> Seq<int>
    decreases v,
{
    match v {
        DynView::List(elems) => seq![elems.len() as int] + if elems.len() > 0 {
            dims(elems[0])
        } else {
            Seq::empty()
        },
        _ => Seq::empty(),
    }
}

/// The flattened decode of a dynamic value into elements of type `T`: the
/// row-major concatenation of every scalar's checked narrowing, or the
/// first error in depth-first order.
pub open spec fn flat<T: Element>(v: DynView) -> Result<Seq<T>, ErrView>
    decreases v,
{
    match v {
        DynView::List(elems) => flat_seq::<T>(elems),
        _ => match T::cast_leaf_spec(v) {
            Ok(x) => Ok(seq![x]),
            Err(e) => Err(e),
        },
    }
}

/// The flattened decode of a sequence of sibling values, in order; an error
/// in an earlier sibling takes precedence over one in a later sibling.
pub open spec fn flat_seq<T: Element>(s: Seq<DynView>) -> Result<Seq<T>, ErrView>
    decreases s,
{
    if s.len() == 0 {
        Ok(Seq::empty())
    } else {
        match flat_seq::<T>(s.drop_last()) {
            Err(e) => Err(e),
            Ok(t) => match flat::<T>(s.last()) {
                Err(e) => Err(e),
                Ok(h) => Ok(t + h),
            },
        }
    }
}

/// What decoding a dynamic value into a typed buffer yields: a scalar for a
/// non-sequence input, otherwise the flattened elements with the inferred
/// shape — provided the shape accounts for exactly the elements found, and
/// `IrregularShape` otherwise.
pub open spec fn decode_array_spec<T: Element>(v: DynView) -> Result<ArrayView<T>, ErrView> {
    if !(v is List) {
        match T::cast_leaf_spec(v) {
            Ok(x) => Ok(ArrayView::Scalar(x)),
            Err(e) => Err(e),
        }
    } else {
        match flat::<T>(v) {
            Err(e) => Err(e),
            Ok(data) => if product(dims(v)) == data.len() {
                Ok(ArrayView::Dense { data, shape: dims(v) })
            } else {
                Err(ErrView::IrregularShape { shape: dims(v), len: data.len() as int })
            },
        }
    }
}

/// The product of a shape is unchanged by splitting the shape at any point.
proof fn lemma_product_split(s: Seq<int>, i: int)
    requires
        0 <= i <= s.len(),
    ensures
        product(s) == product(s.take(i)) * product(s.skip(i)),
    decreases i,
{
    if i == 0 {
        assert(s.take(0) =~= Seq::<int>::empty());
        assert(s.skip(0) =~= s);
    } else {
        lemma_product_split(s.drop_first(), i - 1);
        assert(s.drop_first().take(i - 1) =~= s.take(i).drop_first());
        assert(s.drop_first().skip(i - 1) =~= s.skip(i));
        assert(product(s.take(i)) == s[0] * product(s.take(i).drop_first()));
        assert(s[0] * (product(s.drop_first().take(i - 1)) * product(s.skip(i))) == (s[0]
            * product(s.drop_first().take(i - 1))) * product(s.skip(i)))
            by (nonlinear_arith);
    }
}

/// A shape with a zero dimension has product zero.
proof fn lemma_product_zero(s: Seq<int>, i: int)
    requires
        0 <= i < s.len(),
        s[i] == 0,
    ensures
        product(s) == 0,
    decreases s.len(),
{
    if i == 0 {
    } else {
        lemma_product_zero(s.drop_first(), i - 1);
    }
}

/// A shape of positive dimensions has positive product.
proof fn lemma_product_pos(s: Seq<int>)
    requires
        forall|j: int| 0 <= j < s.len() ==> s[j] >= 1,
    ensures
        product(s) >= 1,
    decreases s.len(),
{
    if s.len() > 0 {
        assert(forall|j: int| 0 <= j < s.drop_first().len() ==> #[trigger] s.drop_first()[j] >= 1);
        lemma_product_pos(s.drop_first());
        assert(s[0] * product(s.drop_first()) >= 1) by (nonlinear_arith)
            requires
                s[0] >= 1,
                product(s.drop_first()) >= 1,
        ;
    }
}

/// Extending the decoded prefix of a sibling sequence by one more sibling.
proof fn lemma_flat_seq_step<T: Element>(s: Seq<DynView>, i: int)
    requires
        0 <= i < s.len(),
    ensures
        flat_seq::<T>(s.take(i + 1)) == (match (flat_seq::<T>(s.take(i)), flat::<T>(s[i])) {
            (Err(e), _) => Err::<Seq<T>, ErrView>(e),
            (Ok(_), Err(e)) => Err::<Seq<T>, ErrView>(e),
            (Ok(t), Ok(h)) => Ok::<Seq<T>, ErrView>(t + h),
        }),
{
    assert(s.take(i + 1).drop_last() =~= s.take(i));
    assert(s.take(i + 1).last() == s[i]);
}

/// An error in sibling `i`, with all earlier siblings decoding cleanly, is
/// the error of the whole sibling sequence.
proof fn lemma_flat_seq_err<T: Element>(s: Seq<DynView>, i: int)
    requires
        0 <= i < s.len(),
        flat_seq::<T>(s.take(i)) is Ok,
        flat::<T>(s[i]) is Err,
    ensures
        flat_seq::<T>(s) == Err::<Seq<T>, ErrView>(flat::<T>(s[i])->Err_0),
    decreases s.len(),
{
    if i + 1 == s.len() {
        assert(s.take(i) =~= s.drop_last());
        assert(s.last() == s[i]);
    } else {
        assert(s.drop_last().take(i) =~= s.take(i));
        assert(s.drop_last()[i] == s[i]);
        lemma_flat_seq_err::<T>(s.drop_last(), i);
    }
}

/// Reversal turns a prepended dimension into an appended one.
proof fn lemma_reverse_prepend(x: int, d: Seq<int>)
    ensures
        (seq![x] + d).reverse() =~= d.reverse() + seq![x],
{
}

impl<T: Copy> Array<T> {
    /// A fresh, empty one-dimensional dense buffer (shape `[0]`).
    pub fn new() -> (r: Array<T>)
        ensures
            r.deep_view() == (ArrayView::Dense { data: Seq::<T>::empty(), shape: seq![0int] }),
            r.wf(),
    {
        let mut shape: Vec<usize> = Vec::new();
        shape.push(0);
        let r = Array(Base::Array(Vec::new()), Some(shape));
        proof {
            assert(ints(shape@) =~= seq![0int]);
            assert(product(seq![0int].drop_first()) == 1);
        }
        r
    }

    /// Appends one element to a one-dimensional dense buffer, keeping the
    /// recorded outer extent in step with the element count.
    pub fn push(&mut self, value: T)
        requires
            old(self).wf(),
            old(self).0 is Array,
            (match old(self).1 {
                Some(shape) => shape@.len() == 1,
                None => false,
            }),
            (match old(self).0 {
                Base::Array(vals) => vals@.len() < usize::MAX,
                Base::Scalar(_) => false,
            }),
        ensures
            final(self).wf(),
            ({
                let old_data = match old(self).0 {
                    Base::Array(vals) => vals@,
                    Base::Scalar(_) => Seq::<T>::empty(),
                };
                final(self).deep_view() == (ArrayView::Dense {
                    data: old_data.push(value),
                    shape: seq![old_data.len() as int + 1],
                })
            }),
    {
        proof {
            let shape0 = old(self).1->0@;
            assert(product(ints(shape0)) == ints(shape0)[0] * product(ints(shape0).drop_first()));
            assert(ints(shape0).drop_first() =~= Seq::<int>::empty());
        }
        match self {
            Array(Base::Array(vals), Some(shape)) => {
                vals.push(value);
                let extent = shape[0];
                shape.set(0, extent + 1);
                proof {
                    assert(ints(shape@) =~= seq![vals@.len() as int]);
                    assert(product(ints(shape@)) == ints(shape@)[0] * product(
                        ints(shape@).drop_first(),
                    ));
                    assert(ints(shape@).drop_first() =~= Seq::<int>::empty());
                }
            }
            _ => {
                proof {
                    assert(false);
                }
            }
        }
    }
}

/// The reversal of a dimension vector: the builder records dimensions
/// innermost first, while shapes are reported outermost first.
fn reversed(src: &Vec<usize>) -> (r: Vec<usize>)
    ensures
        r@ == src@.reverse(),
{
    let n = src.len();
    let mut out: Vec<usize> = Vec::new();
    let mut i: usize = 0;
    while i < n
        invariant
            i <= n,
            n == src@.len(),
            out@.len() == i,
            forall|j: int| 0 <= j < i ==> out@[j] == src@[n - 1 - j],
        decreases n - i,
    {
        out.push(src[n - 1 - i]);
        i += 1;
    }
    proof {
        assert(out@ =~= src@.reverse());
    }
    out
}

/// The prefix product grows by one factor at a time.
proof fn lemma_prefix_product(s: Seq<int>, k: int)
    requires
        0 <= k < s.len(),
    ensures
        product(s.take(k + 1)) == product(s.take(k)) * s[k],
{
    lemma_product_split(s.take(k + 1), k);
    assert(s.take(k + 1).take(k) =~= s.take(k));
    assert(s.take(k + 1).skip(k) =~= seq![s[k]]);
    assert(product(seq![s[k]]) == s[k] * product(seq![s[k]].drop_first()));
    assert(seq![s[k]].drop_first() =~= Seq::<int>::empty());
}

/// The product of the dimensions, `None` when it exceeds `usize::MAX`.
fn product_checked(dims_vec: &Vec<usize>) -> (r: Option<usize>)
    ensures
        match r {
            Some(p) => p as int == product(ints(dims_vec@)),
            None => product(ints(dims_vec@)) > usize::MAX,
        },
{
    let n = dims_vec.len();
    let mut i: usize = 0;
    while i < n
        invariant
            i <= n,
            n == dims_vec@.len(),
            forall|j: int| 0 <= j < i ==> dims_vec@[j] >= 1,
        decreases n - i,
    {
        if dims_vec[i] == 0 {
            proof {
                lemma_product_zero(ints(dims_vec@), i as int);
            }
            return Some(0);
        }
        i += 1;
    }
    let mut acc: usize = 1;
    let mut k: usize = 0;
    while k < n
        invariant
            k <= n,
            n == dims_vec@.len(),
            forall|j: int| 0 <= j < n ==> dims_vec@[j] >= 1,
            acc as int == product(ints(dims_vec@).take(k as int)),
            acc >= 1,
        decreases n - k,
    {
        let d = dims_vec[k];
        proof {
            lemma_prefix_product(ints(dims_vec@), k as int);
        }
        match acc.checked_mul(d) {
            Some(next) => {
                proof {
                    assert(next as int == acc as int * d as int);
                    assert(acc as int * d as int >= 1) by (nonlinear_arith)
                        requires
                            acc as int >= 1,
                            d as int >= 1,
                    ;
                }
                acc = next;
                k += 1;
            }
            None => {
                proof {
                    let s = ints(dims_vec@);
                    lemma_product_split(s, k + 1);
                    assert(forall|j: int| 0 <= j < s.skip(k + 1).len() ==> #[trigger] s.skip(k + 1)[j] >= 1);
                    lemma_product_pos(s.skip(k + 1));
                    assert(product(s.take(k + 1)) > usize::MAX && product(s.skip(k + 1)) >= 1
                        ==> product(s.take(k + 1)) * product(s.skip(k + 1)) > usize::MAX)
                        by (nonlinear_arith);
                }
                return None;
            }
        }
    }
    proof {
        assert(ints(dims_vec@).take(n as int) =~= ints(dims_vec@));
    }
    Some(acc)
}

/// One pass of the builder over a dynamic value: appends every narrowed
/// scalar of the subtree to `values` in depth-first order and, when
/// `compute_shape` is set, appends the dimensions inferred from this
/// subtree to `shape`, innermost dimension first.
fn visit<T: Element>(
    v: &PythonType,
    values: &mut Vec<T>,
    shape: &mut Vec<usize>,
    compute_shape: bool,
) -> (r: Result<(), DecodeError>)
    ensures
        match r {
            Ok(_) => {
                &&& flat::<T>(v.deep_view()) is Ok
                &&& final(values)@ == old(values)@ + flat::<T>(v.deep_view())->Ok_0
                &&& ints(final(shape)@) == ints(old(shape)@) + if compute_shape {
                    dims(v.deep_view()).reverse()
                } else {
                    Seq::<int>::empty()
                }
            },
            Err(e) => flat::<T>(v.deep_view()) == Err::<Seq<T>, ErrView>(e.deep_view()),
        },
    decreases v,
{
    match v {
        PythonType::List(elems) => {
            let ghost ev = v.deep_view()->List_0;
            proof {
                assert(v.deep_view() == DynView::List(ev));
                assert(ev.len() == elems@.len());
                assert(forall|j: int|
                    0 <= j < elems@.len() ==> ev[j] == #[trigger] elems@[j].deep_view());
            }
            let n = elems.len();
            let mut i: usize = 0;
            proof {
                assert(ev.take(0) =~= Seq::<DynView>::empty());
                assert(values@ =~= values@ + Seq::<T>::empty());
            }
            while i < n
                invariant
                    i <= n,
                    n == elems@.len(),
                    *v == PythonType::List(*elems),
                    v.deep_view() == DynView::List(ev),
                    ev.len() == n,
                    forall|j: int| 0 <= j < n ==> ev[j] == #[trigger] elems@[j].deep_view(),
                    flat_seq::<T>(ev.take(i as int)) is Ok,
                    values@ == old(values)@ + flat_seq::<T>(ev.take(i as int))->Ok_0,
                    ints(shape@) == ints(old(shape)@) + if compute_shape && i > 0 {
                        dims(ev[0]).reverse()
                    } else {
                        Seq::<int>::empty()
                    },
                decreases n - i,
            {
                let child_compute = compute_shape && i == 0;
                let ghost values_before = values@;
                let ghost shape_before = shape@;
                proof {
                    assert(*elems == v->List_0);
                    assert(decreases_to!(*v => v->List_0));
                    assert(decreases_to!(*elems => elems@));
                    assert(decreases_to!(elems@ => elems@[i as int]));
                }
                let res = visit::<T>(&elems[i], values, shape, child_compute);
                proof {
                    lemma_flat_seq_step::<T>(ev, i as int);
                }
                match res {
                    Ok(_) => {
                        proof {
                            assert(values@ == old(values)@ + (flat_seq::<T>(
                                ev.take(i as int),
                            )->Ok_0 + flat::<T>(ev[i as int])->Ok_0));
                            assert(old(values)@ + (flat_seq::<T>(ev.take(i as int))->Ok_0
                                + flat::<T>(ev[i as int])->Ok_0) =~= old(values)@ + flat_seq::<
                                T,
                            >(ev.take(i as int + 1))->Ok_0);
                            if child_compute {
                                assert(ints(shape_before) =~= ints(old(shape)@));
                            } else {
                                assert(ints(shape@) =~= ints(shape_before));
                            }
                        }
                        i += 1;
                    }
                    Err(e) => {
                        proof {
                            lemma_flat_seq_err::<T>(ev, i as int);
                        }
                        return Err(e);
                    }
                }
            }
            proof {
                assert(ev.take(n as int) =~= ev);
            }
            if compute_shape {
                let ghost shape_after_loop = shape@;
                shape.push(n);
                proof {
                    let d = dims(v.deep_view());
                    assert(ints(shape@) =~= ints(shape_after_loop) + seq![n as int]);
                    if n == 0 {
                        assert(d =~= seq![0int]);
                        assert(d.reverse() =~= seq![0int]);
                        assert(ints(shape_after_loop) =~= ints(old(shape)@));
                        assert(ints(shape@) =~= ints(old(shape)@) + d.reverse());
                    } else {
                        assert(d == seq![n as int] + dims(ev[0]));
                        lemma_reverse_prepend(n as int, dims(ev[0]));
                        assert(ints(shape_after_loop) == ints(old(shape)@) + dims(
                            ev[0],
                        ).reverse());
                        assert(ints(shape@) =~= ints(old(shape)@) + d.reverse());
                    }
                }
            }
            Ok(())
        }
        _ => {
            match T::cast_leaf(v) {
                Ok(x) => {
                    values.push(x);
                    proof {
                        assert(flat::<T>(v.deep_view()) == Ok::<Seq<T>, ErrView>(
                            seq![x],
                        ));
                        assert(values@ =~= old(values)@ + seq![x]);
                        assert(ints(shape@) =~= ints(old(shape)@) + Seq::<int>::empty());
                        assert(dims(v.deep_view()) == Seq::<int>::empty());
                        assert(Seq::<int>::empty().reverse() =~= Seq::<int>::empty());
                    }
                    Ok(())
                }
                Err(e) => Err(e),
            }
        }
    }
}

/// Decodes one dynamic value into a typed buffer of `T`: a non-sequence
/// input becomes a scalar; a (nested) sequence becomes a dense, flat
/// buffer with the shape inferred from its nesting, after the shape has
/// been verified to account for exactly the elements found.
pub fn decode_array<T: Element>(v: &PythonType) -> (r: Result<Array<T>, DecodeError>)
    ensures
        match r {
            Ok(a) => decode_array_spec::<T>(v.deep_view()) == Ok::<ArrayView<T>, ErrView>(
                a.deep_view(),
            ) && a.wf(),
            Err(e) => decode_array_spec::<T>(v.deep_view()) == Err::<ArrayView<T>, ErrView>(
                e.deep_view(),
            ),
        },
{
    match v {
        PythonType::List(_) => {
            let mut values: Vec<T> = Vec::new();
            let mut inner_shape: Vec<usize> = Vec::new();
            match visit::<T>(v, &mut values, &mut inner_shape, true) {
                Ok(_) => {}
                Err(e) => {
                    return Err(e);
                }
            }
            let shape = reversed(&inner_shape);
            proof {
                assert(values@ =~= flat::<T>(v.deep_view())->Ok_0);
                assert(ints(inner_shape@) =~= dims(v.deep_view()).reverse());
                assert(ints(shape@) =~= ints(inner_shape@).reverse());
                assert(ints(shape@) =~= dims(v.deep_view()));
            }
            match product_checked(&shape) {
                Some(p) => {
                    if p == values.len() {
                        let a = Array(Base::Array(values), Some(shape));
                        proof {
                            assert(a.deep_view() == (ArrayView::Dense {
                                data: flat::<T>(v.deep_view())->Ok_0,
                                shape: dims(v.deep_view()),
                            }));
                        }
                        Ok(a)
                    } else {
                        Err(DecodeError::IrregularShape { shape, len: values.len() })
                    }
                }
                None => {
                    Err(DecodeError::IrregularShape { shape, len: values.len() })
                }
            }
        }
        _ => {
            match T::cast_leaf(v) {
                Ok(x) => Ok(Array(Base::Scalar(x), None)),
                Err(e) => Err(e),
            }
        }
    }
}

} // verus!
