//! The columnar transpose engine.
//!
//! A row-oriented schema (`ListofList` or `ListofMap`) declares one row
//! template; the engine creates one growable column builder per declared
//! column and pivots the input rows into them one row at a time, without
//! ever materializing the row-major structure.

use vstd::prelude::*;

use crate::parsing::array_types::{
    ints, product, Array, ArrayView, Base, BoolArray, Element, F32Bits, F64Bits,
};
use crate::parsing::errors::{kind_of, DecodeError, ErrView, ValueKind};
use crate::parsing::python_types::{dyn_items_view, dyn_view, DynView, PythonType};
use crate::parsing::{clone_value, out_items_view, out_view, InputTypes, OutView, OutputTypes};

verus! {

/// The empty column created for one declared column kind: an empty
/// one-dimensional typed buffer for the typed kinds, an empty passthrough
/// list for the dynamic kinds.
pub open spec fn col_init(t: InputTypes) -> OutView {
    match t {
        InputTypes::int8 => OutView::I8(ArrayView::Dense { data: Seq::empty(), shape: seq![0int] }),
        InputTypes::int16 => OutView::I16(
            ArrayView::Dense { data: Seq::empty(), shape: seq![0int] },
        ),
        InputTypes::int32 => OutView::I32(
            ArrayView::Dense { data: Seq::empty(), shape: seq![0int] },
        ),
        InputTypes::int64 => OutView::I64(
            ArrayView::Dense { data: Seq::empty(), shape: seq![0int] },
        ),
        InputTypes::uint8 => OutView::U8(ArrayView::Dense { data: Seq::empty(), shape: seq![0int] }),
        InputTypes::uint16 => OutView::U16(
            ArrayView::Dense { data: Seq::empty(), shape: seq![0int] },
        ),
        InputTypes::uint32 => OutView::U32(
            ArrayView::Dense { data: Seq::empty(), shape: seq![0int] },
        ),
        InputTypes::uint64 => OutView::U64(
            ArrayView::Dense { data: Seq::empty(), shape: seq![0int] },
        ),
        InputTypes::float32 => OutView::F32(
            ArrayView::Dense { data: Seq::empty(), shape: seq![0int] },
        ),
        InputTypes::float64 => OutView::F64(
            ArrayView::Dense { data: Seq::empty(), shape: seq![0int] },
        ),
        InputTypes::bool_ => OutView::Bool(
            ArrayView::Dense { data: Seq::empty(), shape: seq![0int] },
        ),
        _ => OutView::PyList(Seq::empty()),
    }
}

/// Appending one row element to a column: the element undergoes the
/// column's checked narrowing (or is passed through verbatim for a dynamic
/// column) and the column's outer extent grows by one.
pub open spec fn col_push(c: OutView, v: DynView) -> Result<OutView, ErrView> {
    match c {
        OutView::I8(ArrayView::Dense { data, shape }) => match <i8 as Element>::cast_leaf_spec(v) {
            Ok(x) => Ok(
                OutView::I8(
                    ArrayView::Dense { data: data.push(x), shape: seq![data.len() as int + 1] },
                ),
            ),
            Err(e) => Err(e),
        },
        OutView::I16(ArrayView::Dense { data, shape }) => match <i16 as Element>::cast_leaf_spec(
            v,
        ) {
            Ok(x) => Ok(
                OutView::I16(
                    ArrayView::Dense { data: data.push(x), shape: seq![data.len() as int + 1] },
                ),
            ),
            Err(e) => Err(e),
        },
        OutView::I32(ArrayView::Dense { data, shape }) => match <i32 as Element>::cast_leaf_spec(
            v,
        ) {
            Ok(x) => Ok(
                OutView::I32(
                    ArrayView::Dense { data: data.push(x), shape: seq![data.len() as int + 1] },
                ),
            ),
            Err(e) => Err(e),
        },
        OutView::I64(ArrayView::Dense { data, shape }) => match <i64 as Element>::cast_leaf_spec(
            v,
        ) {
            Ok(x) => Ok(
                OutView::I64(
                    ArrayView::Dense { data: data.push(x), shape: seq![data.len() as int + 1] },
                ),
            ),
            Err(e) => Err(e),
        },
        OutView::U8(ArrayView::Dense { data, shape }) => match <u8 as Element>::cast_leaf_spec(v) {
            Ok(x) => Ok(
                OutView::U8(
                    ArrayView::Dense { data: data.push(x), shape: seq![data.len() as int + 1] },
                ),
            ),
            Err(e) => Err(e),
        },
        OutView::U16(ArrayView::Dense { data, shape }) => match <u16 as Element>::cast_leaf_spec(
            v,
        ) {
            Ok(x) => Ok(
                OutView::U16(
                    ArrayView::Dense { data: data.push(x), shape: seq![data.len() as int + 1] },
                ),
            ),
            Err(e) => Err(e),
        },
        OutView::U32(ArrayView::Dense { data, shape }) => match <u32 as Element>::cast_leaf_spec(
            v,
        ) {
            Ok(x) => Ok(
                OutView::U32(
                    ArrayView::Dense { data: data.push(x), shape: seq![data.len() as int + 1] },
                ),
            ),
            Err(e) => Err(e),
        },
        OutView::U64(ArrayView::Dense { data, shape }) => match <u64 as Element>::cast_leaf_spec(
            v,
        ) {
            Ok(x) => Ok(
                OutView::U64(
                    ArrayView::Dense { data: data.push(x), shape: seq![data.len() as int + 1] },
                ),
            ),
            Err(e) => Err(e),
        },
        OutView::F32(ArrayView::Dense { data, shape }) => match <F32Bits as Element>::cast_leaf_spec(
            v,
        ) {
            Ok(x) => Ok(
                OutView::F32(
                    ArrayView::Dense { data: data.push(x), shape: seq![data.len() as int + 1] },
                ),
            ),
            Err(e) => Err(e),
        },
        OutView::F64(ArrayView::Dense { data, shape }) => match <F64Bits as Element>::cast_leaf_spec(
            v,
        ) {
            Ok(x) => Ok(
                OutView::F64(
                    ArrayView::Dense { data: data.push(x), shape: seq![data.len() as int + 1] },
                ),
            ),
            Err(e) => Err(e),
        },
        OutView::Bool(ArrayView::Dense { data, shape }) => match <bool as Element>::cast_leaf_spec(
            v,
        ) {
            Ok(x) => Ok(
                OutView::Bool(
                    ArrayView::Dense { data: data.push(x), shape: seq![data.len() as int + 1] },
                ),
            ),
            Err(e) => Err(e),
        },
        OutView::PyList(items) => Ok(OutView::PyList(items.push(v))),
        _ => Ok(c),
    }
}

/// Appending the first `i` cells of one positional row to their columns,
/// column by column; a row shorter than the declared columns is
/// `SequenceExhausted`.
pub open spec fn push_row_cells(
    n_cols: int,
    state: Seq<OutView>,
    cells: Seq<DynView>,
    i: int,
) -> Result<Seq<OutView>, ErrView>
    decreases i,
{
    if i <= 0 {
        Ok(state)
    } else {
        match push_row_cells(n_cols, state, cells, i - 1) {
            Err(e) => Err(e),
            Ok(st) => if i - 1 >= cells.len() {
                Err(ErrView::SequenceExhausted { expected: n_cols, found: cells.len() as int })
            } else {
                match col_push(st[i - 1], cells[i - 1]) {
                    Err(e) => Err(e),
                    Ok(c) => Ok(st.update(i - 1, c)),
                }
            },
        }
    }
}

/// Appending one positional row: the row must itself be a sequence, and
/// each declared column takes the cell at its position (trailing extra
/// cells are ignored).
pub open spec fn push_row_spec(state: Seq<OutView>, row: DynView) -> Result<
    Seq<OutView>,
    ErrView,
> {
    match row {
        DynView::List(cells) => push_row_cells(state.len() as int, state, cells, state.len() as int),
        _ => Err(ErrView::SchemaMismatch { expected: ValueKind::List, found: kind_of(row) }),
    }
}

/// The columnar transpose of positional rows: one empty column per
/// declared kind, then the rows appended in order.
pub open spec fn transpose_rows_spec(cols: Seq<InputTypes>, rows: Seq<DynView>) -> Result<
    Seq<OutView>,
    ErrView,
>
    decreases rows.len(),
{
    if rows.len() == 0 {
        Ok(Seq::new(cols.len(), |i: int| col_init(cols[i])))
    } else {
        match transpose_rows_spec(cols, rows.drop_last()) {
            Err(e) => Err(e),
            Ok(state) => push_row_spec(state, rows.last()),
        }
    }
}

/// The index of the first entry of an association sequence bearing `key`,
/// or -1 when no entry does.
pub open spec fn assoc_index<V>(s: Seq<(Seq<char>, V)>, key: Seq<char>) -> int
    decreases s.len(),
{
    if s.len() == 0 {
        -1
    } else if s[0].0 == key {
        0
    } else {
        let r = assoc_index(s.drop_first(), key);
        if r < 0 {
            -1int
        } else {
            r + 1
        }
    }
}

/// `assoc_index` finds the first entry bearing the key, if any entry does.
pub proof fn lemma_assoc_index<V>(s: Seq<(Seq<char>, V)>, key: Seq<char>)
    ensures
        assoc_index(s, key) == -1 ==> forall|j: int| 0 <= j < s.len() ==> (#[trigger] s[j]).0
            != key,
        assoc_index(s, key) != -1 ==> {
            let r = assoc_index(s, key);
            &&& 0 <= r < s.len()
            &&& s[r].0 == key
            &&& forall|j: int| 0 <= j < r ==> (#[trigger] s[j]).0 != key
        },
    decreases s.len(),
{
    if s.len() > 0 && s[0].0 != key {
        lemma_assoc_index(s.drop_first(), key);
        assert(forall|j: int|
            1 <= j < s.len() ==> (#[trigger] s[j]) == s.drop_first()[j - 1]);
    }
}

/// Validating one keyed cell against its declared column kind, without yet
/// appending it: exactly the check that appending to a fresh column of
/// that kind would perform.
pub open spec fn col_check(t: InputTypes, v: DynView) -> Result<(), ErrView> {
    match col_push(col_init(t), v) {
        Ok(_) => Ok(()),
        Err(e) => Err(e),
    }
}

/// Walking one keyed row's entries in order: an entry bearing a declared
/// column name has its value validated and recorded (a later entry with
/// the same name overwrites an earlier one); other entries are ignored.
pub open spec fn keyed_row_assign(
    cols: Seq<(Seq<char>, InputTypes)>,
    entries: Seq<(Seq<char>, DynView)>,
) -> Result<Seq<Option<DynView>>, ErrView>
    decreases entries.len(),
{
    if entries.len() == 0 {
        Ok(Seq::new(cols.len(), |i: int| None))
    } else {
        match keyed_row_assign(cols, entries.drop_last()) {
            Err(e) => Err(e),
            Ok(assign) => {
                let key = entries.last().0;
                let val = entries.last().1;
                let j = assoc_index(cols, key);
                if 0 <= j < cols.len() {
                    match col_check(cols[j].1, val) {
                        Err(e) => Err(e),
                        Ok(_) => Ok(assign.update(j, Some(val))),
                    }
                } else {
                    Ok(assign)
                }
            },
        }
    }
}

/// The names of the first `i` declared columns that one keyed row did not
/// provide, in declared order.
pub open spec fn unseen_keys(
    cols: Seq<(Seq<char>, InputTypes)>,
    assign: Seq<Option<DynView>>,
    i: int,
) -> Seq<Seq<char>>
    decreases i,
{
    if i <= 0 {
        Seq::empty()
    } else {
        unseen_keys(cols, assign, i - 1) + if assign[i - 1] is None {
            seq![cols[i - 1].0]
        } else {
            Seq::empty()
        }
    }
}

/// Committing one keyed row's recorded values to the first `i` columns, in
/// declared order.  Validation has already succeeded, so the appends
/// cannot fail.
pub open spec fn commit_row(
    state: Seq<OutView>,
    assign: Seq<Option<DynView>>,
    i: int,
) -> Seq<OutView>
    decreases i,
{
    if i <= 0 {
        state
    } else {
        let st = commit_row(state, assign, i - 1);
        match assign[i - 1] {
            Some(v) => match col_push(st[i - 1], v) {
                Ok(c) => st.update(i - 1, c),
                Err(_) => st,
            },
            None => st,
        }
    }
}

/// Appending one keyed row: the row must be a map; its entries are walked
/// in order, every declared column must be provided (`MissingKeys` names
/// all that are not), and the recorded values are appended column by
/// column.
pub open spec fn push_keyed_row_spec(
    cols: Seq<(Seq<char>, InputTypes)>,
    state: Seq<OutView>,
    row: DynView,
) -> Result<Seq<OutView>, ErrView> {
    match row {
        DynView::Dict(entries) => match keyed_row_assign(cols, entries) {
            Err(e) => Err(e),
            Ok(assign) => {
                let missing = unseen_keys(cols, assign, cols.len() as int);
                if missing.len() == 0 {
                    Ok(commit_row(state, assign, cols.len() as int))
                } else {
                    Err(ErrView::MissingKeys { keys: missing })
                }
            },
        },
        _ => Err(ErrView::SchemaMismatch { expected: ValueKind::Dict, found: kind_of(row) }),
    }
}

/// The columnar transpose of keyed rows: one empty column per declared
/// name, then the rows appended in order.
pub open spec fn transpose_keyed_spec(
    cols: Seq<(Seq<char>, InputTypes)>,
    rows: Seq<DynView>,
) -> Result<Seq<OutView>, ErrView>
    decreases rows.len(),
{
    if rows.len() == 0 {
        Ok(Seq::new(cols.len(), |i: int| col_init(cols[i].1)))
    } else {
        match transpose_keyed_spec(cols, rows.drop_last()) {
            Err(e) => Err(e),
            Ok(state) => push_keyed_row_spec(cols, state, rows.last()),
        }
    }
}

/// A column builder in mid-transpose: the right variant for its declared
/// kind, one-dimensional, with `k` elements appended so far.
pub open spec fn col_len_ok(c: OutView, t: InputTypes, k: int) -> bool {
    match t {
        InputTypes::int8 => c matches OutView::I8(ArrayView::Dense { data, shape })
            && data.len() == k && shape == seq![k],
        InputTypes::int16 => c matches OutView::I16(ArrayView::Dense { data, shape })
            && data.len() == k && shape == seq![k],
        InputTypes::int32 => c matches OutView::I32(ArrayView::Dense { data, shape })
            && data.len() == k && shape == seq![k],
        InputTypes::int64 => c matches OutView::I64(ArrayView::Dense { data, shape })
            && data.len() == k && shape == seq![k],
        InputTypes::uint8 => c matches OutView::U8(ArrayView::Dense { data, shape })
            && data.len() == k && shape == seq![k],
        InputTypes::uint16 => c matches OutView::U16(ArrayView::Dense { data, shape })
            && data.len() == k && shape == seq![k],
        InputTypes::uint32 => c matches OutView::U32(ArrayView::Dense { data, shape })
            && data.len() == k && shape == seq![k],
        InputTypes::uint64 => c matches OutView::U64(ArrayView::Dense { data, shape })
            && data.len() == k && shape == seq![k],
        InputTypes::float32 => c matches OutView::F32(ArrayView::Dense { data, shape })
            && data.len() == k && shape == seq![k],
        InputTypes::float64 => c matches OutView::F64(ArrayView::Dense { data, shape })
            && data.len() == k && shape == seq![k],
        InputTypes::bool_ => c matches OutView::Bool(ArrayView::Dense { data, shape })
            && data.len() == k && shape == seq![k],
        _ => c matches OutView::PyList(items) && items.len() == k,
    }
}

/// A one-dimensional dense buffer's view pins down its representation.
proof fn lemma_dense_col<T: Copy>(a: Array<T>, k: int)
    requires
        a.deep_view() matches ArrayView::Dense { data, shape } && data.len() == k && shape
            == seq![k],
    ensures
        a.0 is Array,
        a.1 is Some,
        a.1->0@.len() == 1,
        a.wf(),
        (match a.0 {
            Base::Array(vals) => vals@.len() == k,
            Base::Scalar(_) => false,
        }),
{
    match a.0 {
        Base::Scalar(_) => {
            assert(false);
        }
        Base::Array(vals) => {
            match a.1 {
                None => {
                    assert(a.deep_view()->Dense_shape == Seq::<int>::empty());
                    assert(false);
                }
                Some(shape) => {
                    assert(a.deep_view() == (ArrayView::Dense {
                        data: vals@,
                        shape: ints(shape@),
                    }));
                    assert(ints(shape@) == seq![k]);
                    assert(ints(shape@).len() == shape@.len());
                    assert(seq![k].len() == 1);
                    assert(shape@.len() == 1);
                    assert(product(ints(shape@)) == ints(shape@)[0] * product(
                        ints(shape@).drop_first(),
                    ));
                    assert(ints(shape@).drop_first() =~= Seq::<int>::empty());
                }
            }
        }
    }
}

impl InputTypes {
    /// The empty column builder for one declared column kind.
    pub fn get_transpose_output_type(&self) -> (r: OutputTypes)
        ensures
            r.deep_view() == col_init(*self),
            col_len_ok(r.deep_view(), *self, 0),
    {
        get_transpose_output_type(self)
    }
}

/// The empty column builder for one declared column kind.
fn get_transpose_output_type(t: &InputTypes) -> (r: OutputTypes)
    ensures
        r.deep_view() == col_init(*t),
        col_len_ok(r.deep_view(), *t, 0),
{
    match t {
        InputTypes::int8 => OutputTypes::I8(Array::<i8>::new()),
        InputTypes::int16 => OutputTypes::I16(Array::<i16>::new()),
        InputTypes::int32 => OutputTypes::I32(Array::<i32>::new()),
        InputTypes::int64 => OutputTypes::I64(Array::<i64>::new()),
        InputTypes::uint8 => OutputTypes::U8(Array::<u8>::new()),
        InputTypes::uint16 => OutputTypes::U16(Array::<u16>::new()),
        InputTypes::uint32 => OutputTypes::U32(Array::<u32>::new()),
        InputTypes::uint64 => OutputTypes::U64(Array::<u64>::new()),
        InputTypes::float32 => OutputTypes::F32(Array::<F32Bits>::new()),
        InputTypes::float64 => OutputTypes::F64(Array::<F64Bits>::new()),
        InputTypes::bool_ => OutputTypes::Bool(BoolArray::new()),
        _ => {
            let items: Vec<PythonType> = Vec::new();
            proof {
                assert(dyn_items_view(items@) =~= Seq::<DynView>::empty());
            }
            OutputTypes::PyList(items)
        }
    }
}

/// Appends one row cell to its column builder, performing the column's
/// checked narrowing.
fn push_cell(col: &mut OutputTypes, t: &InputTypes, v: &PythonType, Ghost(k): Ghost<int>) -> (r:
    Result<(), DecodeError>)
    requires
        col_len_ok(old(col).deep_view(), *t, k),
        k < usize::MAX,
    ensures
        match r {
            Ok(_) => col_push(old(col).deep_view(), v.deep_view()) == Ok::<OutView, ErrView>(
                final(col).deep_view(),
            ) && col_len_ok(final(col).deep_view(), *t, k + 1),
            Err(e) => col_push(old(col).deep_view(), v.deep_view()) == Err::<OutView, ErrView>(
                e.deep_view(),
            ),
        },
{
    match col {
        OutputTypes::I8(arr) => match <i8 as Element>::cast_leaf(v) {
            Ok(x) => {
                proof {
                    lemma_dense_col::<i8>(*arr, k);
                }
                arr.push(x);
                Ok(())
            }
            Err(e) => Err(e),
        },
        OutputTypes::I16(arr) => match <i16 as Element>::cast_leaf(v) {
            Ok(x) => {
                proof {
                    lemma_dense_col::<i16>(*arr, k);
                }
                arr.push(x);
                Ok(())
            }
            Err(e) => Err(e),
        },
        OutputTypes::I32(arr) => match <i32 as Element>::cast_leaf(v) {
            Ok(x) => {
                proof {
                    lemma_dense_col::<i32>(*arr, k);
                }
                arr.push(x);
                Ok(())
            }
            Err(e) => Err(e),
        },
        OutputTypes::I64(arr) => match <i64 as Element>::cast_leaf(v) {
            Ok(x) => {
                proof {
                    lemma_dense_col::<i64>(*arr, k);
                }
                arr.push(x);
                Ok(())
            }
            Err(e) => Err(e),
        },
        OutputTypes::U8(arr) => match <u8 as Element>::cast_leaf(v) {
            Ok(x) => {
                proof {
                    lemma_dense_col::<u8>(*arr, k);
                }
                arr.push(x);
                Ok(())
            }
            Err(e) => Err(e),
        },
        OutputTypes::U16(arr) => match <u16 as Element>::cast_leaf(v) {
            Ok(x) => {
                proof {
                    lemma_dense_col::<u16>(*arr, k);
                }
                arr.push(x);
                Ok(())
            }
            Err(e) => Err(e),
        },
        OutputTypes::U32(arr) => match <u32 as Element>::cast_leaf(v) {
            Ok(x) => {
                proof {
                    lemma_dense_col::<u32>(*arr, k);
                }
                arr.push(x);
                Ok(())
            }
            Err(e) => Err(e),
        },
        OutputTypes::U64(arr) => match <u64 as Element>::cast_leaf(v) {
            Ok(x) => {
                proof {
                    lemma_dense_col::<u64>(*arr, k);
                }
                arr.push(x);
                Ok(())
            }
            Err(e) => Err(e),
        },
        OutputTypes::F32(arr) => match <F32Bits as Element>::cast_leaf(v) {
            Ok(x) => {
                proof {
                    lemma_dense_col::<F32Bits>(*arr, k);
                }
                arr.push(x);
                Ok(())
            }
            Err(e) => Err(e),
        },
        OutputTypes::F64(arr) => match <F64Bits as Element>::cast_leaf(v) {
            Ok(x) => {
                proof {
                    lemma_dense_col::<F64Bits>(*arr, k);
                }
                arr.push(x);
                Ok(())
            }
            Err(e) => Err(e),
        },
        OutputTypes::Bool(arr) => match <bool as Element>::cast_leaf(v) {
            Ok(x) => {
                proof {
                    lemma_dense_col::<bool>(*arr, k);
                }
                arr.push(x);
                Ok(())
            }
            Err(e) => Err(e),
        },
        OutputTypes::PyList(items) => {
            let c = clone_value(v);
            items.push(c);
            proof {
                assert(dyn_items_view(items@) =~= dyn_items_view(old(col)->PyList_0@).push(
                    v.deep_view(),
                ));
            }
            Ok(())
        }
        _ => {
            proof {
                assert(false);
            }
            Ok(())
        }
    }
}

/// An error among the first `i` cells of a row is the error of the whole
/// row.
proof fn lemma_row_cells_err(
    n_cols: int,
    state: Seq<OutView>,
    cells: Seq<DynView>,
    i: int,
    m: int,
)
    requires
        0 <= i <= m,
        push_row_cells(n_cols, state, cells, i) is Err,
    ensures
        push_row_cells(n_cols, state, cells, m) == push_row_cells(n_cols, state, cells, i),
    decreases m,
{
    if m > i {
        lemma_row_cells_err(n_cols, state, cells, i, m - 1);
    }
}

/// An error in row `r`, with all earlier rows transposing cleanly, is the
/// error of the whole transpose.
proof fn lemma_transpose_rows_err(cols: Seq<InputTypes>, rows: Seq<DynView>, r: int)
    requires
        0 <= r < rows.len(),
        transpose_rows_spec(cols, rows.take(r)) is Ok,
        push_row_spec(transpose_rows_spec(cols, rows.take(r))->Ok_0, rows[r]) is Err,
    ensures
        transpose_rows_spec(cols, rows) == Err::<Seq<OutView>, ErrView>(
            push_row_spec(transpose_rows_spec(cols, rows.take(r))->Ok_0, rows[r])->Err_0,
        ),
    decreases rows.len(),
{
    if r + 1 == rows.len() {
        assert(rows.take(r) =~= rows.drop_last());
        assert(rows.last() == rows[r]);
    } else {
        assert(rows.drop_last().take(r) =~= rows.take(r));
        assert(rows.drop_last()[r] == rows[r]);
        lemma_transpose_rows_err(cols, rows.drop_last(), r);
    }
}

/// Transposes a sequence of positional rows: one growable column builder
/// per declared kind, filled one input row at a time.
pub fn transpose_rows(cols: &Vec<InputTypes>, rows: &Vec<PythonType>) -> (r: Result<
    Vec<OutputTypes>,
    DecodeError,
>)
    ensures
        match r {
            Ok(state) => transpose_rows_spec(cols.deep_view(), dyn_items_view(rows@)) == Ok::<
                Seq<OutView>,
                ErrView,
            >(out_items_view(state@)),
            Err(e) => transpose_rows_spec(cols.deep_view(), dyn_items_view(rows@)) == Err::<
                Seq<OutView>,
                ErrView,
            >(e.deep_view()),
        },
{
    let ghost colsv = cols.deep_view();
    let ghost rowsv = dyn_items_view(rows@);
    let nc = cols.len();
    let mut out: Vec<OutputTypes> = Vec::new();
    let mut i: usize = 0;
    while i < nc
        invariant
            i <= nc,
            nc == cols@.len(),
            colsv == cols.deep_view(),
            colsv.len() == nc,
            out@.len() == i,
            forall|j: int|
                0 <= j < i ==> #[trigger] out_items_view(out@)[j] == col_init(colsv[j])
                    && col_len_ok(out_items_view(out@)[j], colsv[j], 0),
        decreases nc - i,
    {
        let ghost pre_out = out@;
        let c = get_transpose_output_type(&cols[i]);
        out.push(c);
        proof {
            assert forall|j: int| 0 <= j <= i implies #[trigger] out_items_view(out@)[j]
                == col_init(colsv[j]) && col_len_ok(out_items_view(out@)[j], colsv[j], 0) by {
                assert(out_items_view(out@)[j] == out_view(out@[j]));
                if j < i {
                    assert(out@[j] == pre_out[j]);
                    assert(out_items_view(pre_out)[j] == out_view(pre_out[j]));
                } else {
                    assert(out@[j] == c);
                }
            }
        }
        i += 1;
    }
    proof {
        assert(rowsv.take(0) =~= Seq::<DynView>::empty());
        assert(out_items_view(out@) =~= Seq::new(colsv.len(), |k: int| col_init(colsv[k])));
    }
    let nr = rows.len();
    let mut r_i: usize = 0;
    while r_i < nr
        invariant
            r_i <= nr,
            nr == rows@.len(),
            nc == cols@.len(),
            colsv == cols.deep_view(),
            rowsv == dyn_items_view(rows@),
            rowsv.len() == nr,
            colsv.len() == nc,
            out@.len() == nc,
            transpose_rows_spec(colsv, rowsv.take(r_i as int)) == Ok::<Seq<OutView>, ErrView>(
                out_items_view(out@),
            ),
            forall|j: int|
                0 <= j < nc ==> col_len_ok(#[trigger] out_items_view(out@)[j], colsv[j], r_i as int),
        decreases nr - r_i,
    {
        let ghost state0 = out_items_view(out@);
        let row = &rows[r_i];
        proof {
            assert(rowsv[r_i as int] == dyn_view(rows@[r_i as int]));
            assert(rowsv.take(r_i as int + 1).drop_last() =~= rowsv.take(r_i as int));
            assert(rowsv.take(r_i as int + 1).last() == rowsv[r_i as int]);
        }
        match row {
            PythonType::List(cells) => {
                let ghost cellsv = dyn_view(*row)->List_0;
                let mut c_i: usize = 0;
                while c_i < nc
                    invariant
                        c_i <= nc,
                        nc == cols@.len(),
                        out@.len() == nc,
                        colsv == cols.deep_view(),
                        colsv.len() == nc,
                        r_i < nr,
                        nr == rowsv.len(),
                        nr == rows@.len(),
                        rowsv == dyn_items_view(rows@),
                        *row == PythonType::List(*cells),
                        cellsv == dyn_items_view(cells@),
                        rowsv[r_i as int] == DynView::List(cellsv),
                        transpose_rows_spec(colsv, rowsv.take(r_i as int)) == Ok::<
                            Seq<OutView>,
                            ErrView,
                        >(state0),
                        state0.len() == nc,
                        push_row_cells(nc as int, state0, cellsv, c_i as int) == Ok::<
                            Seq<OutView>,
                            ErrView,
                        >(out_items_view(out@)),
                        forall|j: int|
                            0 <= j < c_i ==> col_len_ok(
                                #[trigger] out_items_view(out@)[j],
                                colsv[j],
                                r_i as int + 1,
                            ),
                        forall|j: int|
                            c_i <= j < nc ==> #[trigger] out_items_view(out@)[j] == state0[j],
                        forall|j: int|
                            0 <= j < nc ==> col_len_ok(#[trigger] state0[j], colsv[j], r_i as int),
                    decreases nc - c_i,
                {
                    if c_i >= cells.len() {
                        proof {
                            let e = ErrView::SequenceExhausted {
                                expected: nc as int,
                                found: cellsv.len() as int,
                            };
                            assert(push_row_cells(nc as int, state0, cellsv, c_i as int + 1)
                                == Err::<Seq<OutView>, ErrView>(e));
                            lemma_row_cells_err(nc as int, state0, cellsv, c_i as int + 1, nc as int);
                            assert(push_row_spec(state0, rowsv[r_i as int]) == Err::<
                                Seq<OutView>,
                                ErrView,
                            >(e));
                            lemma_transpose_rows_err(colsv, rowsv, r_i as int);
                        }
                        return Err(
                            DecodeError::SequenceExhausted { expected: nc, found: cells.len() },
                        );
                    }
                    let ghost pre = out_items_view(out@);
                    proof {
                        assert(cellsv[c_i as int] == dyn_view(cells@[c_i as int]));
                        assert(pre[c_i as int] == out_view(out@[c_i as int]));
                    }
                    let res = push_cell(
                        &mut out[c_i],
                        &cols[c_i],
                        &cells[c_i],
                        Ghost(r_i as int),
                    );
                    match res {
                        Ok(_) => {
                            proof {
                                assert(out_items_view(out@) =~= pre.update(
                                    c_i as int,
                                    out_view(out@[c_i as int]),
                                ));
                            }
                            c_i += 1;
                        }
                        Err(e) => {
                            proof {
                                assert(push_row_cells(nc as int, state0, cellsv, c_i as int + 1)
                                    == Err::<Seq<OutView>, ErrView>(e.deep_view()));
                                lemma_row_cells_err(
                                    nc as int,
                                    state0,
                                    cellsv,
                                    c_i as int + 1,
                                    nc as int,
                                );
                                assert(push_row_spec(state0, rowsv[r_i as int]) == Err::<
                                    Seq<OutView>,
                                    ErrView,
                                >(e.deep_view()));
                                lemma_transpose_rows_err(colsv, rowsv, r_i as int);
                            }
                            return Err(e);
                        }
                    }
                }
                proof {
                    assert(push_row_spec(state0, rowsv[r_i as int]) == Ok::<Seq<OutView>, ErrView>(
                        out_items_view(out@),
                    ));
                }
            }
            _ => {
                proof {
                    assert(push_row_spec(state0, rowsv[r_i as int]) == Err::<
                        Seq<OutView>,
                        ErrView,
                    >(
                        ErrView::SchemaMismatch {
                            expected: ValueKind::List,
                            found: kind_of(rowsv[r_i as int]),
                        },
                    ));
                    lemma_transpose_rows_err(colsv, rowsv, r_i as int);
                }
                return Err(
                    DecodeError::SchemaMismatch {
                        expected: ValueKind::List,
                        found: crate::parsing::errors::value_kind(row),
                    },
                );
            }
        }
        r_i += 1;
    }
    proof {
        assert(rowsv.take(nr as int) =~= rowsv);
    }
    Ok(out)
}

/// Looks up a declared column by name (first declaration wins).
fn find_col(cols: &Vec<(String, InputTypes)>, key: &String) -> (r: Option<usize>)
    ensures
        ({
            let j = assoc_index(cols.deep_view(), key@);
            match r {
                Some(idx) => j == idx && 0 <= j < cols@.len(),
                None => j == -1,
            }
        }),
{
    let ghost colsv = cols.deep_view();
    let n = cols.len();
    let mut i: usize = 0;
    while i < n
        invariant
            i <= n,
            n == cols@.len(),
            colsv == cols.deep_view(),
            colsv.len() == n,
            forall|j: int| 0 <= j < i ==> (#[trigger] colsv[j]).0 != key@,
        decreases n - i,
    {
        if cols[i].0 == *key {
            proof {
                assert(colsv[i as int] == cols@[i as int].deep_view());
                assert(colsv[i as int].0 == key@);
                lemma_assoc_index(colsv, key@);
            }
            return Some(i);
        }
        proof {
            assert(colsv[i as int] == cols@[i as int].deep_view());
        }
        i += 1;
    }
    proof {
        lemma_assoc_index(colsv, key@);
    }
    None
}

/// Validates one keyed cell against its declared column kind: exactly the
/// checked narrowing its column will perform when the row is committed.
fn check_cell(t: &InputTypes, v: &PythonType) -> (r: Result<(), DecodeError>)
    ensures
        match r {
            Ok(_) => col_check(*t, v.deep_view()) == Ok::<(), ErrView>(()),
            Err(e) => col_check(*t, v.deep_view()) == Err::<(), ErrView>(e.deep_view()),
        },
{
    match t {
        InputTypes::int8 => match <i8 as Element>::cast_leaf(v) {
            Ok(_) => Ok(()),
            Err(e) => Err(e),
        },
        InputTypes::int16 => match <i16 as Element>::cast_leaf(v) {
            Ok(_) => Ok(()),
            Err(e) => Err(e),
        },
        InputTypes::int32 => match <i32 as Element>::cast_leaf(v) {
            Ok(_) => Ok(()),
            Err(e) => Err(e),
        },
        InputTypes::int64 => match <i64 as Element>::cast_leaf(v) {
            Ok(_) => Ok(()),
            Err(e) => Err(e),
        },
        InputTypes::uint8 => match <u8 as Element>::cast_leaf(v) {
            Ok(_) => Ok(()),
            Err(e) => Err(e),
        },
        InputTypes::uint16 => match <u16 as Element>::cast_leaf(v) {
            Ok(_) => Ok(()),
            Err(e) => Err(e),
        },
        InputTypes::uint32 => match <u32 as Element>::cast_leaf(v) {
            Ok(_) => Ok(()),
            Err(e) => Err(e),
        },
        InputTypes::uint64 => match <u64 as Element>::cast_leaf(v) {
            Ok(_) => Ok(()),
            Err(e) => Err(e),
        },
        InputTypes::float32 => match <F32Bits as Element>::cast_leaf(v) {
            Ok(_) => Ok(()),
            Err(e) => Err(e),
        },
        InputTypes::float64 => match <F64Bits as Element>::cast_leaf(v) {
            Ok(_) => Ok(()),
            Err(e) => Err(e),
        },
        InputTypes::bool_ => match <bool as Element>::cast_leaf(v) {
            Ok(_) => Ok(()),
            Err(e) => Err(e),
        },
        _ => Ok(()),
    }
}

/// The values recorded for each declared column by one keyed row, given
/// which input entry (by index) last provided each column.
pub open spec fn assign_of(rv: Seq<Option<usize>>, entries: Seq<(Seq<char>, DynView)>) -> Seq<
    Option<DynView>,
> {
    Seq::new(
        rv.len(),
        |j: int|
            match rv[j] {
                Some(idx) => if idx < entries.len() {
                    Some(entries[idx as int].1)
                } else {
                    None
                },
                None => None,
            },
    )
}

/// An error among the first `i` entries of a keyed row is the error of the
/// whole row's walk.
proof fn lemma_keyed_assign_err(
    cols: Seq<(Seq<char>, InputTypes)>,
    entries: Seq<(Seq<char>, DynView)>,
    i: int,
)
    requires
        0 <= i <= entries.len(),
        keyed_row_assign(cols, entries.take(i)) is Err,
    ensures
        keyed_row_assign(cols, entries) == keyed_row_assign(cols, entries.take(i)),
    decreases entries.len(),
{
    if i == entries.len() {
        assert(entries.take(i) =~= entries);
    } else {
        assert(entries.drop_last().take(i) =~= entries.take(i));
        lemma_keyed_assign_err(cols, entries.drop_last(), i);
    }
}

/// An error in keyed row `r`, with all earlier rows transposing cleanly,
/// is the error of the whole transpose.
proof fn lemma_transpose_keyed_err(
    cols: Seq<(Seq<char>, InputTypes)>,
    rows: Seq<DynView>,
    r: int,
)
    requires
        0 <= r < rows.len(),
        transpose_keyed_spec(cols, rows.take(r)) is Ok,
        push_keyed_row_spec(cols, transpose_keyed_spec(cols, rows.take(r))->Ok_0, rows[r]) is Err,
    ensures
        transpose_keyed_spec(cols, rows) == Err::<Seq<OutView>, ErrView>(
            push_keyed_row_spec(cols, transpose_keyed_spec(cols, rows.take(r))->Ok_0, rows[r])->Err_0,
        ),
    decreases rows.len(),
{
    if r + 1 == rows.len() {
        assert(rows.take(r) =~= rows.drop_last());
        assert(rows.last() == rows[r]);
    } else {
        assert(rows.drop_last().take(r) =~= rows.take(r));
        assert(rows.drop_last()[r] == rows[r]);
        lemma_transpose_keyed_err(cols, rows.drop_last(), r);
    }
}

/// A keyed row without missing names has provided every declared column.
proof fn lemma_unseen_empty(
    cols: Seq<(Seq<char>, InputTypes)>,
    assign: Seq<Option<DynView>>,
    i: int,
)
    requires
        unseen_keys(cols, assign, i).len() == 0,
    ensures
        forall|j: int| 0 <= j < i ==> (#[trigger] assign[j]) is Some,
    decreases i,
{
    if i > 0 {
        lemma_unseen_empty(cols, assign, i - 1);
    }
}

/// A cleanly walked keyed row has every recorded value validated.
proof fn lemma_assign_checked(
    cols: Seq<(Seq<char>, InputTypes)>,
    entries: Seq<(Seq<char>, DynView)>,
)
    requires
        keyed_row_assign(cols, entries) is Ok,
    ensures
        ({
            let assign = keyed_row_assign(cols, entries)->Ok_0;
            &&& assign.len() == cols.len()
            &&& forall|j: int|
                0 <= j < cols.len() && (#[trigger] assign[j]) is Some ==> col_check(
                    cols[j].1,
                    assign[j]->0,
                ) is Ok
        }),
    decreases entries.len(),
{
    if entries.len() > 0 {
        lemma_assign_checked(cols, entries.drop_last());
    }
}

/// Transposes a sequence of keyed rows: one growable column builder per
/// declared name, filled one input row at a time; the result pairs each
/// declared name, in declared order, with its column.
pub fn transpose_keyed(cols: &Vec<(String, InputTypes)>, rows: &Vec<PythonType>) -> (r: Result<
    Vec<(String, OutputTypes)>,
    DecodeError,
>)
    ensures
        match r {
            Ok(named) => transpose_keyed_spec(cols.deep_view(), dyn_items_view(rows@)) is Ok && ({
                let statev = transpose_keyed_spec(cols.deep_view(), dyn_items_view(rows@))->Ok_0;
                crate::parsing::out_entries_view(named@) == Seq::new(
                    cols.deep_view().len(),
                    |i: int| (cols.deep_view()[i].0, statev[i]),
                )
            }),
            Err(e) => transpose_keyed_spec(cols.deep_view(), dyn_items_view(rows@)) == Err::<
                Seq<OutView>,
                ErrView,
            >(e.deep_view()),
        },
{
    let ghost colsv = cols.deep_view();
    let ghost rowsv = dyn_items_view(rows@);
    let nc = cols.len();
    let mut out: Vec<OutputTypes> = Vec::new();
    let mut i: usize = 0;
    while i < nc
        invariant
            i <= nc,
            nc == cols@.len(),
            colsv == cols.deep_view(),
            colsv.len() == nc,
            out@.len() == i,
            forall|j: int|
                0 <= j < i ==> #[trigger] out_items_view(out@)[j] == col_init(colsv[j].1)
                    && col_len_ok(out_items_view(out@)[j], colsv[j].1, 0),
        decreases nc - i,
    {
        let ghost pre_out = out@;
        let c = get_transpose_output_type(&cols[i].1);
        out.push(c);
        proof {
            assert forall|j: int| 0 <= j <= i implies #[trigger] out_items_view(out@)[j]
                == col_init(colsv[j].1) && col_len_ok(out_items_view(out@)[j], colsv[j].1, 0) by {
                assert(out_items_view(out@)[j] == out_view(out@[j]));
                if j < i {
                    assert(out@[j] == pre_out[j]);
                    assert(out_items_view(pre_out)[j] == out_view(pre_out[j]));
                } else {
                    assert(out@[j] == c);
                }
            }
        }
        i += 1;
    }
    proof {
        assert(rowsv.take(0) =~= Seq::<DynView>::empty());
        assert(out_items_view(out@) =~= Seq::new(colsv.len(), |k: int| col_init(colsv[k].1)));
    }
    let nr = rows.len();
    let mut r_i: usize = 0;
    while r_i < nr
        invariant
            r_i <= nr,
            nr == rows@.len(),
            nc == cols@.len(),
            colsv == cols.deep_view(),
            rowsv == dyn_items_view(rows@),
            rowsv.len() == nr,
            colsv.len() == nc,
            out@.len() == nc,
            transpose_keyed_spec(colsv, rowsv.take(r_i as int)) == Ok::<Seq<OutView>, ErrView>(
                out_items_view(out@),
            ),
            forall|j: int|
                0 <= j < nc ==> col_len_ok(
                    #[trigger] out_items_view(out@)[j],
                    colsv[j].1,
                    r_i as int,
                ),
        decreases nr - r_i,
    {
        let ghost state0 = out_items_view(out@);
        let row = &rows[r_i];
        proof {
            assert(rowsv[r_i as int] == dyn_view(rows@[r_i as int]));
            assert(rowsv.take(r_i as int + 1).drop_last() =~= rowsv.take(r_i as int));
            assert(rowsv.take(r_i as int + 1).last() == rowsv[r_i as int]);
        }
        match row {
            PythonType::Dict(entries) => {
                let ghost entriesv = dyn_view(*row)->Dict_0;
                let ne = entries.len();
                let mut row_vals: Vec<Option<usize>> = Vec::new();
                let mut f: usize = 0;
                while f < nc
                    invariant
                        f <= nc,
                        row_vals@.len() == f,
                        forall|j: int| 0 <= j < f ==> #[trigger] row_vals@[j] is None,
                    decreases nc - f,
                {
                    row_vals.push(None);
                    f += 1;
                }
                proof {
                    assert(entriesv.take(0) =~= Seq::<(Seq<char>, DynView)>::empty());
                    assert(assign_of(row_vals@, entriesv) =~= Seq::new(
                        colsv.len(),
                        |j: int| None::<DynView>,
                    ));
                }
                let mut e_i: usize = 0;
                while e_i < ne
                    invariant
                        e_i <= ne,
                        nc == cols@.len(),
                        colsv == cols.deep_view(),
                        colsv.len() == nc,
                        nr == rows@.len(),
                        rowsv == dyn_items_view(rows@),
                        rowsv.len() == nr,
                        r_i < nr,
                        *row == PythonType::Dict(*entries),
                        ne == entries@.len(),
                        entriesv == crate::parsing::python_types::dyn_entries_view(entries@),
                        entriesv.len() == ne,
                        rowsv[r_i as int] == DynView::Dict(entriesv),
                        row_vals@.len() == nc,
                        forall|j: int|
                            0 <= j < nc && (#[trigger] row_vals@[j]) is Some ==> row_vals@[j]->0
                                < e_i,
                        keyed_row_assign(colsv, entriesv.take(e_i as int)) == Ok::<
                            Seq<Option<DynView>>,
                            ErrView,
                        >(assign_of(row_vals@, entriesv)),
                        transpose_keyed_spec(colsv, rowsv.take(r_i as int)) == Ok::<
                            Seq<OutView>,
                            ErrView,
                        >(state0),
                    decreases ne - e_i,
                {
                    let entry = &entries[e_i];
                    proof {
                        assert(entriesv[e_i as int] == (entry.0@, dyn_view(entry.1)));
                        assert(entriesv.take(e_i as int + 1).drop_last() =~= entriesv.take(
                            e_i as int,
                        ));
                        assert(entriesv.take(e_i as int + 1).last() == entriesv[e_i as int]);
                    }
                    match find_col(cols, &entry.0) {
                        Some(j) => {
                            match check_cell(&cols[j].1, &entry.1) {
                                Ok(_) => {
                                    let ghost rv_pre = row_vals@;
                                    row_vals.set(j, Some(e_i));
                                    proof {
                                        assert(assign_of(row_vals@, entriesv) =~= assign_of(
                                            rv_pre,
                                            entriesv,
                                        ).update(j as int, Some(entriesv[e_i as int].1)));
                                    }
                                }
                                Err(err) => {
                                    proof {
                                        assert(keyed_row_assign(
                                            colsv,
                                            entriesv.take(e_i as int + 1),
                                        ) == Err::<Seq<Option<DynView>>, ErrView>(err.deep_view()));
                                        lemma_keyed_assign_err(
                                            colsv,
                                            entriesv,
                                            e_i as int + 1,
                                        );
                                        assert(push_keyed_row_spec(
                                            colsv,
                                            state0,
                                            rowsv[r_i as int],
                                        ) == Err::<Seq<OutView>, ErrView>(err.deep_view()));
                                        lemma_transpose_keyed_err(colsv, rowsv, r_i as int);
                                    }
                                    return Err(err);
                                }
                            }
                        }
                        None => {
                        }
                    }
                    e_i += 1;
                }
                proof {
                    assert(entriesv.take(ne as int) =~= entriesv);
                }
                let ghost assign = assign_of(row_vals@, entriesv);
                let mut missing: Vec<String> = Vec::new();
                let mut m_i: usize = 0;
                while m_i < nc
                    invariant
                        m_i <= nc,
                        nc == cols@.len(),
                        colsv == cols.deep_view(),
                        colsv.len() == nc,
                        row_vals@.len() == nc,
                        ne == entries@.len(),
                        entriesv.len() == ne,
                        forall|j: int|
                            0 <= j < nc && (#[trigger] row_vals@[j]) is Some ==> row_vals@[j]->0
                                < ne,
                        assign == assign_of(row_vals@, entriesv),
                        missing.deep_view() == unseen_keys(colsv, assign, m_i as int),
                    decreases nc - m_i,
                {
                    let ghost missing_pre = missing.deep_view();
                    match row_vals[m_i] {
                        Some(_) => {
                            proof {
                                assert(assign[m_i as int] is Some);
                                assert(missing.deep_view() =~= unseen_keys(
                                    colsv,
                                    assign,
                                    m_i as int + 1,
                                ));
                            }
                        }
                        None => {
                            missing.push(cols[m_i].0.clone());
                            proof {
                                assert(assign[m_i as int] is None);
                                assert(missing.deep_view() =~= missing_pre + seq![
                                    colsv[m_i as int].0,
                                ]);
                                assert(missing.deep_view() =~= unseen_keys(
                                    colsv,
                                    assign,
                                    m_i as int + 1,
                                ));
                            }
                        }
                    }
                    m_i += 1;
                }
                if missing.len() > 0 {
                    proof {
                        assert(missing.deep_view().len() > 0);
                        assert(push_keyed_row_spec(colsv, state0, rowsv[r_i as int]) == Err::<
                            Seq<OutView>,
                            ErrView,
                        >(ErrView::MissingKeys { keys: missing.deep_view() }));
                        lemma_transpose_keyed_err(colsv, rowsv, r_i as int);
                    }
                    return Err(DecodeError::MissingKeys { keys: missing });
                }
                proof {
                    assert(missing.deep_view().len() == 0);
                    lemma_assign_checked(colsv, entriesv);
                    lemma_unseen_empty(colsv, assign, nc as int);
                }
                let mut c_i: usize = 0;
                while c_i < nc
                    invariant
                        c_i <= nc,
                        nc == cols@.len(),
                        colsv == cols.deep_view(),
                        colsv.len() == nc,
                        out@.len() == nc,
                        r_i < nr,
                        nr == rows@.len(),
                        rowsv == dyn_items_view(rows@),
                        rowsv.len() == nr,
                        row_vals@.len() == nc,
                        ne == entries@.len(),
                        entriesv.len() == ne,
                        *row == PythonType::Dict(*entries),
                        entriesv == crate::parsing::python_types::dyn_entries_view(entries@),
                        forall|j: int|
                            0 <= j < nc && (#[trigger] row_vals@[j]) is Some ==> row_vals@[j]->0
                                < ne,
                        assign == assign_of(row_vals@, entriesv),
                        assign.len() == nc,
                        rowsv[r_i as int] == DynView::Dict(entriesv),
                        keyed_row_assign(colsv, entriesv) == Ok::<Seq<Option<DynView>>, ErrView>(
                            assign,
                        ),
                        unseen_keys(colsv, assign, nc as int).len() == 0,
                        transpose_keyed_spec(colsv, rowsv.take(r_i as int)) == Ok::<
                            Seq<OutView>,
                            ErrView,
                        >(state0),
                        forall|j: int| 0 <= j < nc ==> (#[trigger] assign[j]) is Some,
                        forall|j: int|
                            0 <= j < nc && (#[trigger] assign[j]) is Some ==> col_check(
                                colsv[j].1,
                                assign[j]->0,
                            ) is Ok,
                        out_items_view(out@) == commit_row(state0, assign, c_i as int),
                        forall|j: int|
                            0 <= j < c_i ==> col_len_ok(
                                #[trigger] out_items_view(out@)[j],
                                colsv[j].1,
                                r_i as int + 1,
                            ),
                        forall|j: int|
                            c_i <= j < nc ==> #[trigger] out_items_view(out@)[j] == state0[j],
                        forall|j: int|
                            0 <= j < nc ==> col_len_ok(#[trigger] state0[j], colsv[j].1, r_i as int),
                    decreases nc - c_i,
                {
                    let ghost pre = out_items_view(out@);
                    match row_vals[c_i] {
                        Some(idx) => {
                            proof {
                                assert(assign[c_i as int] == Some(entriesv[idx as int].1));
                                assert(entriesv[idx as int].1 == dyn_view(entries@[idx as int].1));
                                assert(pre[c_i as int] == out_view(out@[c_i as int]));
                            }
                            let res = push_cell(
                                &mut out[c_i],
                                &cols[c_i].1,
                                &entries[idx].1,
                                Ghost(r_i as int),
                            );
                            match res {
                                Ok(_) => {
                                    proof {
                                        assert(out_items_view(out@) =~= pre.update(
                                            c_i as int,
                                            out_view(out@[c_i as int]),
                                        ));
                                        assert(out_items_view(out@) =~= commit_row(
                                            state0,
                                            assign,
                                            c_i as int + 1,
                                        ));
                                    }
                                }
                                Err(e) => {
                                    proof {
                                        assert(col_check(colsv[c_i as int].1, assign[c_i as int]->0)
                                            is Ok);
                                        assert(false);
                                    }
                                    return Err(e);
                                }
                            }
                        }
                        None => {
                            proof {
                                assert(assign[c_i as int] is None);
                                assert(out_items_view(out@) =~= commit_row(
                                    state0,
                                    assign,
                                    c_i as int + 1,
                                ));
                            }
                        }
                    }
                    c_i += 1;
                }
                proof {
                    assert(push_keyed_row_spec(colsv, state0, rowsv[r_i as int]) == Ok::<
                        Seq<OutView>,
                        ErrView,
                    >(out_items_view(out@)));
                }
            }
            _ => {
                proof {
                    assert(push_keyed_row_spec(colsv, state0, rowsv[r_i as int]) == Err::<
                        Seq<OutView>,
                        ErrView,
                    >(
                        ErrView::SchemaMismatch {
                            expected: ValueKind::Dict,
                            found: kind_of(rowsv[r_i as int]),
                        },
                    ));
                    lemma_transpose_keyed_err(colsv, rowsv, r_i as int);
                }
                return Err(
                    DecodeError::SchemaMismatch {
                        expected: ValueKind::Dict,
                        found: crate::parsing::errors::value_kind(row),
                    },
                );
            }
        }
        r_i += 1;
    }
    proof {
        assert(rowsv.take(nr as int) =~= rowsv);
    }
    let ghost statev = out_items_view(out@);
    let mut named: Vec<(String, OutputTypes)> = Vec::new();
    let mut p_i: usize = 0;
    while p_i < nc
        invariant
            p_i <= nc,
            nc == cols@.len(),
            colsv == cols.deep_view(),
            colsv.len() == nc,
            out@.len() == nc - p_i,
            named@.len() == p_i,
            forall|j: int|
                0 <= j < p_i ==> (#[trigger] crate::parsing::out_entries_view(named@)[j]) == (
                    colsv[j].0,
                    statev[j],
                ),
            forall|j: int|
                0 <= j < nc - p_i ==> #[trigger] out_view(out@[j]) == statev[j + p_i],
        decreases nc - p_i,
    {
        let ghost named_pre = named@;
        let col = out.remove(0);
        let k = cols[p_i].0.clone();
        named.push((k, col));
        proof {
            assert forall|j: int| 0 <= j <= p_i implies (
                #[trigger] crate::parsing::out_entries_view(named@)[j]) == (
                colsv[j].0,
                statev[j],
            ) by {
                assert(crate::parsing::out_entries_view(named@)[j] == (
                    named@[j].0@,
                    out_view(named@[j].1),
                ));
                if j < p_i {
                    assert(named@[j] == named_pre[j]);
                    assert(crate::parsing::out_entries_view(named_pre)[j] == (
                        named_pre[j].0@,
                        out_view(named_pre[j].1),
                    ));
                } else {
                    assert(named@[j].1 == col);
                    assert(out_view(col) == statev[p_i as int]);
                }
            }
        }
        p_i += 1;
    }
    proof {
        assert(crate::parsing::out_entries_view(named@) =~= Seq::new(
            colsv.len(),
            |i: int| (colsv[i].0, statev[i]),
        ));
    }
    Ok(named)
}

/// The product of a one-dimensional shape is its single extent.
proof fn lemma_product_single(n: int)
    ensures
        product(seq![n]) == n,
{
    assert(seq![n].drop_first() =~= Seq::<int>::empty());
    assert(product(seq![n]) == n * product(seq![n].drop_first()));
}

/// A fresh column is well-formed.
pub proof fn lemma_col_init_wf(t: InputTypes)
    ensures
        crate::parsing::out_wf(col_init(t)),
{
    lemma_product_single(0);
}

/// Appending to a column yields a well-formed column.
pub proof fn lemma_col_push_wf(c: OutView, v: DynView)
    requires
        col_push(c, v) is Ok,
        crate::parsing::out_wf(c),
    ensures
        crate::parsing::out_wf(col_push(c, v)->Ok_0),
{
    match c {
        OutView::I8(ArrayView::Dense { data, shape }) => {
            lemma_product_single(data.len() as int + 1);
        }
        OutView::I16(ArrayView::Dense { data, shape }) => {
            lemma_product_single(data.len() as int + 1);
        }
        OutView::I32(ArrayView::Dense { data, shape }) => {
            lemma_product_single(data.len() as int + 1);
        }
        OutView::I64(ArrayView::Dense { data, shape }) => {
            lemma_product_single(data.len() as int + 1);
        }
        OutView::U8(ArrayView::Dense { data, shape }) => {
            lemma_product_single(data.len() as int + 1);
        }
        OutView::U16(ArrayView::Dense { data, shape }) => {
            lemma_product_single(data.len() as int + 1);
        }
        OutView::U32(ArrayView::Dense { data, shape }) => {
            lemma_product_single(data.len() as int + 1);
        }
        OutView::U64(ArrayView::Dense { data, shape }) => {
            lemma_product_single(data.len() as int + 1);
        }
        OutView::F32(ArrayView::Dense { data, shape }) => {
            lemma_product_single(data.len() as int + 1);
        }
        OutView::F64(ArrayView::Dense { data, shape }) => {
            lemma_product_single(data.len() as int + 1);
        }
        OutView::Bool(ArrayView::Dense { data, shape }) => {
            lemma_product_single(data.len() as int + 1);
        }
        _ => {
        }
    }
}

/// Appending the cells of one positional row preserves column
/// well-formedness.
proof fn lemma_row_cells_wf(n_cols: int, state: Seq<OutView>, cells: Seq<DynView>, i: int)
    requires
        0 <= i <= state.len(),
        push_row_cells(n_cols, state, cells, i) is Ok,
        forall|j: int| 0 <= j < state.len() ==> crate::parsing::out_wf(#[trigger] state[j]),
    ensures
        ({
            let st = push_row_cells(n_cols, state, cells, i)->Ok_0;
            &&& st.len() == state.len()
            &&& forall|j: int| 0 <= j < st.len() ==> crate::parsing::out_wf(#[trigger] st[j])
        }),
    decreases i,
{
    if i > 0 {
        lemma_row_cells_wf(n_cols, state, cells, i - 1);
        let st = push_row_cells(n_cols, state, cells, i - 1)->Ok_0;
        if i - 1 < st.len() {
            lemma_col_push_wf(st[i - 1], cells[i - 1]);
        }
    }
}

/// The columns of a transpose of positional rows are well-formed.
pub proof fn lemma_transpose_rows_wf(cols: Seq<InputTypes>, rows: Seq<DynView>)
    requires
        transpose_rows_spec(cols, rows) is Ok,
    ensures
        ({
            let st = transpose_rows_spec(cols, rows)->Ok_0;
            &&& st.len() == cols.len()
            &&& forall|j: int| 0 <= j < st.len() ==> crate::parsing::out_wf(#[trigger] st[j])
        }),
    decreases rows.len(),
{
    if rows.len() == 0 {
        assert forall|j: int|
            0 <= j < transpose_rows_spec(cols, rows)->Ok_0.len() implies crate::parsing::out_wf(
            #[trigger] transpose_rows_spec(cols, rows)->Ok_0[j],
        ) by {
            lemma_col_init_wf(cols[j]);
        }
    } else {
        lemma_transpose_rows_wf(cols, rows.drop_last());
        let state = transpose_rows_spec(cols, rows.drop_last())->Ok_0;
        match rows.last() {
            DynView::List(cells) => {
                lemma_row_cells_wf(state.len() as int, state, cells, state.len() as int);
            }
            _ => {
            }
        }
    }
}

/// Committing one keyed row preserves column well-formedness.
proof fn lemma_commit_row_wf(state: Seq<OutView>, assign: Seq<Option<DynView>>, i: int)
    requires
        0 <= i <= state.len(),
        forall|j: int| 0 <= j < state.len() ==> crate::parsing::out_wf(#[trigger] state[j]),
    ensures
        ({
            let st = commit_row(state, assign, i);
            &&& st.len() == state.len()
            &&& forall|j: int| 0 <= j < st.len() ==> crate::parsing::out_wf(#[trigger] st[j])
        }),
    decreases i,
{
    if i > 0 {
        lemma_commit_row_wf(state, assign, i - 1);
        let st = commit_row(state, assign, i - 1);
        match assign[i - 1] {
            Some(v) => {
                if 0 <= i - 1 < st.len() && col_push(st[i - 1], v) is Ok {
                    lemma_col_push_wf(st[i - 1], v);
                }
            }
            None => {
            }
        }
    }
}

/// The columns of a transpose of keyed rows are well-formed.
pub proof fn lemma_transpose_keyed_wf(cols: Seq<(Seq<char>, InputTypes)>, rows: Seq<DynView>)
    requires
        transpose_keyed_spec(cols, rows) is Ok,
    ensures
        ({
            let st = transpose_keyed_spec(cols, rows)->Ok_0;
            &&& st.len() == cols.len()
            &&& forall|j: int| 0 <= j < st.len() ==> crate::parsing::out_wf(#[trigger] st[j])
        }),
    decreases rows.len(),
{
    if rows.len() == 0 {
        assert forall|j: int|
            0 <= j < transpose_keyed_spec(cols, rows)->Ok_0.len() implies crate::parsing::out_wf(
            #[trigger] transpose_keyed_spec(cols, rows)->Ok_0[j],
        ) by {
            lemma_col_init_wf(cols[j].1);
        }
    } else {
        lemma_transpose_keyed_wf(cols, rows.drop_last());
        let state = transpose_keyed_spec(cols, rows.drop_last())->Ok_0;
        match rows.last() {
            DynView::Dict(entries) => {
                if keyed_row_assign(cols, entries) is Ok {
                    lemma_commit_row_wf(
                        state,
                        keyed_row_assign(cols, entries)->Ok_0,
                        cols.len() as int,
                    );
                }
            }
            _ => {
            }
        }
    }
}

} // verus!
