//! Width converters and the standalone shape reader.

use vstd::prelude::*;

use crate::parsing::array_types::{dims, ints};
use crate::parsing::python_types::{dyn_items_view, dyn_view, PythonType};

verus! {

/// Truncates a 64-bit integer to 32 bits.
pub fn to_i32(i: i64) -> (r: i32)
    ensures
        r == i as i32,
{
    #[verifier::truncate] (i as i32)
}

/// The identity on 64-bit integers (the widest integer converter).
pub fn to_i64(i: i64) -> (r: i64)
    ensures
        r == i,
{
    i
}

/// The dimensions read along the leftmost spine of `value`, outermost
/// first.  With a column selector only the outermost dimension is read:
/// the selector then picks a column within each row, whose own shape is
/// not part of the outer array's.
pub fn get_shape<I>(value: &PythonType, opt_column_selector: &Option<I>) -> (r: Vec<usize>)
    ensures
        ints(r@) == if opt_column_selector is Some {
            dims(value.deep_view()).take(
                if dims(value.deep_view()).len() > 0 {
                    1int
                } else {
                    0int
                },
            )
        } else {
            dims(value.deep_view())
        },
{
    let shape: Vec<usize> = Vec::new();
    proof {
        assert(ints(shape@) =~= Seq::<int>::empty());
    }
    let r = get_shape_helper(value, shape, opt_column_selector);
    proof {
        assert(ints(r@) =~= Seq::<int>::empty() + ints(r@).skip(0));
    }
    r
}

/// Accumulates the dimensions of `value` onto `shape`.
fn get_shape_helper<I>(value: &PythonType, shape: Vec<usize>, opt: &Option<I>) -> (r: Vec<usize>)
    ensures
        ints(r@) == ints(shape@) + (if opt is Some {
            dims(value.deep_view()).take(
                if dims(value.deep_view()).len() > 0 {
                    1int
                } else {
                    0int
                },
            )
        } else {
            dims(value.deep_view())
        }),
    decreases value,
{
    match value {
        PythonType::List(elems) => {
            let ghost d = dims(value.deep_view());
            let ghost shape0 = shape@;
            let mut shape2 = shape;
            shape2.push(elems.len());
            proof {
                assert(value.deep_view()->List_0 == dyn_items_view(elems@));
                assert(d == seq![elems@.len() as int] + if elems@.len() > 0 {
                    dims(dyn_items_view(elems@)[0])
                } else {
                    Seq::<int>::empty()
                });
                assert(ints(shape2@) =~= ints(shape0) + seq![elems@.len() as int]);
            }
            if opt.is_some() {
                proof {
                    assert(d.take(1) =~= seq![elems@.len() as int]);
                }
                shape2
            } else {
                if elems.len() == 0 {
                    proof {
                        assert(d =~= seq![elems@.len() as int]);
                    }
                    shape2
                } else {
                    proof {
                        assert(*elems == value->List_0);
                        assert(decreases_to!(*value => value->List_0));
                        assert(decreases_to!(*elems => elems@));
                        assert(decreases_to!(elems@ => elems@[0]));
                        assert(dyn_items_view(elems@)[0] == dyn_view(elems@[0]));
                    }
                    let ghost shape2v = shape2@;
                    let r = get_shape_helper(&elems[0], shape2, opt);
                    proof {
                        assert(ints(r@) =~= ints(shape0) + d);
                    }
                    r
                }
            }
        }
        _ => {
            proof {
                assert(dims(value.deep_view()) =~= Seq::<int>::empty());
                assert(ints(shape@) + Seq::<int>::empty() =~= ints(shape@));
            }
            shape
        }
    }
}

} // verus!
