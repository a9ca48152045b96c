//! Rows and columns as sequences of lanes.

use crate::algebra::scalar::lanewise;
use crate::algebra::scalar::lanewise_defined;
use crate::algebra::scalar::lanewise_yields;
use crate::algebra::scalar::scalable;
use crate::algebra::scalar::scaled;
use crate::algebra::scalar::scaled_yields;
use crate::algebra::scalar::Operator;
use crate::algebra::scalar::Scalar;
use vstd::prelude::*;

verus! {

/// Whether every row has `width` lanes.
pub open spec fn uniform<S>(rows: Seq<Seq<S>>, width: int) -> bool {
    forall|i: int| 0 <= i < rows.len() ==> (#[trigger] rows[i]).len() == width
}

/// Whether `rows` can be the rows of a matrix: there is at least one, and all
/// have the length of the first.
pub open spec fn rectangular<S>(rows: Seq<Seq<S>>) -> bool {
    rows.len() > 0 && uniform(rows, rows[0].len() as int)
}

/// The lanes at position `column` of the rows that have one, in the order of
/// the rows.
pub open spec fn gathered<S>(rows: Seq<Seq<S>>, column: int) -> Seq<S>
    decreases rows.len(),
{
    if rows.len() == 0 {
        Seq::empty()
    } else if column < rows.last().len() {
        gathered(rows.drop_last(), column).push(rows.last()[column])
    } else {
        gathered(rows.drop_last(), column)
    }
}

/// Column `column` of rows of one width.
pub open spec fn column_of<S>(rows: Seq<Seq<S>>, column: int) -> Seq<S> {
    Seq::new(rows.len(), |i: int| rows[i][column])
}

/// Among rows of one width, gathering a position within the width gives the
/// column, and gathering a position outside it gives nothing.
pub proof fn lemma_gathered_uniform<S>(rows: Seq<Seq<S>>, width: int, column: int)
    requires
        uniform(rows, width),
        0 <= column,
    ensures
        column < width ==> gathered(rows, column) == column_of(rows, column),
        column >= width ==> gathered(rows, column) == Seq::<S>::empty(),
    decreases rows.len(),
{
    if rows.len() > 0 {
        let before = rows.drop_last();
        assert(uniform(before, width)) by {
            assert forall|i: int| 0 <= i < before.len() implies (#[trigger] before[i]).len()
                == width by {
                assert(rows[i].len() == width);
            }
        }
        lemma_gathered_uniform(before, width, column);
        assert(rows.last().len() == width);
        if column < width {
            assert(gathered(rows, column) =~= column_of(rows, column));
        }
    } else {
        assert(gathered(rows, column) =~= column_of(rows, column));
    }
}

/// Whether every lane of every row may be multiplied by `factor`.
pub open spec fn rows_scalable<S: Scalar>(rows: Seq<Seq<S>>, factor: S) -> bool {
    forall|i: int| 0 <= i < rows.len() ==> scalable(#[trigger] rows[i], factor)
}

/// Whether `r` can be the rows of `rows`, each multiplied by `factor`.
pub open spec fn rows_scaled_yield<S: Scalar>(rows: Seq<Seq<S>>, factor: S, r: Seq<Seq<S>>) -> bool {
    &&& r.len() == rows.len()
    &&& forall|i: int| 0 <= i < rows.len() ==> scaled_yields(#[trigger] rows[i], factor, r[i])
}

/// Every row multiplied by `factor`, for an exact lane type.
pub open spec fn rows_scaled<S: Scalar>(rows: Seq<Seq<S>>, factor: S) -> Seq<Seq<S>> {
    Seq::new(rows.len(), |i: int| scaled(rows[i], factor))
}

/// Whether the rows of `a` and `b` may be added, row by row.
pub open spec fn rows_addable<S: Scalar>(a: Seq<Seq<S>>, b: Seq<Seq<S>>) -> bool {
    forall|i: int|
        0 <= i < a.len() && i < b.len() ==> lanewise_defined(
            Operator::Add,
            #[trigger] a[i],
            b[i],
        )
}

/// Whether `r` can be the rows of `a` and `b` added, row by row.
pub open spec fn rows_added_yield<S: Scalar>(a: Seq<Seq<S>>, b: Seq<Seq<S>>, r: Seq<Seq<S>>) -> bool {
    &&& r.len() == a.len()
    &&& forall|i: int|
        0 <= i < a.len() ==> lanewise_yields(Operator::Add, #[trigger] a[i], b[i], r[i])
}

/// The rows of `a` and `b` added, row by row, for an exact lane type.
pub open spec fn rows_added<S: Scalar>(a: Seq<Seq<S>>, b: Seq<Seq<S>>) -> Seq<Seq<S>> {
    Seq::new(a.len(), |i: int| lanewise(Operator::Add, a[i], b[i]))
}

} // verus!
