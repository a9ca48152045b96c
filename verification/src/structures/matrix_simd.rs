//! The matrix of lane-group vectors that the algorithms work on, and the
//! cursor that walks its rows or its columns.

use crate::algebra::grid::column_of;
use crate::algebra::grid::gathered;
use crate::algebra::grid::lemma_gathered_uniform;
use crate::algebra::grid::rectangular;
use crate::algebra::grid::uniform;
use crate::structures::lane_group::canonical;
use crate::structures::matrix::decode_rows;
use crate::structures::matrix::decoded_rows;
use crate::structures::matrix::encoded_rows;
use crate::structures::matrix::groups_of;
use crate::structures::matrix::encode_rows;
use crate::structures::matrix::gather;
use crate::structures::matrix::lanes_of;
use crate::structures::matrix::line_of;
use crate::structures::matrix::rows_uniform;
use crate::structures::matrix::row_size_of;
pub use crate::structures::matrix::MatrixCreationError;
use crate::structures::vector_simd::runs;
use crate::structures::vector_simd::SimdVector;
use vstd::prelude::*;

verus! {

/// A matrix: its rows, and the length that each row is meant to have.
#[derive(Debug, PartialEq)]
pub struct SimdMatrix<S> {
    /// The rows, from the first to the last.
    pub matrix: Vec<SimdVector<S>>,
    /// The number of lanes of a row.
    pub row_size: usize,
}

/// A cursor over the rows or over the columns of a matrix. Each call of
/// `next` computes one line; a new cursor starts again at the first.
pub struct SimdLineIter<'a, S> {
    parent: &'a SimdMatrix<S>,
    by_column: bool,
    count: usize,
}

impl<S: Copy> SimdMatrix<S> {
    /// The lanes of the rows.
    pub open spec fn rows(&self) -> Seq<Seq<S>> {
        lanes_of(self.matrix@)
    }

    /// Whether the matrix is well formed: it has a row, and every row has
    /// `row_size` lanes.
    pub open spec fn wf(&self) -> bool {
        &&& self.matrix@.len() > 0
        &&& uniform(self.rows(), self.row_size as int)
    }

    /// The row (`by_column` false) or the column (`by_column` true) at
    /// `index`, if there is one: a row within the height, and a column if any
    /// row has a lane at `index`.
    pub open spec fn line(&self, by_column: bool, index: int) -> Option<Seq<S>> {
        if by_column {
            if gathered(self.rows(), index).len() > 0 {
                Some(gathered(self.rows(), index))
            } else {
                None
            }
        } else {
            if 0 <= index < self.rows().len() {
                Some(self.rows()[index])
            } else {
                None
            }
        }
    }

    /// Makes a matrix of the given rows. All rows must have the length of the
    /// first one, and there must be a row; a matrix is made of all rows or not
    /// at all.
    pub fn from(input: Vec<Vec<S>>) -> (r: Result<SimdMatrix<S>, MatrixCreationError>)
        ensures
            match r {
                Ok(m) => {
                    &&& rectangular(runs(input@))
                    &&& m.wf()
                    &&& groups_of(m.matrix@) == encoded_rows(runs(input@))
                    &&& m.rows() == runs(input@)
                    &&& m.row_size == input@[0]@.len()
                },
                Err(e) => {
                    &&& !rectangular(runs(input@))
                    &&& e == MatrixCreationError::InconsistentRowLengthErr
                },
            },
    {
        match row_size_of(&input) {
            Ok(row) => Ok(SimdMatrix { matrix: encode_rows(&input), row_size: row }),
            Err(e) => Err(e),
        }
    }

    /// Makes a matrix of the given vectors as its rows. All must have the
    /// length of the first one, and there must be one.
    pub fn from_simd(input: Vec<SimdVector<S>>) -> (r: Result<SimdMatrix<S>, MatrixCreationError>)
        ensures
            match r {
                Ok(m) => {
                    &&& rectangular(lanes_of(input@))
                    &&& m.wf()
                    &&& m.matrix == input
                    &&& m.row_size == input@[0]@.len()
                },
                Err(e) => {
                    &&& !rectangular(lanes_of(input@))
                    &&& e == MatrixCreationError::InconsistentRowLengthErr
                },
            },
    {
        if input.len() == 0 {
            return Err(MatrixCreationError::InconsistentRowLengthErr);
        }
        let row = input[0].len();
        assert(lanes_of(input@)[0].len() == row);
        if rows_uniform(&input, row) {
            Ok(SimdMatrix { matrix: input, row_size: row })
        } else {
            Err(MatrixCreationError::InconsistentRowLengthErr)
        }
    }

    /// Whether the matrix is well formed. The fields are open to every
    /// caller, so a matrix may have been put together without `from`; this
    /// is the test that the algorithms' preconditions ask for.
    pub fn well_formed(&self) -> (r: bool)
        ensures
            r == self.wf(),
    {
        self.matrix.len() > 0 && rows_uniform(&self.matrix, self.row_size)
    }

    /// Whether the matrix has as many rows as a row has lanes.
    pub fn is_square(&self) -> (r: bool)
        ensures
            r == (self.row_size == self.matrix@.len()),
    {
        self.row_size == self.matrix.len()
    }

    /// The number of rows.
    pub fn height(&self) -> (r: usize)
        ensures
            r == self.matrix@.len(),
    {
        self.matrix.len()
    }

    /// The column at position `column`: the lane there of every row that has
    /// one, or `None` if no row has one. In a well-formed matrix that is the
    /// whole column for a position within `row_size`, and `None` past it.
    pub fn column(&self, column: usize) -> (r: Option<SimdVector<S>>)
        ensures
            match r {
                Some(line) => self.line(true, column as int) == Some(line@) && canonical(
                    line.groups(),
                ),
                None => self.line(true, column as int).is_none(),
            },
            self.wf() ==> (r is Some <==> column < self.row_size),
            self.wf() && column < self.row_size ==> r->0@ == column_of(self.rows(), column as int),
    {
        proof {
            if self.wf() {
                lemma_gathered_uniform(self.rows(), self.row_size as int, column as int);
            }
        }
        line_of(gather(&self.matrix, column))
    }

    /// A copy of the row at position `row`, if there is one.
    pub fn row(&self, row: usize) -> (r: Option<SimdVector<S>>)
        ensures
            match r {
                Some(line) => {
                    &&& self.line(false, row as int) == Some(line@)
                    &&& line.groups() == self.matrix@[row as int].groups()
                    &&& canonical(line.groups())
                },
                None => self.line(false, row as int).is_none(),
            },
    {
        if row < self.matrix.len() {
            Some(self.matrix[row].clone())
        } else {
            None
        }
    }

    /// The lanes of every row.
    pub fn to_vector(&self) -> (r: Vec<Vec<S>>)
        ensures
            runs(r@) == decoded_rows(groups_of(self.matrix@)),
            runs(r@) == self.rows(),
    {
        decode_rows(&self.matrix)
    }

    /// A cursor at the first column.
    pub fn iter_column(&self) -> (r: SimdLineIter<'_, S>)
        ensures
            r.parent() == self,
            r.by_column(),
            r.position() == 0,
    {
        SimdLineIter { parent: self, by_column: true, count: 0 }
    }

    /// A cursor at the first row.
    pub fn iter_row(&self) -> (r: SimdLineIter<'_, S>)
        ensures
            r.parent() == self,
            !r.by_column(),
            r.position() == 0,
    {
        SimdLineIter { parent: self, by_column: false, count: 0 }
    }
}

impl<'a, S: Copy> SimdLineIter<'a, S> {
    /// The matrix that the cursor walks.
    pub closed spec fn parent(&self) -> &SimdMatrix<S> {
        self.parent
    }

    /// Whether the cursor walks the columns.
    pub closed spec fn by_column(&self) -> bool {
        self.by_column
    }

    /// The position of the line that `next` gives.
    pub closed spec fn position(&self) -> nat {
        self.count as nat
    }

    /// The line at the cursor, if there is one, and moves the cursor on by
    /// one. The cursor stays where it is once its position is the largest
    /// that a `usize` holds.
    pub fn next(&mut self) -> (r: Option<SimdVector<S>>)
        ensures
            final(self).parent() == old(self).parent(),
            final(self).by_column() == old(self).by_column(),
            final(self).position() == if old(self).position() < usize::MAX {
                old(self).position() + 1
            } else {
                old(self).position()
            },
            match r {
                Some(line) => old(self).parent().line(
                    old(self).by_column(),
                    old(self).position() as int,
                ) == Some(line@) && canonical(line.groups()),
                None => old(self).parent().line(
                    old(self).by_column(),
                    old(self).position() as int,
                ).is_none(),
            },
    {
        let val = if self.by_column {
            self.parent.column(self.count)
        } else {
            self.parent.row(self.count)
        };
        if self.count < usize::MAX {
            self.count += 1;
        }
        val
    }
}

} // verus!
