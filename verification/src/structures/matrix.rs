//! The row-major matrix of lane-group vectors.

use crate::algebra::grid::column_of;
use crate::algebra::grid::gathered;
use crate::algebra::grid::lemma_gathered_uniform;
use crate::algebra::grid::rectangular;
use crate::algebra::grid::uniform;
use crate::structures::lane_group::canonical;
use crate::structures::lane_group::decode;
use crate::structures::lane_group::encode;
use crate::structures::lane_group::lemma_round_trip;
use crate::structures::vector_simd::runs;
use crate::structures::vector_simd::SimdVector;
use vstd::prelude::*;

verus! {

/// Why a matrix could not be made.
#[derive(Debug, Clone, Copy, PartialEq, Eq)]
pub enum MatrixCreationError {
    /// The rows do not all have the length of the first row, or there is no
    /// row at all.
    InconsistentRowLengthErr,
}

impl MatrixCreationError {
    /// The error in words.
    pub open spec fn text(&self) -> Seq<char> {
        "Passing a 2D Vector with inconsistent row lengths to Matrix::from() results in failiure because matrices have uniform row length"@
    }

    /// The error in words.
    pub fn message(&self) -> (r: &'static str)
        ensures
            r@ == self.text(),
    {
        "Passing a 2D Vector with inconsistent row lengths to Matrix::from() results in failiure because matrices have uniform row length"
    }
}

/// The lanes of each of a run of vectors.
pub open spec fn lanes_of<S>(rows: Seq<SimdVector<S>>) -> Seq<Seq<S>> {
    Seq::new(rows.len(), |i: int| rows[i]@)
}

/// The lane groups of each of a run of vectors.
pub open spec fn groups_of<S>(rows: Seq<SimdVector<S>>) -> Seq<Seq<Seq<S>>> {
    Seq::new(rows.len(), |i: int| rows[i].groups())
}

/// The lane groups of each of a run of rows.
pub open spec fn encoded_rows<S>(rows: Seq<Seq<S>>) -> Seq<Seq<Seq<S>>> {
    Seq::new(rows.len(), |i: int| encode(rows[i]))
}

/// The lanes of each of a run of rows of lane groups.
pub open spec fn decoded_rows<S>(rows: Seq<Seq<Seq<S>>>) -> Seq<Seq<S>> {
    Seq::new(rows.len(), |i: int| decode(rows[i]))
}

/// Decoding the rows that were encoded gives the rows back.
pub proof fn lemma_rows_round_trip<S>(rows: Seq<Seq<S>>)
    ensures
        decoded_rows(encoded_rows(rows)) == rows,
{
    assert forall|i: int| 0 <= i < rows.len() implies decoded_rows(encoded_rows(rows))[i]
        == rows[i] by {
        lemma_round_trip(rows[i]);
    }
    assert(decoded_rows(encoded_rows(rows)) =~= rows);
}

/// Whether every row of `rows` has `width` lanes.
pub fn rows_uniform<S: Copy>(rows: &Vec<SimdVector<S>>, width: usize) -> (r: bool)
    ensures
        r == uniform(lanes_of(rows@), width as int),
{
    let mut i: usize = 0;
    while i < rows.len()
        invariant
            i <= rows.len(),
            forall|q: int| 0 <= q < i ==> (#[trigger] lanes_of(rows@)[q]).len() == width,
        decreases rows.len() - i,
    {
        if rows[i].len() != width {
            assert(lanes_of(rows@)[i as int].len() != width);
            return false;
        }
        i += 1;
    }
    true
}

/// Whether every run of `input` has `width` lanes.
pub fn runs_uniform<S>(input: &Vec<Vec<S>>, width: usize) -> (r: bool)
    ensures
        r == uniform(runs(input@), width as int),
{
    let mut i: usize = 0;
    while i < input.len()
        invariant
            i <= input.len(),
            forall|q: int| 0 <= q < i ==> (#[trigger] runs(input@)[q]).len() == width,
        decreases input.len() - i,
    {
        if input[i].len() != width {
            assert(runs(input@)[i as int].len() != width);
            return false;
        }
        i += 1;
    }
    true
}

/// The length of a row of the matrix that the runs of `input` make, if they
/// make one: there is a run, and all have the length of the first.
pub fn row_size_of<S>(input: &Vec<Vec<S>>) -> (r: Result<usize, MatrixCreationError>)
    ensures
        match r {
            Ok(row) => rectangular(runs(input@)) && row == input@[0]@.len(),
            Err(e) => {
                &&& !rectangular(runs(input@))
                &&& e == MatrixCreationError::InconsistentRowLengthErr
            },
        },
{
    if input.len() == 0 {
        return Err(MatrixCreationError::InconsistentRowLengthErr);
    }
    let row = input[0].len();
    assert(runs(input@)[0].len() == row);
    if runs_uniform(input, row) {
        Ok(row)
    } else {
        Err(MatrixCreationError::InconsistentRowLengthErr)
    }
}

/// Encodes each run of `input` as a vector.
pub fn encode_rows<S: Copy>(input: &Vec<Vec<S>>) -> (r: Vec<SimdVector<S>>)
    ensures
        groups_of(r@) == encoded_rows(runs(input@)),
        lanes_of(r@) == runs(input@),
{
    let mut rows: Vec<SimdVector<S>> = Vec::with_capacity(input.len());
    let mut i: usize = 0;
    while i < input.len()
        invariant
            i <= input.len(),
            rows.len() == i,
            forall|q: int| 0 <= q < i ==> (#[trigger] rows@[q]).groups() == encode(input@[q]@),
            forall|q: int| 0 <= q < i ==> (#[trigger] rows@[q])@ == input@[q]@,
        decreases input.len() - i,
    {
        let row = SimdVector::from_lanes(&input[i]);
        rows.push(row);
        i += 1;
    }
    assert(groups_of(rows@) =~= encoded_rows(runs(input@)));
    assert(lanes_of(rows@) =~= runs(input@));
    rows
}

/// Decodes each vector of `rows` into its lanes.
pub fn decode_rows<S: Copy>(rows: &Vec<SimdVector<S>>) -> (r: Vec<Vec<S>>)
    ensures
        runs(r@) == decoded_rows(groups_of(rows@)),
        runs(r@) == lanes_of(rows@),
{
    let mut out: Vec<Vec<S>> = Vec::with_capacity(rows.len());
    let mut i: usize = 0;
    while i < rows.len()
        invariant
            i <= rows.len(),
            out.len() == i,
            forall|q: int| 0 <= q < i ==> (#[trigger] out@[q])@ == rows@[q]@,
        decreases rows.len() - i,
    {
        let lanes = rows[i].to_vector();
        out.push(lanes);
        i += 1;
    }
    assert(runs(out@) =~= lanes_of(rows@));
    assert(lanes_of(rows@) =~= decoded_rows(groups_of(rows@)));
    out
}

/// Copies each vector of `rows`.
pub fn clone_rows<S: Copy>(rows: &Vec<SimdVector<S>>) -> (r: Vec<SimdVector<S>>)
    ensures
        lanes_of(r@) == lanes_of(rows@),
{
    let mut out: Vec<SimdVector<S>> = Vec::with_capacity(rows.len());
    let mut i: usize = 0;
    while i < rows.len()
        invariant
            i <= rows.len(),
            out.len() == i,
            forall|q: int| 0 <= q < i ==> (#[trigger] out@[q])@ == rows@[q]@,
        decreases rows.len() - i,
    {
        let row = rows[i].clone();
        out.push(row);
        i += 1;
    }
    assert(lanes_of(out@) =~= lanes_of(rows@));
    out
}

/// Gathers the lane at position `column` of every row that has one.
pub fn gather<S: Copy>(rows: &Vec<SimdVector<S>>, column: usize) -> (r: Vec<S>)
    ensures
        r@ == gathered(lanes_of(rows@), column as int),
{
    let mut lanes: Vec<S> = Vec::new();
    let mut i: usize = 0;
    assert(lanes_of(rows@).subrange(0, 0) =~= Seq::<Seq<S>>::empty());
    while i < rows.len()
        invariant
            i <= rows.len(),
            lanes@ == gathered(lanes_of(rows@).subrange(0, i as int), column as int),
        decreases rows.len() - i,
    {
        proof {
            let next = lanes_of(rows@).subrange(0, i + 1);
            assert(next.drop_last() =~= lanes_of(rows@).subrange(0, i as int));
            assert(next.last() == rows@[i as int]@);
        }
        match rows[i].get(column) {
            Some(lane) => {
                lanes.push(lane);
            },
            None => {},
        }
        i += 1;
    }
    assert(lanes_of(rows@).subrange(0, i as int) =~= lanes_of(rows@));
    lanes
}

/// The vector of the given lanes, if there is a lane: what was gathered from
/// the rows, as a column.
pub fn line_of<S: Copy>(lanes: Vec<S>) -> (r: Option<SimdVector<S>>)
    ensures
        match r {
            Some(line) => lanes@.len() > 0 && line@ == lanes@ && canonical(line.groups()),
            None => lanes@.len() == 0,
        },
{
    if lanes.len() == 0 {
        None
    } else {
        Some(SimdVector::from_vector(lanes))
    }
}

/// A matrix: its rows, and the length that each row is meant to have.
pub struct Matrix<S> {
    /// The rows, from the first to the last.
    pub matrix: Vec<SimdVector<S>>,
    /// The number of lanes of a row.
    pub row_size: usize,
}

impl<S: Copy> Matrix<S> {
    /// The lanes of the rows.
    pub open spec fn rows(&self) -> Seq<Seq<S>> {
        lanes_of(self.matrix@)
    }

    /// Whether the matrix is well formed: it has a row, and every row has
    /// `row_size` lanes.
    pub open spec fn wf(&self) -> bool {
        &&& self.matrix@.len() > 0
        &&& uniform(self.rows(), self.row_size as int)
    }

    /// Makes a matrix of the given rows. All rows must have the length of the
    /// first one, and there must be a row; a matrix is made of all rows or not
    /// at all.
    pub fn from(input: Vec<Vec<S>>) -> (r: Result<Matrix<S>, MatrixCreationError>)
        ensures
            match r {
                Ok(m) => {
                    &&& rectangular(runs(input@))
                    &&& m.wf()
                    &&& groups_of(m.matrix@) == encoded_rows(runs(input@))
                    &&& m.rows() == runs(input@)
                    &&& m.row_size == input@[0]@.len()
                },
                Err(e) => {
                    &&& !rectangular(runs(input@))
                    &&& e == MatrixCreationError::InconsistentRowLengthErr
                },
            },
    {
        match row_size_of(&input) {
            Ok(row) => Ok(Matrix { matrix: encode_rows(&input), row_size: row }),
            Err(e) => Err(e),
        }
    }

    /// Whether every row has `row_size` lanes. The matrix is left as it was.
    pub fn guarantee(&mut self) -> (r: bool)
        ensures
            r == uniform(old(self).rows(), old(self).row_size as int),
            *final(self) == *old(self),
    {
        rows_uniform(&self.matrix, self.row_size)
    }

    /// Whether the matrix has as many rows as a row has lanes.
    pub fn is_square(&self) -> (r: bool)
        ensures
            r == (self.row_size == self.matrix@.len()),
    {
        self.row_size == self.matrix.len()
    }

    /// The number of rows.
    pub fn height(&self) -> (r: usize)
        ensures
            r == self.matrix@.len(),
    {
        self.matrix.len()
    }

    /// The column at position `column`: the lane there of every row that has
    /// one, or `None` if no row has one. In a well-formed matrix that is the
    /// whole column for a position within `row_size`, and `None` past it.
    pub fn column(&self, column: usize) -> (r: Option<SimdVector<S>>)
        ensures
            match r {
                Some(line) => {
                    &&& line@ == gathered(self.rows(), column as int)
                    &&& line@.len() > 0
                    &&& canonical(line.groups())
                },
                None => gathered(self.rows(), column as int).len() == 0,
            },
            self.wf() ==> (r is Some <==> column < self.row_size),
            self.wf() && column < self.row_size ==> r->0@ == column_of(self.rows(), column as int),
    {
        proof {
            if self.wf() {
                lemma_gathered_uniform(self.rows(), self.row_size as int, column as int);
            }
        }
        line_of(gather(&self.matrix, column))
    }
}

} // verus!
