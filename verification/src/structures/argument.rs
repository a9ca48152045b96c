//! The choice of a backend for a product of two matrices.
//!
//! Three kinds of backend can compute a product: the lane-group one of this
//! library, an accelerator, and a plain one. Which one suits a matrix is read
//! off its shape; for two matrices the more demanding of the two choices is
//! taken.

use crate::structures::matrix::clone_rows;
use crate::structures::matrix::decode_rows;
use crate::structures::matrix::encode_rows;
use crate::structures::matrix::lanes_of;
use crate::structures::matrix::Matrix;
use crate::structures::vector_simd::copy_lanes;
use crate::structures::vector_simd::runs;
use crate::structures::vector_simd::SimdVector;
use vstd::prelude::*;

verus! {

/// A kind of backend.
#[derive(Debug, Clone, Copy, PartialEq, Eq, Structural)]
pub enum MatrixTypes {
    /// The lane-group representation.
    SIMD,
    /// An accelerator device.
    OpenCL,
    /// Plain rows of lanes.
    Naive,
}

/// The number of lanes from which a matrix counts as large.
pub const LARGE: usize = 200;

/// Whether rows of `row_size` lanes fill whole lane groups: `row_size` is a
/// power of two of at most 64.
pub open spec fn fills_a_group(row_size: int) -> bool {
    row_size == 1 || row_size == 2 || row_size == 4 || row_size == 8 || row_size == 16
        || row_size == 32 || row_size == 64
}

/// The backend that suits a matrix of `lanes` lanes in rows of `row_size`:
/// the lane-group one if a row fills a lane group, else the accelerator if
/// the matrix is large, else the plain one.
pub open spec fn suited(row_size: int, lanes: int) -> MatrixTypes {
    if fills_a_group(row_size) {
        MatrixTypes::SIMD
    } else if lanes >= LARGE {
        MatrixTypes::OpenCL
    } else {
        MatrixTypes::Naive
    }
}

impl MatrixTypes {
    /// How demanding the backend is: 1 for the lane groups, 2 for plain
    /// rows, 3 for the accelerator.
    pub open spec fn rank_spec(self) -> int {
        match self {
            MatrixTypes::SIMD => 1,
            MatrixTypes::Naive => 2,
            MatrixTypes::OpenCL => 3,
        }
    }

    /// How demanding the backend is.
    pub fn rank(self) -> (r: i32)
        ensures
            r == self.rank_spec(),
    {
        match self {
            MatrixTypes::SIMD => 1,
            MatrixTypes::Naive => 2,
            MatrixTypes::OpenCL => 3,
        }
    }

    /// The more demanding of two backends.
    pub fn max(self, other: MatrixTypes) -> (r: MatrixTypes)
        ensures
            r == (if self.rank_spec() >= other.rank_spec() {
                self
            } else {
                other
            }),
    {
        if self.rank() >= other.rank() {
            self
        } else {
            other
        }
    }

    /// The backend that suits a matrix of `lanes` lanes in rows of
    /// `row_size`.
    pub fn suited_to(row_size: usize, lanes: usize) -> (r: MatrixTypes)
        ensures
            r == suited(row_size as int, lanes as int),
    {
        if fills_group(row_size) {
            MatrixTypes::SIMD
        } else if lanes >= LARGE {
            MatrixTypes::OpenCL
        } else {
            MatrixTypes::Naive
        }
    }

    /// The backend for a product of two matrices: the more demanding of
    /// what suits each.
    pub fn chosen_for<S: Copy>(input1: &Matrix<S>, input2: &Matrix<S>) -> (r: MatrixTypes)
        ensures
            r == chosen(input1, input2),
    {
        let first = MatrixTypes::suited_to(input1.row_size, lanes_up_to_large(input1));
        let second = MatrixTypes::suited_to(input2.row_size, lanes_up_to_large(input2));
        first.max(second)
    }
}

/// The backend for a product of two matrices: the more demanding of what
/// suits each.
pub open spec fn chosen<S>(input1: &Matrix<S>, input2: &Matrix<S>) -> MatrixTypes {
    let first = suited(input1.row_size as int, lanes_of_matrix(input1));
    let second = suited(input2.row_size as int, lanes_of_matrix(input2));
    if first.rank_spec() >= second.rank_spec() {
        first
    } else {
        second
    }
}

/// The two operands of a product, in the form that the chosen backend
/// takes: lane-group vectors for the lane groups, and rows of lanes for the
/// accelerator and for the plain backend.
pub enum Argument<S> {
    /// The rows of both operands as lane-group vectors.
    SIMD(Vec<SimdVector<S>>, Vec<SimdVector<S>>),
    /// The rows of both operands as runs of lanes, to be moved to the device.
    OpenCL(Vec<Vec<S>>, Vec<Vec<S>>),
    /// The rows of both operands as runs of lanes.
    Naive(Vec<Vec<S>>, Vec<Vec<S>>),
}

impl<S: Copy> Argument<S> {
    /// The backend that the operands are made for.
    pub open spec fn backend(&self) -> MatrixTypes {
        match self {
            Argument::SIMD(_, _) => MatrixTypes::SIMD,
            Argument::OpenCL(_, _) => MatrixTypes::OpenCL,
            Argument::Naive(_, _) => MatrixTypes::Naive,
        }
    }

    /// The rows of the first operand.
    pub open spec fn first(&self) -> Seq<Seq<S>> {
        match self {
            Argument::SIMD(a, _) => lanes_of(a@),
            Argument::OpenCL(a, _) => runs(a@),
            Argument::Naive(a, _) => runs(a@),
        }
    }

    /// The rows of the second operand.
    pub open spec fn second(&self) -> Seq<Seq<S>> {
        match self {
            Argument::SIMD(_, b) => lanes_of(b@),
            Argument::OpenCL(_, b) => runs(b@),
            Argument::Naive(_, b) => runs(b@),
        }
    }

    /// The operands of the product of two matrices, for the backend that
    /// their shapes choose.
    pub fn from(input1: &Matrix<S>, input2: &Matrix<S>) -> (r: Argument<S>)
        ensures
            r.backend() == chosen(input1, input2),
            r.first() == input1.rows(),
            r.second() == input2.rows(),
    {
        match MatrixTypes::chosen_for(input1, input2) {
            MatrixTypes::SIMD => Argument::SIMD(
                clone_rows(&input1.matrix),
                clone_rows(&input2.matrix),
            ),
            MatrixTypes::OpenCL => Argument::OpenCL(
                decode_rows(&input1.matrix),
                decode_rows(&input2.matrix),
            ),
            MatrixTypes::Naive => Argument::Naive(
                decode_rows(&input1.matrix),
                decode_rows(&input2.matrix),
            ),
        }
    }

    /// The given rows as operands for the lane-group backend.
    pub fn new_simd(input: &Vec<Vec<S>>, input2: &Vec<Vec<S>>) -> (r: Argument<S>)
        ensures
            r.backend() == MatrixTypes::SIMD,
            r.first() == runs(input@),
            r.second() == runs(input2@),
    {
        Argument::SIMD(encode_rows(input), encode_rows(input2))
    }

    /// The given rows as operands for the accelerator.
    pub fn new_opencl(input: &Vec<Vec<S>>, input2: &Vec<Vec<S>>) -> (r: Argument<S>)
        ensures
            r.backend() == MatrixTypes::OpenCL,
            r.first() == runs(input@),
            r.second() == runs(input2@),
    {
        Argument::OpenCL(copy_rows(input), copy_rows(input2))
    }

    /// The given rows as operands for the plain backend.
    pub fn new_naive(input: &Vec<Vec<S>>, input2: &Vec<Vec<S>>) -> (r: Argument<S>)
        ensures
            r.backend() == MatrixTypes::Naive,
            r.first() == runs(input@),
            r.second() == runs(input2@),
    {
        Argument::Naive(copy_rows(input), copy_rows(input2))
    }
}

/// Copies each run of `rows`.
fn copy_rows<S: Copy>(rows: &Vec<Vec<S>>) -> (r: Vec<Vec<S>>)
    ensures
        runs(r@) == runs(rows@),
{
    let mut out: Vec<Vec<S>> = Vec::with_capacity(rows.len());
    let mut i: usize = 0;
    while i < rows.len()
        invariant
            i <= rows.len(),
            out.len() == i,
            forall|q: int| 0 <= q < i ==> (#[trigger] out@[q])@ == rows@[q]@,
        decreases rows.len() - i,
    {
        let row = copy_lanes(&rows[i], 0, rows[i].len());
        assert(row@ =~= rows@[i as int]@);
        out.push(row);
        i += 1;
    }
    assert(runs(out@) =~= runs(rows@));
    out
}

/// The number of lanes of a matrix: its height times the length of a row.
pub open spec fn lanes_of_matrix<S>(matrix: &Matrix<S>) -> int {
    matrix.matrix@.len() * matrix.row_size
}

/// Whether rows of `row_size` lanes fill whole lane groups.
pub fn fills_group(row_size: usize) -> (r: bool)
    ensures
        r == fills_a_group(row_size as int),
{
    if row_size == 0 || row_size > 64 {
        false
    } else {
        let x = row_size as u64;
        assert((x & ((x - 1) as u64)) == 0 <==> (x == 1 || x == 2 || x == 4 || x == 8 || x == 16 || x
            == 32 || x == 64)) by (bit_vector)
            requires
                1 <= x <= 64,
        ;
        x & (x - 1) == 0
    }
}

/// The number of lanes of a matrix, or `LARGE` if it has at least that many.
fn lanes_up_to_large<S>(matrix: &Matrix<S>) -> (r: usize)
    ensures
        r >= LARGE <==> lanes_of_matrix(matrix) >= LARGE,
        r < LARGE ==> r == lanes_of_matrix(matrix),
{
    let height = matrix.matrix.len();
    let width = matrix.row_size;
    if height == 0 || width == 0 {
        assert(lanes_of_matrix(matrix) == 0) by (nonlinear_arith)
            requires
                lanes_of_matrix(matrix) == height * width,
                height == 0 || width == 0,
        ;
        0
    } else if height >= LARGE || width >= LARGE {
        assert(lanes_of_matrix(matrix) >= LARGE) by (nonlinear_arith)
            requires
                lanes_of_matrix(matrix) == height * width,
                height >= 1,
                width >= 1,
                height >= LARGE || width >= LARGE,
        ;
        LARGE
    } else {
        assert(height * width < 40000) by (nonlinear_arith)
            requires
                height < 200,
                width < 200,
        ;
        let lanes = height * width;
        if lanes >= LARGE {
            LARGE
        } else {
            lanes
        }
    }
}

} // verus!
