//! The lane-group vector and matrix as representations.

use crate::algebra::scalar::grouped_sum;
use crate::algebra::scalar::grouped_summable;
use crate::algebra::scalar::grouped_sums_to;
use crate::algebra::scalar::lemma_grouped_sum_exact;
use crate::algebra::scalar::Operator;
use crate::algebra::scalar::Scalar;
use crate::algebra::vector::lines_of;
use crate::algebra::vector::Matrix;
use crate::algebra::vector::Vector;
use crate::structures::lane_group::decode;
use crate::structures::lane_group::encode;
use crate::structures::lane_group::lemma_canonical_widths;
use crate::structures::lane_group::lemma_round_trip;
use crate::structures::matrix::lanes_of;
use crate::structures::matrix_simd::SimdMatrix;
use crate::structures::vector_simd::SimdVector;
use vstd::prelude::*;

verus! {

impl<S: Scalar> Vector<S> for SimdVector<S> {
    open spec fn lanes(&self) -> Seq<S> {
        self@
    }

    /// The lanes can be summed if the sums within and across their lane
    /// groups can be made.
    open spec fn summable(lanes: Seq<S>) -> bool {
        grouped_summable(encode(lanes))
    }

    /// The lanes are summed group by group.
    open spec fn sums_to(lanes: Seq<S>, r: S) -> bool {
        grouped_sums_to(encode(lanes), r)
    }

    /// The lanes are summed group by group.
    open spec fn sum_of(lanes: Seq<S>) -> S {
        grouped_sum(encode(lanes))
    }

    proof fn lemma_sum_exact(lanes: Seq<S>, r: S) {
        let groups = encode(lanes);
        lemma_round_trip(lanes);
        assert forall|k: int| 0 <= k < groups.len() implies (#[trigger] groups[k]).len() > 0 by {
            lemma_canonical_widths(groups, k);
        }
        if groups.len() == 0 {
            assert(decode(groups) =~= Seq::<S>::empty());
        }
        lemma_grouped_sum_exact(groups, r);
    }

    proof fn lemma_clone_keeps_lanes(&self, copy: &Self) {
        if call_ensures(<SimdVector<S> as Clone>::clone, (self,), *copy) {
            assert(copy@ == self@);
        }
    }

    #[inline]
    fn add(self, rhs: Self) -> (r: Self) {
        self.combine(rhs, Operator::Add)
    }

    #[inline]
    fn scale(self, scalar: S) -> (r: Self) {
        self.scale(scalar)
    }

    #[inline]
    fn elem_mul(self, rhs: Self) -> (r: Self) {
        self.combine(rhs, Operator::Mul)
    }

    #[inline]
    fn partial_sum(&self) -> (r: S) {
        self.sum()
    }

    #[inline]
    fn from_vec(input: Vec<S>) -> (r: Self) {
        Self::from_vector(input)
    }

    #[inline]
    fn to_vec(&self) -> (r: Vec<S>) {
        self.to_vector()
    }
}

impl<S: Scalar> Matrix<S> for SimdMatrix<S> {
    type Line = SimdVector<S>;

    open spec fn rows(&self) -> Seq<Seq<S>> {
        lanes_of(self.matrix@)
    }

    /// The matrix has a row, and every row has `row_size` lanes.
    open spec fn wf(&self) -> bool {
        SimdMatrix::wf(self)
    }

    proof fn lemma_wf_rectangular(&self) {
        assert(self.rows()[0].len() == self.row_size);
    }

    fn dimensions(&self) -> (r: (usize, usize)) {
        assert(lanes_of(self.matrix@)[0].len() == self.row_size);
        (self.height(), self.row_size)
    }

    fn from_vectors(input: Vec<Self::Line>) -> (r: Option<Self>) {
        assert(lines_of::<S, SimdVector<S>>(input@) =~= lanes_of(input@));
        SimdMatrix::from_simd(input).ok()
    }

    fn row(&self, index: usize) -> (r: Option<Self::Line>) {
        SimdMatrix::row(self, index)
    }

    fn column(&self, index: usize) -> (r: Option<Self::Line>) {
        assert(lanes_of(self.matrix@)[0].len() == self.row_size);
        SimdMatrix::column(self, index)
    }
}

} // verus!
