//! Laws of the lane arithmetic. The algebraic ones hold for every lane type
//! whose operators are exact and have the property that the law names; two
//! more say what is left of them for every lane type. The last four say when
//! the algorithms' preconditions on the lanes hold of themselves: for every
//! lane type whose arithmetic is defined everywhere.

use crate::algebra::grid::column_of;
use crate::algebra::grid::rectangular;
use crate::algebra::grid::rows_addable;
use crate::algebra::grid::rows_scalable;
use crate::algebra::scalar::add_total;
use crate::algebra::scalar::group_sums;
use crate::algebra::scalar::grouped_sum;
use crate::algebra::scalar::grouped_sums_to;
use crate::algebra::scalar::lanewise;
use crate::algebra::scalar::lanewise_defined;
use crate::algebra::scalar::lanewise_yields;
use crate::algebra::scalar::lemma_lanewise_exact;
use crate::algebra::scalar::lemma_scaled_exact;
use crate::algebra::scalar::lemma_total_grouped_summable;
use crate::algebra::scalar::mul_total;
use crate::algebra::scalar::run_sum;
use crate::algebra::scalar::scalable;
use crate::algebra::scalar::scaled;
use crate::algebra::scalar::scaled_yields;
use crate::algebra::scalar::Operator;
use crate::algebra::scalar::Scalar;
use crate::algebra::vector::dot_defined;
use crate::algebra::vector::dot_of;
use crate::algebra::vector::dot_yields;
use crate::algebra::vector::lemma_dot_exact;
use crate::algebra::vector::product_defined;
use crate::algebra::vector::Vector;
use crate::structures::lane_group::decode;
use crate::structures::lane_group::encode;
use crate::structures::lane_group::lemma_canonical_widths;
use crate::structures::lane_group::lemma_decode_push;
use crate::structures::lane_group::lemma_encode_canonical;
use crate::structures::lane_group::lemma_round_trip;
use crate::structures::vector_simd::SimdVector;
use vstd::prelude::*;
use vstd::std_specs::ops::AddSpec;
use vstd::std_specs::ops::MulSpec;

verus! {

/// Whether the addition of the lane type is associative.
pub open spec fn add_associative<S: Scalar>() -> bool {
    forall|x: S, y: S, z: S| #[trigger] x.add_spec(y).add_spec(z) == x.add_spec(y.add_spec(z))
}

/// Whether the multiplication of the lane type distributes over its addition
/// from the right.
pub open spec fn mul_distributes<S: Scalar>() -> bool {
    forall|x: S, y: S, s: S| #[trigger]
        x.add_spec(y).mul_spec(s) == x.mul_spec(s).add_spec(y.mul_spec(s))
}

/// With an associative addition, the sum of two runs put together is the sum
/// of their sums.
pub proof fn lemma_run_sum_concat<S: Scalar>(a: Seq<S>, b: Seq<S>)
    requires
        add_associative::<S>(),
        a.len() > 0,
        b.len() > 0,
    ensures
        run_sum(a + b) == run_sum(a).add_spec(run_sum(b)),
    decreases b.len(),
{
    let whole = a + b;
    assert(whole.last() == b.last());
    if b.len() == 1 {
        assert(whole.drop_last() =~= a);
    } else {
        assert(whole.drop_last() =~= a + b.drop_last());
        lemma_run_sum_concat(a, b.drop_last());
        let x = run_sum(a);
        let y = run_sum(b.drop_last());
        let z = b.last();
        assert(x.add_spec(y).add_spec(z) == x.add_spec(y.add_spec(z)));
    }
}

/// With an associative addition, summing group by group gives the sum of the
/// lanes from left to right.
pub proof fn lemma_grouped_sum_flat<S: Scalar>(groups: Seq<Seq<S>>)
    requires
        add_associative::<S>(),
        groups.len() > 0,
        forall|k: int| 0 <= k < groups.len() ==> (#[trigger] groups[k]).len() > 0,
    ensures
        decode(groups).len() > 0,
        grouped_sum(groups) == run_sum(decode(groups)),
    decreases groups.len(),
{
    let sums = group_sums(groups);
    let before = groups.drop_last();
    assert(groups =~= before.push(groups.last()));
    lemma_decode_push(before, groups.last());
    assert(groups.last().len() > 0);
    if groups.len() == 1 {
        assert(before =~= Seq::<Seq<S>>::empty());
        assert(decode(before) =~= Seq::<S>::empty());
        assert(decode(groups) =~= groups.last());
        assert(sums[0] == run_sum(groups[0]));
    } else {
        assert(sums.drop_last() =~= group_sums(before));
        assert(sums.last() == run_sum(groups.last()));
        assert forall|k: int| 0 <= k < before.len() implies (#[trigger] before[k]).len() > 0 by {
            assert(groups[k].len() > 0);
        }
        lemma_grouped_sum_flat(before);
        lemma_run_sum_concat(decode(before), groups.last());
    }
}

/// With an associative addition, the sum that the lane-group vector computes
/// is the sum of the lanes from left to right: the grouping does not show.
pub proof fn lemma_sum_is_naive<S: Scalar>(lanes: Seq<S>)
    requires
        add_associative::<S>(),
        lanes.len() > 0,
    ensures
        grouped_sum(encode(lanes)) == run_sum(lanes),
{
    let groups = encode(lanes);
    lemma_round_trip(lanes);
    lemma_encode_canonical(lanes);
    assert forall|k: int| 0 <= k < groups.len() implies (#[trigger] groups[k]).len() > 0 by {
        lemma_canonical_widths(groups, k);
    }
    lemma_grouped_sum_flat(groups);
}

/// With an associative addition, the dot product that the lane-group vector
/// computes is the sum, from left to right, of the products of the lanes.
pub proof fn lemma_dot_is_naive<S: Scalar>(a: Seq<S>, b: Seq<S>)
    requires
        add_associative::<S>(),
        a.len() == b.len(),
        a.len() > 0,
    ensures
        dot_of::<S, SimdVector<S>>(a, b) == run_sum(lanewise(Operator::Mul, a, b)),
{
    lemma_sum_is_naive(lanewise(Operator::Mul, a, b));
}

/// Where multiplication distributes over addition, scaling a sum of two
/// vectors of one length is adding the scaled vectors.
pub proof fn lemma_scale_distributes<S: Scalar>(v: Seq<S>, w: Seq<S>, factor: S)
    requires
        mul_distributes::<S>(),
        v.len() == w.len(),
    ensures
        scaled(lanewise(Operator::Add, v, w), factor) == lanewise(
            Operator::Add,
            scaled(v, factor),
            scaled(w, factor),
        ),
{
    let left = scaled(lanewise(Operator::Add, v, w), factor);
    let right = lanewise(Operator::Add, scaled(v, factor), scaled(w, factor));
    assert forall|i: int| 0 <= i < left.len() implies left[i] == right[i] by {
        assert(v[i].add_spec(w[i]).mul_spec(factor) == v[i].mul_spec(factor).add_spec(
            w[i].mul_spec(factor),
        ));
    }
    assert(left =~= right);
}

/// For an exact lane type with an associative addition, what the dot
/// product of two lane-group vectors yields is the sum, from left to right,
/// of the products of their lanes.
pub proof fn lemma_dot_yields_naive<S: Scalar>(a: Seq<S>, b: Seq<S>, d: S)
    requires
        S::obeys_add_spec(),
        S::obeys_mul_spec(),
        add_associative::<S>(),
        a.len() == b.len(),
        a.len() > 0,
        dot_yields::<S, SimdVector<S>>(a, b, d),
    ensures
        d == run_sum(lanewise(Operator::Mul, a, b)),
{
    lemma_dot_exact::<S, SimdVector<S>>(a, b, d);
    lemma_dot_is_naive(a, b);
}

/// For an exact lane type whose multiplication distributes over its
/// addition, scaling what the sum of two vectors yields gives what the sum
/// of the scaled vectors yields.
pub proof fn lemma_scale_yields_distributed<S: Scalar>(
    v: Seq<S>,
    w: Seq<S>,
    factor: S,
    sum: Seq<S>,
    left: Seq<S>,
    scaled_v: Seq<S>,
    scaled_w: Seq<S>,
    right: Seq<S>,
)
    requires
        S::obeys_add_spec(),
        S::obeys_mul_spec(),
        mul_distributes::<S>(),
        v.len() == w.len(),
        lanewise_yields(Operator::Add, v, w, sum),
        scaled_yields(sum, factor, left),
        scaled_yields(v, factor, scaled_v),
        scaled_yields(w, factor, scaled_w),
        lanewise_yields(Operator::Add, scaled_v, scaled_w, right),
    ensures
        left == right,
{
    lemma_lanewise_exact(Operator::Add, v, w, sum);
    lemma_scaled_exact(sum, factor, left);
    lemma_scaled_exact(v, factor, scaled_v);
    lemma_scaled_exact(w, factor, scaled_w);
    lemma_lanewise_exact(Operator::Add, scaled_v, scaled_w, right);
    lemma_scale_distributes(v, w, factor);
}

/// For every lane type, the dot product of two lane-group vectors takes
/// each pair of lanes once: it sums the lane groups of a run of products, one
/// product for each pair, and those groups hold that run and nothing else.
pub proof fn lemma_dot_takes_each_pair_once<S: Scalar>(a: Seq<S>, b: Seq<S>, d: S)
    requires
        dot_yields::<S, SimdVector<S>>(a, b, d),
    ensures
        exists|p: Seq<S>|
            {
                &&& #[trigger] lanewise_yields(Operator::Mul, a, b, p)
                &&& p.len() == a.len()
                &&& decode(encode(p)) == p
                &&& grouped_sums_to(encode(p), d)
            },
{
    let p = choose|p: Seq<S>|
        (#[trigger] lanewise_yields(Operator::Mul, a, b, p)) && <SimdVector<S> as Vector<
            S,
        >>::sums_to(p, d);
    lemma_round_trip(p);
    assert(lanewise_yields(Operator::Mul, a, b, p) && p.len() == a.len() && decode(encode(p)) == p
        && grouped_sums_to(encode(p), d));
}

/// For every lane type, scaling the sum of two vectors and adding the
/// scaled vectors give as many lanes as the vectors have, and each lane is
/// made of the lanes at its own position.
pub proof fn lemma_scale_and_sum_keep_places<S: Scalar>(
    v: Seq<S>,
    w: Seq<S>,
    factor: S,
    sum: Seq<S>,
    left: Seq<S>,
    scaled_v: Seq<S>,
    scaled_w: Seq<S>,
    right: Seq<S>,
)
    requires
        v.len() == w.len(),
        lanewise_yields(Operator::Add, v, w, sum),
        scaled_yields(sum, factor, left),
        scaled_yields(v, factor, scaled_v),
        scaled_yields(w, factor, scaled_w),
        lanewise_yields(Operator::Add, scaled_v, scaled_w, right),
    ensures
        left.len() == v.len(),
        right.len() == v.len(),
        forall|i: int|
            0 <= i < v.len() ==> {
                &&& #[trigger] Operator::Add.yields(v[i], w[i], sum[i])
                &&& Operator::Mul.yields(sum[i], factor, left[i])
            },
        forall|i: int|
            0 <= i < v.len() ==> {
                &&& Operator::Mul.yields(v[i], factor, scaled_v[i])
                &&& Operator::Mul.yields(w[i], factor, scaled_w[i])
                &&& #[trigger] Operator::Add.yields(scaled_v[i], scaled_w[i], right[i])
            },
{
    assert forall|i: int| 0 <= i < v.len() implies {
        &&& #[trigger] Operator::Add.yields(v[i], w[i], sum[i])
        &&& Operator::Mul.yields(sum[i], factor, left[i])
    } by {
        assert(Operator::Mul.yields(sum[i], factor, left[i]));
    }
    assert forall|i: int| 0 <= i < v.len() implies {
        &&& Operator::Mul.yields(v[i], factor, scaled_v[i])
        &&& Operator::Mul.yields(w[i], factor, scaled_w[i])
        &&& #[trigger] Operator::Add.yields(scaled_v[i], scaled_w[i], right[i])
    } by {
        assert(Operator::Mul.yields(v[i], factor, scaled_v[i]));
        assert(Operator::Mul.yields(w[i], factor, scaled_w[i]));
    }
}

/// For a lane type whose multiplication and addition are defined
/// everywhere, the dot product of two lane-group vectors of one length can
/// always be computed.
pub proof fn lemma_total_dot_defined<S: Scalar>(a: Seq<S>, b: Seq<S>)
    requires
        add_total::<S>(),
        mul_total::<S>(),
        a.len() == b.len(),
    ensures
        dot_defined::<S, SimdVector<S>>(a, b),
{
    assert forall|i: int| 0 <= i < a.len() implies #[trigger] Operator::Mul.defined(a[i], b[i]) by {
        assert(a[i].mul_req(b[i]));
    }
    assert forall|p: Seq<S>| #[trigger]
        lanewise_yields(Operator::Mul, a, b, p) implies <SimdVector<S> as Vector<S>>::summable(
        p,
    ) by {
        lemma_total_grouped_summable(encode(p));
    }
}

/// For a lane type whose multiplication and addition are defined
/// everywhere, the product of two matrices that fit can always be computed:
/// the product then asks for well-formed operands and for nothing else.
pub proof fn lemma_total_product_defined<S: Scalar>(a: Seq<Seq<S>>, b: Seq<Seq<S>>)
    requires
        add_total::<S>(),
        mul_total::<S>(),
        rectangular(a),
        rectangular(b),
        a[0].len() == b.len(),
    ensures
        product_defined::<S, SimdVector<S>>(a, b),
{
    assert forall|i: int, j: int| 0 <= i < a.len() && 0 <= j < b[0].len() implies #[trigger] dot_defined::<
        S,
        SimdVector<S>,
    >(a[i], column_of(b, j)) by {
        assert(a[i].len() == a[0].len());
        lemma_total_dot_defined(a[i], column_of(b, j));
    }
}

/// For a lane type whose addition is defined everywhere, two matrices of
/// the same dimensions can always be added.
pub proof fn lemma_total_rows_addable<S: Scalar>(a: Seq<Seq<S>>, b: Seq<Seq<S>>)
    requires
        add_total::<S>(),
        rectangular(a),
        rectangular(b),
        a.len() == b.len(),
        a[0].len() == b[0].len(),
    ensures
        rows_addable(a, b),
{
    assert forall|i: int| 0 <= i < a.len() && i < b.len() implies lanewise_defined(
        Operator::Add,
        #[trigger] a[i],
        b[i],
    ) by {
        assert(a[i].len() == a[0].len());
        assert(b[i].len() == b[0].len());
        assert forall|k: int| 0 <= k < a[i].len() implies #[trigger] Operator::Add.defined(
            a[i][k],
            b[i][k],
        ) by {
            assert(a[i][k].add_req(b[i][k]));
        }
    }
}

/// For a lane type whose multiplication is defined everywhere, every matrix
/// can be scaled by every factor.
pub proof fn lemma_total_rows_scalable<S: Scalar>(rows: Seq<Seq<S>>, factor: S)
    requires
        mul_total::<S>(),
    ensures
        rows_scalable(rows, factor),
{
    assert forall|i: int| 0 <= i < rows.len() implies scalable(#[trigger] rows[i], factor) by {
        assert forall|k: int| 0 <= k < rows[i].len() implies #[trigger] rows[i][k].mul_req(
            factor,
        ) by {
        }
    }
}

} // verus!
