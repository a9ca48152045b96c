//! Lane values and the sequence-level model of lane arithmetic.
//!
//! The library is generic in the lane type. It asks for the four arithmetic
//! operators of std and a default value, and speaks of them through what
//! vstd attaches to the operator traits. An operation may be applied where
//! its `*_req` holds. What it gives is stated twice: as a relation between
//! operands and result that holds of every lane type (`yields`, `sums_to`),
//! and as a function of the operands (`value`, `run_sum`) for the lane types
//! whose `obeys_*_spec` holds, which are called exact here.

use core::ops::Add;
use core::ops::Div;
use core::ops::Mul;
use core::ops::Sub;
use vstd::prelude::*;
use vstd::std_specs::ops::AddSpec;
use vstd::std_specs::ops::DivSpec;
use vstd::std_specs::ops::MulSpec;
use vstd::std_specs::ops::SubSpec;

verus! {

/// A lane value: copyable, with a default (zero for the primitive numbers) and
/// closed under `+ - * /`.
pub trait Scalar: Copy + Default + Add<Output = Self> + Sub<Output = Self> + Mul<
    Output = Self,
> + Div<Output = Self> {

}

impl<T: Copy + Default + Add<Output = T> + Sub<Output = T> + Mul<Output = T> + Div<
    Output = T,
>> Scalar for T {

}

/// One of the four lane-wise binary operations.
#[derive(Clone, Copy, Debug, PartialEq, Eq)]
pub enum Operator {
    Add,
    Sub,
    Mul,
    Div,
}

impl Operator {
    /// Whether the operation may be applied to `a` and `b`.
    pub open spec fn defined<S: Scalar>(self, a: S, b: S) -> bool {
        match self {
            Operator::Add => a.add_req(b),
            Operator::Sub => a.sub_req(b),
            Operator::Mul => a.mul_req(b),
            Operator::Div => a.div_req(b),
        }
    }

    /// Whether `r` can be the result of the operation on `a` and `b`.
    pub open spec fn yields<S: Scalar>(self, a: S, b: S, r: S) -> bool {
        match self {
            Operator::Add => call_ensures(<S as Add>::add, (a, b), r),
            Operator::Sub => call_ensures(<S as Sub>::sub, (a, b), r),
            Operator::Mul => call_ensures(<S as Mul>::mul, (a, b), r),
            Operator::Div => call_ensures(<S as Div>::div, (a, b), r),
        }
    }

    /// Whether the lane type gives the operation one result per pair of
    /// operands.
    pub open spec fn exact<S: Scalar>(self) -> bool {
        match self {
            Operator::Add => S::obeys_add_spec(),
            Operator::Sub => S::obeys_sub_spec(),
            Operator::Mul => S::obeys_mul_spec(),
            Operator::Div => S::obeys_div_spec(),
        }
    }

    /// The result of the operation on `a` and `b`, for an exact lane type.
    pub open spec fn value<S: Scalar>(self, a: S, b: S) -> S {
        match self {
            Operator::Add => a.add_spec(b),
            Operator::Sub => a.sub_spec(b),
            Operator::Mul => a.mul_spec(b),
            Operator::Div => a.div_spec(b),
        }
    }

    /// Applies the operation to one pair of lanes.
    pub fn apply<S: Scalar>(self, a: S, b: S) -> (r: S)
        requires
            self.defined(a, b),
        ensures
            self.yields(a, b, r),
            self.exact::<S>() ==> r == self.value(a, b),
    {
        match self {
            Operator::Add => a + b,
            Operator::Sub => a - b,
            Operator::Mul => a * b,
            Operator::Div => a / b,
        }
    }

    /// For an exact lane type, what the operation yields is its value.
    pub proof fn lemma_exact<S: Scalar>(self, a: S, b: S, r: S)
        requires
            self.yields(a, b, r),
            self.exact::<S>(),
        ensures
            r == self.value(a, b),
    {
    }
}

/// Whether `op` may be applied lane by lane to `a` and `b`: they have the same
/// length and the operation is defined on every pair of lanes.
pub open spec fn lanewise_defined<S: Scalar>(op: Operator, a: Seq<S>, b: Seq<S>) -> bool {
    &&& a.len() == b.len()
    &&& forall|i: int| 0 <= i < a.len() ==> #[trigger] op.defined(a[i], b[i])
}

/// Whether `r` can be the result of `op` applied lane by lane to `a` and `b`.
pub open spec fn lanewise_yields<S: Scalar>(op: Operator, a: Seq<S>, b: Seq<S>, r: Seq<S>) -> bool {
    &&& r.len() == a.len()
    &&& forall|i: int| 0 <= i < a.len() ==> #[trigger] op.yields(a[i], b[i], r[i])
}

/// `op` applied lane by lane, for an exact lane type.
pub open spec fn lanewise<S: Scalar>(op: Operator, a: Seq<S>, b: Seq<S>) -> Seq<S> {
    Seq::new(a.len(), |i: int| op.value(a[i], b[i]))
}

/// For an exact lane type, what `op` yields lane by lane is `lanewise`.
pub proof fn lemma_lanewise_exact<S: Scalar>(op: Operator, a: Seq<S>, b: Seq<S>, r: Seq<S>)
    requires
        lanewise_yields(op, a, b, r),
        op.exact::<S>(),
    ensures
        r == lanewise(op, a, b),
{
    assert forall|i: int| 0 <= i < r.len() implies r[i] == lanewise(op, a, b)[i] by {
        assert(op.yields(a[i], b[i], r[i]));
    }
    assert(r =~= lanewise(op, a, b));
}

/// Whether every lane of `a` may be multiplied by `factor`.
pub open spec fn scalable<S: Scalar>(a: Seq<S>, factor: S) -> bool {
    forall|i: int| 0 <= i < a.len() ==> #[trigger] a[i].mul_req(factor)
}

/// Whether `r` can be the result of multiplying every lane of `a` by
/// `factor`.
pub open spec fn scaled_yields<S: Scalar>(a: Seq<S>, factor: S, r: Seq<S>) -> bool {
    &&& r.len() == a.len()
    &&& forall|i: int| 0 <= i < a.len() ==> Operator::Mul.yields(#[trigger] a[i], factor, r[i])
}

/// Every lane of `a` multiplied by `factor`, for an exact lane type.
pub open spec fn scaled<S: Scalar>(a: Seq<S>, factor: S) -> Seq<S> {
    Seq::new(a.len(), |i: int| a[i].mul_spec(factor))
}

/// For an exact lane type, what scaling yields is `scaled`.
pub proof fn lemma_scaled_exact<S: Scalar>(a: Seq<S>, factor: S, r: Seq<S>)
    requires
        scaled_yields(a, factor, r),
        S::obeys_mul_spec(),
    ensures
        r == scaled(a, factor),
{
    assert forall|i: int| 0 <= i < r.len() implies r[i] == scaled(a, factor)[i] by {
        assert(Operator::Mul.yields(a[i], factor, r[i]));
    }
    assert(r =~= scaled(a, factor));
}

/// Whether `r` can be the sum of `lanes`, added from left to right: the
/// default of the lane type for no lanes, the lane itself for one, and else
/// what adding the last lane to a sum of the lanes before it yields.
pub open spec fn sums_to<S: Scalar>(lanes: Seq<S>, r: S) -> bool
    decreases lanes.len(),
{
    if lanes.len() == 0 {
        call_ensures(S::default, (), r)
    } else if lanes.len() == 1 {
        r == lanes[0]
    } else {
        exists|p: S|
            sums_to(lanes.drop_last(), p) && #[trigger] Operator::Add.yields(p, lanes.last(), r)
    }
}

/// Whether each addition of the left-to-right sum of `lanes` is defined,
/// whatever the additions before it have yielded.
pub open spec fn run_summable<S: Scalar>(lanes: Seq<S>) -> bool
    decreases lanes.len(),
{
    lanes.len() <= 1 || {
        &&& run_summable(lanes.drop_last())
        &&& forall|p: S| sums_to(lanes.drop_last(), p) ==> #[trigger] p.add_req(lanes.last())
    }
}

/// The sum of a non-empty run of lanes, added from left to right, for an
/// exact lane type.
pub open spec fn run_sum<S: Scalar>(lanes: Seq<S>) -> S
    decreases lanes.len(),
{
    if lanes.len() <= 1 {
        lanes[0]
    } else {
        run_sum(lanes.drop_last()).add_spec(lanes.last())
    }
}

/// For an exact lane type, a non-empty run of lanes sums to `run_sum` and to
/// nothing else.
pub proof fn lemma_run_sum_exact<S: Scalar>(lanes: Seq<S>, r: S)
    requires
        lanes.len() > 0,
        S::obeys_add_spec(),
        sums_to(lanes, r),
    ensures
        r == run_sum(lanes),
    decreases lanes.len(),
{
    if lanes.len() > 1 {
        let p = choose|p: S|
            sums_to(lanes.drop_last(), p) && #[trigger] Operator::Add.yields(p, lanes.last(), r);
        lemma_run_sum_exact(lanes.drop_last(), p);
    }
}

/// Whether addition is defined on every pair of lane values.
pub open spec fn add_total<S: Scalar>() -> bool {
    forall|a: S, b: S| #[trigger] a.add_req(b)
}

/// Whether multiplication is defined on every pair of lane values.
pub open spec fn mul_total<S: Scalar>() -> bool {
    forall|a: S, b: S| #[trigger] a.mul_req(b)
}

/// Where addition is defined everywhere, every run is summable.
pub proof fn lemma_total_run_summable<S: Scalar>(lanes: Seq<S>)
    requires
        add_total::<S>(),
    ensures
        run_summable(lanes),
    decreases lanes.len(),
{
    if lanes.len() > 1 {
        lemma_total_run_summable(lanes.drop_last());
    }
}

/// Whether each addition of `run_sum` is defined on its operands, for an
/// exact lane type.
pub open spec fn run_sum_defined<S: Scalar>(lanes: Seq<S>) -> bool
    decreases lanes.len(),
{
    lanes.len() <= 1 || {
        &&& run_sum_defined(lanes.drop_last())
        &&& run_sum(lanes.drop_last()).add_req(lanes.last())
    }
}

/// For an exact lane type, a run is summable if each addition of its sum is
/// defined on its operands.
pub proof fn lemma_exact_run_summable<S: Scalar>(lanes: Seq<S>)
    requires
        S::obeys_add_spec(),
        run_sum_defined(lanes),
    ensures
        run_summable(lanes),
    decreases lanes.len(),
{
    if lanes.len() > 1 {
        lemma_exact_run_summable(lanes.drop_last());
        assert forall|p: S| sums_to(lanes.drop_last(), p) implies #[trigger] p.add_req(
            lanes.last(),
        ) by {
            lemma_run_sum_exact(lanes.drop_last(), p);
        }
    }
}

/// A prefix of a summable run is summable.
pub proof fn lemma_run_summable_prefix<S: Scalar>(lanes: Seq<S>, n: int)
    requires
        run_summable(lanes),
        0 <= n <= lanes.len(),
    ensures
        run_summable(lanes.subrange(0, n)),
    decreases lanes.len(),
{
    if n == lanes.len() {
        assert(lanes.subrange(0, n) =~= lanes);
    } else if lanes.len() > 1 {
        lemma_run_summable_prefix(lanes.drop_last(), n);
        assert(lanes.drop_last().subrange(0, n) =~= lanes.subrange(0, n));
    } else {
    }
}

/// Sums the lanes of a run from left to right.
pub fn sum_run<S: Scalar>(lanes: &Vec<S>) -> (r: S)
    requires
        run_summable(lanes@),
    ensures
        sums_to(lanes@, r),
        lanes.len() > 0 && S::obeys_add_spec() ==> r == run_sum(lanes@),
{
    if lanes.len() == 0 {
        return S::default();
    }
    let mut acc = lanes[0];
    let mut i: usize = 1;
    assert(lanes@.subrange(0, 1).len() == 1);
    while i < lanes.len()
        invariant
            1 <= i <= lanes.len(),
            run_summable(lanes@),
            sums_to(lanes@.subrange(0, i as int), acc),
        decreases lanes.len() - i,
    {
        let ghost before = acc;
        proof {
            let next = lanes@.subrange(0, i + 1);
            assert(next.drop_last() =~= lanes@.subrange(0, i as int));
            assert(next.last() == lanes@[i as int]);
            lemma_run_summable_prefix(lanes@, i + 1);
            assert(sums_to(next.drop_last(), before));
            assert(before.add_req(next.last()));
        }
        acc = acc + lanes[i];
        proof {
            let next = lanes@.subrange(0, i + 1);
            assert(sums_to(next.drop_last(), before) && Operator::Add.yields(
                before,
                next.last(),
                acc,
            ));
        }
        i += 1;
    }
    proof {
        assert(lanes@.subrange(0, i as int) =~= lanes@);
        if S::obeys_add_spec() {
            lemma_run_sum_exact(lanes@, acc);
        }
    }
    acc
}

/// Whether `parts` can be the sums of the first groups, one for each of as
/// many groups as `parts` is long, each group summed from left to right.
pub open spec fn first_groups_sum_to<S: Scalar>(groups: Seq<Seq<S>>, parts: Seq<S>) -> bool {
    &&& parts.len() <= groups.len()
    &&& forall|k: int| 0 <= k < parts.len() ==> sums_to(#[trigger] groups[k], parts[k])
}

/// Whether `parts` can be the sums of the groups, each group summed from
/// left to right.
pub open spec fn groups_sum_to<S: Scalar>(groups: Seq<Seq<S>>, parts: Seq<S>) -> bool {
    parts.len() == groups.len() && first_groups_sum_to(groups, parts)
}

/// Whether `r` can be the sum of the lanes of the groups: each group is
/// summed from left to right, and the sums of the groups are added from left
/// to right. The sum of no groups is the default of the lane type.
pub open spec fn grouped_sums_to<S: Scalar>(groups: Seq<Seq<S>>, r: S) -> bool {
    exists|parts: Seq<S>| (#[trigger] groups_sum_to(groups, parts)) && sums_to(parts, r)
}

/// Whether the additions of the grouped sum can all be made, whatever the
/// additions before them have yielded: every group is summable, and so are
/// the sums of the first groups, however many of them are taken.
pub open spec fn grouped_summable<S: Scalar>(groups: Seq<Seq<S>>) -> bool {
    &&& forall|k: int| 0 <= k < groups.len() ==> run_summable(#[trigger] groups[k])
    &&& forall|parts: Seq<S>|
        (#[trigger] first_groups_sum_to(groups, parts)) ==> run_summable(parts)
}

/// The sum of each group, in the order of the groups, for an exact lane
/// type.
pub open spec fn group_sums<S: Scalar>(groups: Seq<Seq<S>>) -> Seq<S> {
    Seq::new(groups.len(), |k: int| run_sum(groups[k]))
}

/// The sum of a non-empty run of non-empty groups, for an exact lane type:
/// each group is summed from left to right, and the sums of the groups are
/// added from left to right.
pub open spec fn grouped_sum<S: Scalar>(groups: Seq<Seq<S>>) -> S {
    run_sum(group_sums(groups))
}

/// Where addition is defined everywhere, every run of groups is summable.
pub proof fn lemma_total_grouped_summable<S: Scalar>(groups: Seq<Seq<S>>)
    requires
        add_total::<S>(),
    ensures
        grouped_summable(groups),
{
    assert forall|k: int| 0 <= k < groups.len() implies run_summable(#[trigger] groups[k]) by {
        lemma_total_run_summable(groups[k]);
    }
    assert forall|parts: Seq<S>| #[trigger] first_groups_sum_to(groups, parts) implies run_summable(
        parts,
    ) by {
        lemma_total_run_summable(parts);
    }
}

/// For an exact lane type, non-empty groups are summable if each addition of
/// the sum of every group, and of the sum of those sums, is defined on its
/// operands.
pub proof fn lemma_exact_grouped_summable<S: Scalar>(groups: Seq<Seq<S>>)
    requires
        S::obeys_add_spec(),
        forall|k: int| 0 <= k < groups.len() ==> (#[trigger] groups[k]).len() > 0,
        forall|k: int| 0 <= k < groups.len() ==> run_sum_defined(#[trigger] groups[k]),
        run_sum_defined(group_sums(groups)),
    ensures
        grouped_summable(groups),
{
    assert forall|k: int| 0 <= k < groups.len() implies run_summable(#[trigger] groups[k]) by {
        lemma_exact_run_summable(groups[k]);
    }
    assert forall|parts: Seq<S>| #[trigger] first_groups_sum_to(groups, parts) implies run_summable(
        parts,
    ) by {
        let sums = group_sums(groups);
        assert forall|k: int| 0 <= k < parts.len() implies parts[k] == sums[k] by {
            assert(sums_to(groups[k], parts[k]));
            lemma_run_sum_exact(groups[k], parts[k]);
        }
        assert(parts =~= sums.subrange(0, parts.len() as int));
        lemma_exact_run_summable(sums);
        lemma_run_summable_prefix(sums, parts.len() as int);
    }
}

/// For an exact lane type, non-empty groups sum to `grouped_sum` and to
/// nothing else.
pub proof fn lemma_grouped_sum_exact<S: Scalar>(groups: Seq<Seq<S>>, r: S)
    requires
        groups.len() > 0,
        forall|k: int| 0 <= k < groups.len() ==> (#[trigger] groups[k]).len() > 0,
        S::obeys_add_spec(),
        grouped_sums_to(groups, r),
    ensures
        r == grouped_sum(groups),
{
    let parts = choose|parts: Seq<S>|
        (#[trigger] groups_sum_to(groups, parts)) && sums_to(parts, r);
    assert forall|k: int| 0 <= k < groups.len() implies parts[k] == group_sums(groups)[k] by {
        assert(sums_to(groups[k], parts[k]));
        lemma_run_sum_exact(groups[k], parts[k]);
    }
    assert(parts =~= group_sums(groups));
    lemma_run_sum_exact(parts, r);
}

} // verus!
