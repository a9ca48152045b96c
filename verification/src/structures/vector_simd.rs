//! The lane-group vector.

use crate::algebra::scalar::first_groups_sum_to;
use crate::algebra::scalar::grouped_sum;
use crate::algebra::scalar::grouped_summable;
use crate::algebra::scalar::grouped_sums_to;
use crate::algebra::scalar::groups_sum_to;
use crate::algebra::scalar::lanewise;
use crate::algebra::scalar::lanewise_defined;
use crate::algebra::scalar::lanewise_yields;
use crate::algebra::scalar::lemma_grouped_sum_exact;
use crate::algebra::scalar::lemma_lanewise_exact;
use crate::algebra::scalar::lemma_scaled_exact;
use crate::algebra::scalar::run_summable;
use crate::algebra::scalar::scalable;
use crate::algebra::scalar::scaled;
use crate::algebra::scalar::scaled_yields;
use crate::algebra::scalar::sum_run;
use crate::algebra::scalar::sums_to;
use crate::algebra::scalar::Operator;
use crate::algebra::scalar::Scalar;
use crate::structures::lane_group::canonical;
use crate::structures::lane_group::decode;
use crate::structures::lane_group::encode;
use crate::structures::lane_group::leading_width;
use crate::structures::lane_group::lemma_canonical_widths;
use crate::structures::lane_group::lemma_decode_push;
use crate::structures::lane_group::lemma_lane_position;
use crate::structures::lane_group::lemma_locate;
use crate::structures::lane_group::lemma_offset_total;
use crate::structures::lane_group::lemma_one_split;
use crate::structures::lane_group::lemma_round_trip;
use crate::structures::lane_group::lemma_same_offset;
use crate::structures::lane_group::lemma_same_shape;
use crate::structures::lane_group::lemma_shape_canonical;
use crate::structures::lane_group::lemma_wide_groups;
use crate::structures::lane_group::locate;
use crate::structures::lane_group::offset;
use crate::structures::lane_group::same_shape;
use crate::structures::lane_group::WIDEST;
use core::ops::Add;
use core::ops::Div;
use core::ops::Mul;
use core::ops::Sub;
use vstd::prelude::*;
use vstd::std_specs::ops::AddSpec;
use vstd::std_specs::ops::MulSpec;

verus! {

/// A vector of lanes, held as its lane groups: the 64-wide groups first, then
/// the narrower ones from the widest down.
#[derive(Debug, PartialEq)]
pub struct SimdVector<S> {
    chunks: Vec<Vec<S>>,
    lanes: usize,
}

/// The lanes that each of a run of stored groups holds.
pub open spec fn runs<S>(chunks: Seq<Vec<S>>) -> Seq<Seq<S>> {
    Seq::new(chunks.len(), |k: int| chunks[k]@)
}

/// The width of the first lane group of a run of `n` lanes.
pub fn first_width(n: usize) -> (w: usize)
    ensures
        w == leading_width(n as nat),
{
    if n >= WIDEST {
        WIDEST
    } else if n >= 32 {
        32
    } else if n >= 16 {
        16
    } else if n >= 8 {
        8
    } else if n >= 4 {
        4
    } else if n >= 2 {
        2
    } else if n >= 1 {
        1
    } else {
        0
    }
}

/// Copies `width` lanes of `source`, from position `start` on.
pub fn copy_lanes<S: Copy>(source: &Vec<S>, start: usize, width: usize) -> (r: Vec<S>)
    requires
        start + width <= source.len(),
    ensures
        r@ == source@.subrange(start as int, start + width),
{
    let mut group: Vec<S> = Vec::with_capacity(width);
    let mut j: usize = 0;
    while j < width
        invariant
            j <= width,
            start + width <= source.len(),
            group@ == source@.subrange(start as int, start + j),
        decreases width - j,
    {
        group.push(source[start + j]);
        assert(group@ =~= source@.subrange(start as int, start + j + 1));
        j += 1;
    }
    group
}

/// Applies `op` to each pair of lanes of two groups of one width.
fn combine_lanes<S: Scalar>(a: &Vec<S>, b: &Vec<S>, op: Operator) -> (r: Vec<S>)
    requires
        lanewise_defined(op, a@, b@),
    ensures
        lanewise_yields(op, a@, b@, r@),
{
    let mut group: Vec<S> = Vec::with_capacity(a.len());
    let mut j: usize = 0;
    while j < a.len()
        invariant
            j <= a.len(),
            group.len() == j,
            lanewise_defined(op, a@, b@),
            forall|i: int| 0 <= i < j ==> #[trigger] op.yields(a@[i], b@[i], group@[i]),
        decreases a.len() - j,
    {
        assert(op.defined(a@[j as int], b@[j as int]));
        let lane = op.apply(a[j], b[j]);
        group.push(lane);
        j += 1;
    }
    group
}

/// Multiplies each lane of a group by `factor`.
fn scale_lanes<S: Scalar>(a: &Vec<S>, factor: S) -> (r: Vec<S>)
    requires
        scalable(a@, factor),
    ensures
        scaled_yields(a@, factor, r@),
{
    let mut group: Vec<S> = Vec::with_capacity(a.len());
    let mut j: usize = 0;
    while j < a.len()
        invariant
            j <= a.len(),
            group.len() == j,
            scalable(a@, factor),
            forall|i: int| 0 <= i < j ==> Operator::Mul.yields(#[trigger] a@[i], factor, group@[i]),
        decreases a.len() - j,
    {
        assert(a@[j as int].mul_req(factor));
        let lane = a[j] * factor;
        group.push(lane);
        j += 1;
    }
    group
}

impl<S> SimdVector<S> {
    /// The lane groups of the vector, in order.
    pub closed spec fn groups(&self) -> Seq<Seq<S>> {
        runs(self.chunks@)
    }

    /// The lanes of the vector, in order.
    pub open spec fn view(&self) -> Seq<S> {
        decode(self.groups())
    }

    #[verifier::type_invariant]
    spec fn well_formed(&self) -> bool {
        &&& canonical(self.groups())
        &&& decode(self.groups()).len() == self.lanes
    }
}

impl<S: Copy> SimdVector<S> {
    /// Encodes a run of lanes.
    pub fn from_vector(input: Vec<S>) -> (r: Self)
        ensures
            r.groups() == encode(input@),
            r@ == input@,
            canonical(r.groups()),
    {
        Self::from_lanes(&input)
    }

    /// Encodes a borrowed run of lanes: a group of 64 lanes as long as 64 are
    /// left, then the widest group that the rest allows, until none is left.
    pub fn from_lanes(input: &Vec<S>) -> (r: Self)
        ensures
            r.groups() == encode(input@),
            r@ == input@,
            canonical(r.groups()),
    {
        let n = input.len();
        let mut chunks: Vec<Vec<S>> = Vec::new();
        let mut pos: usize = 0;
        assert(input@.subrange(0, n as int) =~= input@);
        assert(runs(chunks@) + encode(input@) =~= encode(input@));
        while pos < n
            invariant
                pos <= n,
                n == input.len(),
                runs(chunks@) + encode(input@.subrange(pos as int, n as int)) == encode(input@),
            decreases n - pos,
        {
            let width = first_width(n - pos);
            let group = copy_lanes(input, pos, width);
            proof {
                let rest = input@.subrange(pos as int, n as int);
                let after = input@.subrange(pos + width, n as int);
                assert(rest.subrange(0, width as int) =~= group@);
                assert(rest.subrange(width as int, rest.len() as int) =~= after);
                assert(encode(rest) == seq![group@] + encode(after));
                assert(runs(chunks@.push(group)) =~= runs(chunks@) + seq![group@]);
                assert(runs(chunks@.push(group)) + encode(after) =~= runs(chunks@) + encode(
                    rest,
                ));
            }
            chunks.push(group);
            pos += width;
        }
        proof {
            assert(encode(input@.subrange(n as int, n as int)) =~= Seq::<Seq<S>>::empty());
            assert(runs(chunks@) =~= encode(input@));
            lemma_round_trip(input@);
        }
        SimdVector { chunks, lanes: n }
    }

    /// Decodes the vector into a run of lanes.
    pub fn to_vector(&self) -> (r: Vec<S>)
        ensures
            r@ == self@,
    {
        proof {
            use_type_invariant(self);
        }
        let mut out: Vec<S> = Vec::with_capacity(self.lanes);
        let mut k: usize = 0;
        assert(self.groups().subrange(0, 0) =~= Seq::<Seq<S>>::empty());
        while k < self.chunks.len()
            invariant
                k <= self.chunks.len(),
                out@ == decode(self.groups().subrange(0, k as int)),
            decreases self.chunks.len() - k,
        {
            let group = &self.chunks[k];
            let ghost before = out@;
            let mut j: usize = 0;
            while j < group.len()
                invariant
                    j <= group.len(),
                    out@ == before + group@.subrange(0, j as int),
                decreases group.len() - j,
            {
                out.push(group[j]);
                assert(out@ =~= before + group@.subrange(0, j + 1));
                j += 1;
            }
            proof {
                assert(group@.subrange(0, j as int) =~= group@);
                lemma_decode_push(self.groups().subrange(0, k as int), group@);
                assert(self.groups().subrange(0, k as int).push(group@) =~= self.groups().subrange(
                    0,
                    k + 1,
                ));
            }
            k += 1;
        }
        assert(self.groups().subrange(0, k as int) =~= self.groups());
        out
    }

    /// The number of lanes.
    pub fn len(&self) -> (r: usize)
        ensures
            r == self@.len(),
    {
        proof {
            use_type_invariant(self);
        }
        self.lanes
    }

    /// The lane at position `index`, if there is one. The 64-wide groups are
    /// indexed directly; past them the narrower groups are walked from the
    /// widest down.
    pub fn get(&self, index: usize) -> (r: Option<S>)
        ensures
            r == (if index < self@.len() {
                Some(self@[index as int])
            } else {
                None
            }),
    {
        proof {
            use_type_invariant(self);
        }
        if index >= self.lanes {
            return None;
        }
        let wide = self.lanes / WIDEST;
        let ghost groups = self.groups();
        if index < wide * WIDEST {
            proof {
                lemma_wide_groups(groups, index as int / 64);
                lemma_lane_position(groups, index as int / 64, index as int % 64);
            }
            return Some(self.chunks[index / WIDEST][index % WIDEST]);
        }
        let mut k = wide;
        let mut rest = index - wide * WIDEST;
        proof {
            lemma_offset_total(groups);
            if wide > 0 {
                lemma_wide_groups(groups, wide - 1);
            }
        }
        while rest >= self.chunks[k].len()
            invariant
                groups == self.groups(),
                0 <= k < self.chunks.len(),
                index == offset(groups, k as int) + rest,
                index < offset(groups, groups.len() as int),
            decreases self.chunks.len() - k,
        {
            rest -= self.chunks[k].len();
            k += 1;
        }
        proof {
            lemma_lane_position(groups, k as int, rest as int);
        }
        Some(self.chunks[k][rest])
    }
}

impl<S: Copy> Clone for SimdVector<S> {
    fn clone(&self) -> (r: Self)
        ensures
            r.groups() == self.groups(),
            r@ == self@,
            canonical(r.groups()),
    {
        proof {
            use_type_invariant(self);
        }
        let mut chunks: Vec<Vec<S>> = Vec::with_capacity(self.chunks.len());
        let mut k: usize = 0;
        while k < self.chunks.len()
            invariant
                k <= self.chunks.len(),
                chunks.len() == k,
                self.groups().len() == self.chunks.len(),
                runs(chunks@) == self.groups().subrange(0, k as int),
            decreases self.chunks.len() - k,
        {
            let group = copy_lanes(&self.chunks[k], 0, self.chunks[k].len());
            proof {
                assert(group@ =~= self.chunks[k as int]@);
                let grown = runs(chunks@.push(group));
                let wanted = self.groups().subrange(0, k + 1);
                assert forall|q: int| 0 <= q < grown.len() implies grown[q] == wanted[q] by {
                    if q < k {
                        assert(runs(chunks@)[q] == self.groups().subrange(0, k as int)[q]);
                    }
                }
                assert(grown =~= wanted);
            }
            chunks.push(group);
            k += 1;
        }
        assert(self.groups().subrange(0, k as int) =~= self.groups());
        SimdVector { chunks, lanes: self.lanes }
    }
}

impl<S: Scalar> SimdVector<S> {
    /// Applies `op` group by group to two vectors of one length.
    pub fn combine(self, rhs: Self, op: Operator) -> (r: Self)
        requires
            lanewise_defined(op, self@, rhs@),
        ensures
            lanewise_yields(op, self@, rhs@, r@),
            op.exact::<S>() ==> r@ == lanewise(op, self@, rhs@),
            canonical(r.groups()),
    {
        let ghost a = self.groups();
        let ghost b = rhs.groups();
        proof {
            use_type_invariant(&self);
            use_type_invariant(&rhs);
            lemma_one_split(a, b);
        }
        let mut chunks: Vec<Vec<S>> = Vec::with_capacity(self.chunks.len());
        let mut k: usize = 0;
        while k < self.chunks.len()
            invariant
                a == self.groups(),
                b == rhs.groups(),
                a.len() == self.chunks.len(),
                b.len() == rhs.chunks.len(),
                same_shape(a, b),
                lanewise_defined(op, decode(a), decode(b)),
                k <= self.chunks.len(),
                chunks.len() == k,
                forall|q: int|
                    0 <= q < k ==> lanewise_yields(op, a[q], b[q], #[trigger] runs(chunks@)[q]),
            decreases self.chunks.len() - k,
        {
            proof {
                assert(a[k as int].len() == b[k as int].len());
                lemma_same_offset(a, b, k as int);
                assert forall|j: int| 0 <= j < a[k as int].len() implies #[trigger] op.defined(
                    a[k as int][j],
                    b[k as int][j],
                ) by {
                    lemma_lane_position(a, k as int, j);
                    lemma_lane_position(b, k as int, j);
                    let i = offset(a, k as int) + j;
                    assert(op.defined(decode(a)[i], decode(b)[i]));
                }
            }
            let group = combine_lanes(&self.chunks[k], &rhs.chunks[k], op);
            proof {
                let grown = runs(chunks@.push(group));
                assert forall|q: int| 0 <= q < k + 1 implies lanewise_yields(
                    op,
                    a[q],
                    b[q],
                    #[trigger] grown[q],
                ) by {
                    if q < k {
                        assert(grown[q] == runs(chunks@)[q]);
                    }
                }
            }
            chunks.push(group);
            k += 1;
        }
        proof {
            let c = runs(chunks@);
            assert(same_shape(a, c)) by {
                assert forall|q: int| 0 <= q < a.len() implies #[trigger] a[q].len()
                    == c[q].len() by {
                    assert(lanewise_yields(op, a[q], b[q], c[q]));
                }
            }
            lemma_shape_canonical(a, c);
            lemma_same_shape(a, c);
            lemma_same_shape(a, b);
            assert forall|i: int| 0 <= i < decode(a).len() implies #[trigger] op.yields(
                decode(a)[i],
                decode(b)[i],
                decode(c)[i],
            ) by {
                lemma_locate(a, i);
                lemma_locate(b, i);
                lemma_locate(c, i);
                let (q, j) = locate(a, i);
                assert(locate(b, i) == (q, j));
                assert(locate(c, i) == (q, j));
                assert(lanewise_yields(op, a[q], b[q], c[q]));
                assert(op.yields(a[q][j], b[q][j], c[q][j]));
            }
            if op.exact::<S>() {
                lemma_lanewise_exact(op, decode(a), decode(b), decode(c));
            }
        }
        SimdVector { chunks, lanes: self.lanes }
    }

    /// Multiplies every lane by `factor`.
    pub fn scale(self, factor: S) -> (r: Self)
        requires
            scalable(self@, factor),
        ensures
            scaled_yields(self@, factor, r@),
            S::obeys_mul_spec() ==> r@ == scaled(self@, factor),
            canonical(r.groups()),
    {
        let ghost a = self.groups();
        proof {
            use_type_invariant(&self);
        }
        let mut chunks: Vec<Vec<S>> = Vec::with_capacity(self.chunks.len());
        let mut k: usize = 0;
        while k < self.chunks.len()
            invariant
                a == self.groups(),
                a.len() == self.chunks.len(),
                scalable(decode(a), factor),
                k <= self.chunks.len(),
                chunks.len() == k,
                forall|q: int|
                    0 <= q < k ==> scaled_yields(a[q], factor, #[trigger] runs(chunks@)[q]),
            decreases self.chunks.len() - k,
        {
            proof {
                assert forall|j: int| 0 <= j < a[k as int].len() implies #[trigger] a[k as int][j].mul_req(
                    factor,
                ) by {
                    lemma_lane_position(a, k as int, j);
                    let i = offset(a, k as int) + j;
                    assert(decode(a)[i].mul_req(factor));
                }
            }
            let group = scale_lanes(&self.chunks[k], factor);
            proof {
                let grown = runs(chunks@.push(group));
                assert forall|q: int| 0 <= q < k + 1 implies scaled_yields(
                    a[q],
                    factor,
                    #[trigger] grown[q],
                ) by {
                    if q < k {
                        assert(grown[q] == runs(chunks@)[q]);
                    }
                }
            }
            chunks.push(group);
            k += 1;
        }
        proof {
            let c = runs(chunks@);
            assert(same_shape(a, c)) by {
                assert forall|q: int| 0 <= q < a.len() implies #[trigger] a[q].len()
                    == c[q].len() by {
                    assert(scaled_yields(a[q], factor, c[q]));
                }
            }
            lemma_shape_canonical(a, c);
            lemma_same_shape(a, c);
            assert forall|i: int| 0 <= i < decode(a).len() implies Operator::Mul.yields(
                #[trigger] decode(a)[i],
                factor,
                decode(c)[i],
            ) by {
                lemma_locate(a, i);
                lemma_locate(c, i);
                let (q, j) = locate(a, i);
                assert(locate(c, i) == (q, j));
                assert(scaled_yields(a[q], factor, c[q]));
                assert(Operator::Mul.yields(a[q][j], factor, c[q][j]));
            }
            if S::obeys_mul_spec() {
                lemma_scaled_exact(decode(a), factor, decode(c));
            }
        }
        SimdVector { chunks, lanes: self.lanes }
    }

    /// The sum of the lanes: each group is summed from left to right, and the
    /// sums of the groups are added in the order of the groups, the 64-wide
    /// ones first. The sum of no lanes is the lane type's default.
    pub fn sum(&self) -> (r: S)
        requires
            grouped_summable(encode(self@)),
        ensures
            grouped_sums_to(encode(self@), r),
            self@.len() == 0 ==> call_ensures(S::default, (), r),
            self@.len() > 0 && S::obeys_add_spec() ==> r == grouped_sum(encode(self@)),
    {
        let ghost g = self.groups();
        proof {
            use_type_invariant(self);
            assert(g == encode(self@));
        }
        if self.chunks.len() == 0 {
            let zero = S::default();
            proof {
                let parts = Seq::<S>::empty();
                assert(groups_sum_to(g, parts) && sums_to(parts, zero));
                assert(decode(g) =~= Seq::<S>::empty());
            }
            return zero;
        }
        let mut acc = sum_run(&self.chunks[0]);
        let ghost mut parts: Seq<S> = seq![acc];
        let mut k: usize = 1;
        proof {
            assert(parts.subrange(0, 1) =~= parts);
        }
        while k < self.chunks.len()
            invariant
                g == self.groups(),
                g.len() == self.chunks.len(),
                grouped_summable(g),
                1 <= k <= self.chunks.len(),
                parts.len() == k,
                forall|q: int| 0 <= q < k ==> sums_to(#[trigger] g[q], parts[q]),
                sums_to(parts, acc),
            decreases self.chunks.len() - k,
        {
            assert(run_summable(g[k as int]));
            let part = sum_run(&self.chunks[k]);
            let ghost before = acc;
            let ghost next = parts.push(part);
            proof {
                assert(next.drop_last() =~= parts);
                assert(next.last() == part);
                assert forall|q: int| 0 <= q < next.len() implies sums_to(
                    #[trigger] g[q],
                    next[q],
                ) by {
                    if q < k {
                        assert(sums_to(g[q], parts[q]));
                    }
                }
                assert(first_groups_sum_to(g, next));
                assert(run_summable(next));
                assert(sums_to(next.drop_last(), before));
                assert(before.add_req(next.last()));
            }
            acc = acc + part;
            proof {
                assert(sums_to(next.drop_last(), before) && Operator::Add.yields(
                    before,
                    next.last(),
                    acc,
                ));
                parts = next;
            }
            k += 1;
        }
        proof {
            assert(first_groups_sum_to(g, parts));
            assert(groups_sum_to(g, parts) && sums_to(parts, acc));
            if S::obeys_add_spec() {
                assert forall|q: int| 0 <= q < g.len() implies (#[trigger] g[q]).len() > 0 by {
                    lemma_canonical_widths(g, q);
                }
                lemma_grouped_sum_exact(g, acc);
            }
            lemma_canonical_widths(g, 0);
            lemma_lane_position(g, 0, 0);
        }
        acc
    }
}

/// `+` on two vectors asks that their lanes can be added pair by pair. What
/// it gives is stated by `add` itself, over the lanes; the type names no sum
/// of its own, and so it does not obey `add_spec`.
impl<S: Scalar> vstd::std_specs::ops::AddSpecImpl for SimdVector<S> {
    open spec fn obeys_add_spec() -> bool {
        false
    }

    open spec fn add_req(self, rhs: Self) -> bool {
        lanewise_defined(Operator::Add, self@, rhs@)
    }

    open spec fn add_spec(self, rhs: Self) -> Self {
        self
    }
}

impl<S: Scalar> Add for SimdVector<S> {
    type Output = SimdVector<S>;

    /// The lane-wise sum of two vectors of one length.
    fn add(self, rhs: Self) -> (r: Self)
        ensures
            canonical(r.groups()),
            lanewise_yields(Operator::Add, self@, rhs@, r@),
            Operator::Add.exact::<S>() ==> r@ == lanewise(Operator::Add, self@, rhs@),
    {
        self.combine(rhs, Operator::Add)
    }
}

/// `-` on two vectors asks that their lanes can be subtracted pair by pair;
/// `sub` itself states what it gives.
impl<S: Scalar> vstd::std_specs::ops::SubSpecImpl for SimdVector<S> {
    open spec fn obeys_sub_spec() -> bool {
        false
    }

    open spec fn sub_req(self, rhs: Self) -> bool {
        lanewise_defined(Operator::Sub, self@, rhs@)
    }

    open spec fn sub_spec(self, rhs: Self) -> Self {
        self
    }
}

impl<S: Scalar> Sub for SimdVector<S> {
    type Output = SimdVector<S>;

    /// The lane-wise difference of two vectors of one length.
    fn sub(self, rhs: Self) -> (r: Self)
        ensures
            canonical(r.groups()),
            lanewise_yields(Operator::Sub, self@, rhs@, r@),
            Operator::Sub.exact::<S>() ==> r@ == lanewise(Operator::Sub, self@, rhs@),
    {
        self.combine(rhs, Operator::Sub)
    }
}

/// `*` on two vectors asks that their lanes can be multiplied pair by pair;
/// `mul` itself states what it gives.
impl<S: Scalar> vstd::std_specs::ops::MulSpecImpl for SimdVector<S> {
    open spec fn obeys_mul_spec() -> bool {
        false
    }

    open spec fn mul_req(self, rhs: Self) -> bool {
        lanewise_defined(Operator::Mul, self@, rhs@)
    }

    open spec fn mul_spec(self, rhs: Self) -> Self {
        self
    }
}

impl<S: Scalar> Mul for SimdVector<S> {
    type Output = SimdVector<S>;

    /// The lane-wise product of two vectors of one length.
    fn mul(self, rhs: Self) -> (r: Self)
        ensures
            canonical(r.groups()),
            lanewise_yields(Operator::Mul, self@, rhs@, r@),
            Operator::Mul.exact::<S>() ==> r@ == lanewise(Operator::Mul, self@, rhs@),
    {
        self.combine(rhs, Operator::Mul)
    }
}

/// `/` on two vectors asks that their lanes can be divided pair by pair;
/// `div` itself states what it gives.
impl<S: Scalar> vstd::std_specs::ops::DivSpecImpl for SimdVector<S> {
    open spec fn obeys_div_spec() -> bool {
        false
    }

    open spec fn div_req(self, rhs: Self) -> bool {
        lanewise_defined(Operator::Div, self@, rhs@)
    }

    open spec fn div_spec(self, rhs: Self) -> Self {
        self
    }
}

impl<S: Scalar> Div for SimdVector<S> {
    type Output = SimdVector<S>;

    /// The lane-wise quotient of two vectors of one length. What a zero
    /// divisor gives is the lane type's matter: a floating-point type gives
    /// an infinity or a NaN, as IEEE 754 has it, and an integer type rules
    /// the division out by its `div_req`.
    fn div(self, rhs: Self) -> (r: Self)
        ensures
            canonical(r.groups()),
            lanewise_yields(Operator::Div, self@, rhs@, r@),
            Operator::Div.exact::<S>() ==> r@ == lanewise(Operator::Div, self@, rhs@),
    {
        self.combine(rhs, Operator::Div)
    }
}

} // verus!
