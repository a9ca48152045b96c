//! The lane-group codec as mathematics.
//!
//! A run of lanes is split greedily: a group of 64 lanes as long as 64 are
//! left, then groups of 32, 16, 8, 4, 2 and 1 lanes as the rest allows. The
//! widths below 64 are therefore the binary digits of the length modulo 64,
//! and a length has exactly one split.

use vstd::prelude::*;

verus! {

/// The width of the widest lane group.
pub const WIDEST: usize = 64;

/// The width of the first group of a run of `n` lanes: 64 if that many are
/// left, else the largest power of two that fits, and 0 for an empty run.
pub open spec fn leading_width(n: nat) -> nat {
    if n >= 64 {
        64
    } else if n >= 32 {
        32
    } else if n >= 16 {
        16
    } else if n >= 8 {
        8
    } else if n >= 4 {
        4
    } else if n >= 2 {
        2
    } else if n >= 1 {
        1
    } else {
        0
    }
}

/// The lane groups of a run of lanes, in order.
pub open spec fn encode<S>(lanes: Seq<S>) -> Seq<Seq<S>>
    decreases lanes.len(),
{
    if lanes.len() == 0 {
        Seq::empty()
    } else {
        let w = leading_width(lanes.len()) as int;
        seq![lanes.subrange(0, w)] + encode(lanes.subrange(w, lanes.len() as int))
    }
}

/// The lanes of a run of groups, in order.
pub open spec fn decode<S>(groups: Seq<Seq<S>>) -> Seq<S>
    decreases groups.len(),
{
    if groups.len() == 0 {
        Seq::empty()
    } else {
        groups[0] + decode(groups.drop_first())
    }
}

/// Whether `groups` is the split that the codec gives to its own lanes.
pub open spec fn canonical<S>(groups: Seq<Seq<S>>) -> bool {
    encode(decode(groups)) == groups
}

/// Whether two runs of groups have the same number of groups and the same
/// width at each place.
pub open spec fn same_shape<S>(a: Seq<Seq<S>>, b: Seq<Seq<S>>) -> bool {
    &&& a.len() == b.len()
    &&& forall|k: int| 0 <= k < a.len() ==> #[trigger] a[k].len() == b[k].len()
}

/// The position, among the decoded lanes, of the first lane of group `k`.
pub open spec fn offset<S>(groups: Seq<Seq<S>>, k: int) -> int
    decreases k,
{
    if k <= 0 {
        0
    } else {
        offset(groups, k - 1) + groups[k - 1].len()
    }
}

/// The group that holds the lane at position `i`, and the lane's place in it.
pub open spec fn locate<S>(groups: Seq<Seq<S>>, i: int) -> (int, int)
    decreases groups.len(),
{
    if groups.len() == 0 || i < groups[0].len() {
        (0, i)
    } else {
        let (k, j) = locate(groups.drop_first(), i - groups[0].len());
        (k + 1, j)
    }
}

/// Decoding what was encoded gives the lanes back.
pub proof fn lemma_round_trip<S>(lanes: Seq<S>)
    ensures
        decode(encode(lanes)) == lanes,
    decreases lanes.len(),
{
    if lanes.len() > 0 {
        let w = leading_width(lanes.len()) as int;
        let head = lanes.subrange(0, w);
        let tail = lanes.subrange(w, lanes.len() as int);
        lemma_round_trip(tail);
        assert(encode(lanes).drop_first() =~= encode(tail));
        assert(head + tail =~= lanes);
    }
}

/// The groups of a run hold as many lanes as the run: their widths add up
/// to its length.
pub proof fn lemma_encoded_length<S>(lanes: Seq<S>)
    ensures
        offset(encode(lanes), encode(lanes).len() as int) == lanes.len(),
        decode(encode(lanes)).len() == lanes.len(),
{
    lemma_round_trip(lanes);
    lemma_offset_total(encode(lanes));
}

/// What the codec gives is canonical.
pub proof fn lemma_encode_canonical<S>(lanes: Seq<S>)
    ensures
        canonical(encode(lanes)),
{
    lemma_round_trip(lanes);
}

/// Decoding goes through concatenation.
pub proof fn lemma_decode_concat<S>(a: Seq<Seq<S>>, b: Seq<Seq<S>>)
    ensures
        decode(a + b) == decode(a) + decode(b),
    decreases a.len(),
{
    if a.len() == 0 {
        assert(a + b =~= b);
        assert(decode(a) + decode(b) =~= decode(b));
    } else {
        lemma_decode_concat(a.drop_first(), b);
        assert((a + b).drop_first() =~= a.drop_first() + b);
        assert(decode(a + b) =~= decode(a) + decode(b));
    }
}

/// A canonical run of groups starts with the leading width of its lanes, and
/// what follows the first group is canonical too.
pub proof fn lemma_canonical_step<S>(groups: Seq<Seq<S>>)
    requires
        canonical(groups),
        groups.len() > 0,
    ensures
        groups[0].len() == leading_width(decode(groups).len()),
        groups[0].len() > 0,
        canonical(groups.drop_first()),
{
    let lanes = decode(groups);
    let rest = decode(groups.drop_first());
    assert(lanes == groups[0] + rest);
    if lanes.len() == 0 {
        assert(encode(lanes).len() == 0);
    } else {
        let w = leading_width(lanes.len()) as int;
        let tail = lanes.subrange(w, lanes.len() as int);
        assert(encode(lanes)[0] == lanes.subrange(0, w));
        assert(encode(lanes).drop_first() =~= encode(tail));
        assert(tail =~= rest);
    }
}

/// Every group of a canonical run is between 1 and 64 lanes wide and lies
/// within the lanes. The first `len / 64` groups are 64 lanes wide and start
/// at the multiples of 64; the groups after them are narrower.
pub proof fn lemma_canonical_widths<S>(groups: Seq<Seq<S>>, k: int)
    requires
        canonical(groups),
        0 <= k < groups.len(),
    ensures
        1 <= groups[k].len() <= 64,
        offset(groups, k) + groups[k].len() <= decode(groups).len(),
        k < decode(groups).len() / 64 ==> groups[k].len() == 64 && offset(groups, k) == 64 * k,
        k >= decode(groups).len() / 64 ==> groups[k].len() < 64 && offset(groups, k) >= 64 * (
        decode(groups).len() / 64),
    decreases k,
{
    lemma_canonical_step(groups);
    let rest = groups.drop_first();
    assert(decode(groups) == groups[0] + decode(rest));
    if k > 0 {
        lemma_canonical_widths(rest, k - 1);
        lemma_offset_drop_first(groups, k);
    }
}

/// The first `len / 64` groups of a canonical run are 64 lanes wide.
pub proof fn lemma_wide_groups<S>(groups: Seq<Seq<S>>, k: int)
    requires
        canonical(groups),
        0 <= k < decode(groups).len() / 64,
    ensures
        k < groups.len(),
        groups[k].len() == 64,
        offset(groups, k) == 64 * k,
    decreases k,
{
    if groups.len() == 0 {
        assert(decode(groups).len() == 0);
    } else {
        lemma_canonical_step(groups);
        let rest = groups.drop_first();
        assert(decode(groups) == groups[0] + decode(rest));
        if k > 0 {
            lemma_wide_groups(rest, k - 1);
            lemma_offset_drop_first(groups, k);
        }
    }
}

/// The offset past the last group is the number of lanes.
pub proof fn lemma_offset_total<S>(groups: Seq<Seq<S>>)
    ensures
        offset(groups, groups.len() as int) == decode(groups).len(),
    decreases groups.len(),
{
    if groups.len() > 0 {
        lemma_offset_total(groups.drop_first());
        lemma_offset_drop_first(groups, groups.len() as int);
    }
}

/// Decoding a run of groups with one more group at its end appends that group.
pub proof fn lemma_decode_push<S>(groups: Seq<Seq<S>>, last: Seq<S>)
    ensures
        decode(groups.push(last)) == decode(groups) + last,
{
    lemma_decode_concat(groups, seq![last]);
    assert(groups.push(last) =~= groups + seq![last]);
    let one = seq![last];
    assert(one.drop_first() =~= Seq::<Seq<S>>::empty());
    assert(decode(one.drop_first()) =~= Seq::<S>::empty());
    assert(decode(one) == one[0] + decode(one.drop_first()));
    assert(decode(one) =~= last);
}

/// Offsets in what follows the first group are offsets in the whole, less the
/// first group's width.
pub proof fn lemma_offset_drop_first<S>(groups: Seq<Seq<S>>, k: int)
    requires
        1 <= k <= groups.len(),
    ensures
        offset(groups, k) == groups[0].len() + offset(groups.drop_first(), k - 1),
    decreases k,
{
    let rest = groups.drop_first();
    if k > 1 {
        lemma_offset_drop_first(groups, k - 1);
        assert(rest[k - 2] == groups[k - 1]);
        assert(offset(rest, k - 1) == offset(rest, k - 2) + rest[k - 2].len());
    } else {
        assert(offset(groups, 0) == 0);
        assert(offset(rest, 0) == 0);
    }
}

/// The lane at place `j` of group `k` is the decoded lane at `offset + j`.
pub proof fn lemma_lane_position<S>(groups: Seq<Seq<S>>, k: int, j: int)
    requires
        0 <= k < groups.len(),
        0 <= j < groups[k].len(),
    ensures
        0 <= offset(groups, k) + j < decode(groups).len(),
        decode(groups)[offset(groups, k) + j] == groups[k][j],
        locate(groups, offset(groups, k) + j) == (k, j),
    decreases k,
{
    if k > 0 {
        lemma_lane_position(groups.drop_first(), k - 1, j);
        lemma_offset_drop_first(groups, k);
        lemma_offset_nonnegative(groups.drop_first(), k - 1);
    }
}

/// Offsets are not negative.
pub proof fn lemma_offset_nonnegative<S>(groups: Seq<Seq<S>>, k: int)
    ensures
        offset(groups, k) >= 0,
    decreases k,
{
    if k > 0 {
        lemma_offset_nonnegative(groups, k - 1);
    }
}

/// Every decoded lane lies in one group: `locate` names the group and the
/// place, and the lane is found there.
pub proof fn lemma_locate<S>(groups: Seq<Seq<S>>, i: int)
    requires
        0 <= i < decode(groups).len(),
    ensures
        ({
            let (k, j) = locate(groups, i);
            &&& 0 <= k < groups.len()
            &&& 0 <= j < groups[k].len()
            &&& i == offset(groups, k) + j
            &&& decode(groups)[i] == groups[k][j]
        }),
    decreases groups.len(),
{
    if groups.len() > 0 && i >= groups[0].len() {
        let rest = groups.drop_first();
        lemma_locate(rest, i - groups[0].len());
        let (k, j) = locate(rest, i - groups[0].len());
        lemma_offset_drop_first(groups, k + 1);
    }
}

/// What follows the first groups of two runs of the same shape has the same
/// shape again.
pub proof fn lemma_same_shape_rest<S>(a: Seq<Seq<S>>, b: Seq<Seq<S>>)
    requires
        same_shape(a, b),
        a.len() > 0,
    ensures
        same_shape(a.drop_first(), b.drop_first()),
{
    assert forall|k: int| 0 <= k < a.drop_first().len() implies #[trigger] a.drop_first()[k].len()
        == b.drop_first()[k].len() by {
        assert(a[k + 1].len() == b[k + 1].len());
    }
}

/// Runs of groups of the same shape place their lanes alike.
pub proof fn lemma_same_shape<S>(a: Seq<Seq<S>>, b: Seq<Seq<S>>)
    requires
        same_shape(a, b),
    ensures
        decode(a).len() == decode(b).len(),
        forall|i: int| locate(a, i) == locate(b, i),
        forall|k: int| k <= a.len() ==> #[trigger] offset(a, k) == offset(b, k),
    decreases a.len(),
{
    if a.len() > 0 {
        assert(a[0].len() == b[0].len());
        lemma_same_shape_rest(a, b);
        lemma_same_shape(a.drop_first(), b.drop_first());
        assert forall|i: int| locate(a, i) == locate(b, i) by {
            let inner = i - a[0].len();
            assert(locate(a.drop_first(), inner) == locate(b.drop_first(), inner));
        }
    } else {
        assert forall|i: int| locate(a, i) == locate(b, i) by {
        }
    }
    assert forall|k: int| k <= a.len() implies #[trigger] offset(a, k) == offset(b, k) by {
        lemma_same_offset(a, b, k);
    }
}

/// Runs of groups of the same shape have the same offsets.
pub proof fn lemma_same_offset<S>(a: Seq<Seq<S>>, b: Seq<Seq<S>>, k: int)
    requires
        same_shape(a, b),
        k <= a.len(),
    ensures
        offset(a, k) == offset(b, k),
    decreases k,
{
    if k > 0 {
        lemma_same_offset(a, b, k - 1);
        assert(a[k - 1].len() == b[k - 1].len());
    }
}

/// A run of groups of the shape of a canonical one is canonical.
pub proof fn lemma_shape_canonical<S>(a: Seq<Seq<S>>, b: Seq<Seq<S>>)
    requires
        canonical(a),
        same_shape(a, b),
    ensures
        canonical(b),
    decreases a.len(),
{
    if a.len() == 0 {
        assert(decode(b).len() == 0);
        assert(encode(decode(b)) =~= b);
    } else {
        lemma_canonical_step(a);
        lemma_same_shape(a, b);
        assert(a[0].len() == b[0].len());
        lemma_same_shape_rest(a, b);
        lemma_shape_canonical(a.drop_first(), b.drop_first());
        let lanes = decode(b);
        let w = leading_width(lanes.len()) as int;
        assert(lanes == b[0] + decode(b.drop_first()));
        assert(lanes.subrange(0, w) =~= b[0]);
        assert(lanes.subrange(w, lanes.len() as int) =~= decode(b.drop_first()));
        assert(encode(lanes) =~= seq![b[0]] + b.drop_first());
        assert(seq![b[0]] + b.drop_first() =~= b);
    }
}

/// Canonical runs of groups with the same number of lanes have the same shape:
/// a length has one split.
pub proof fn lemma_one_split<S>(a: Seq<Seq<S>>, b: Seq<Seq<S>>)
    requires
        canonical(a),
        canonical(b),
        decode(a).len() == decode(b).len(),
    ensures
        same_shape(a, b),
    decreases a.len(),
{
    if a.len() == 0 {
        assert(decode(a).len() == 0);
        assert(encode(decode(b)).len() == 0);
    } else {
        lemma_canonical_step(a);
        assert(decode(a) == a[0] + decode(a.drop_first()));
        assert(b.len() > 0);
        lemma_canonical_step(b);
        assert(decode(b) == b[0] + decode(b.drop_first()));
        lemma_one_split(a.drop_first(), b.drop_first());
        assert forall|k: int| 0 <= k < a.len() implies #[trigger] a[k].len() == b[k].len() by {
            if k > 0 {
                assert(a.drop_first()[k - 1].len() == b.drop_first()[k - 1].len());
            }
        }
    }
}

/// Whether `w` is the width of a lane group narrower than 64.
pub open spec fn narrow_width(w: int) -> bool {
    w == 1 || w == 2 || w == 4 || w == 8 || w == 16 || w == 32
}

/// Whether one of the groups is `w` lanes wide.
pub open spec fn has_width<S>(groups: Seq<Seq<S>>, w: int) -> bool {
    exists|k: int| 0 <= k < groups.len() && #[trigger] groups[k].len() == w
}

/// No group of a canonical run is wider than the first.
pub proof fn lemma_first_is_widest<S>(groups: Seq<Seq<S>>, k: int)
    requires
        canonical(groups),
        0 <= k < groups.len(),
    ensures
        groups[k].len() <= leading_width(decode(groups).len()),
        groups[k].len() == 64 || narrow_width(groups[k].len() as int),
    decreases k,
{
    lemma_canonical_step(groups);
    assert(decode(groups) == groups[0] + decode(groups.drop_first()));
    if k > 0 {
        lemma_first_is_widest(groups.drop_first(), k - 1);
    }
}

/// Past the 64-wide groups the widths fall strictly: each width below 64
/// occurs at most once.
pub proof fn lemma_narrow_widths_fall<S>(groups: Seq<Seq<S>>, j: int, k: int)
    requires
        canonical(groups),
        0 <= j < k < groups.len(),
        groups[j].len() < 64,
    ensures
        groups[k].len() < groups[j].len(),
    decreases j,
{
    lemma_canonical_step(groups);
    let rest = groups.drop_first();
    assert(decode(groups) == groups[0] + decode(rest));
    if j == 0 {
        lemma_first_is_widest(rest, k - 1);
    } else {
        lemma_narrow_widths_fall(rest, j - 1, k - 1);
    }
}

/// Whether the binary digit of `w` is set in `n`, for `w` one of 32, 16, 8,
/// 4, 2 and 1.
pub open spec fn digit_set(n: int, w: int) -> bool {
    if w == 32 {
        n % 64 >= 32
    } else if w == 16 {
        n % 32 >= 16
    } else if w == 8 {
        n % 16 >= 8
    } else if w == 4 {
        n % 8 >= 4
    } else if w == 2 {
        n % 4 >= 2
    } else {
        n % 2 >= 1
    }
}

/// A run of groups has a group of `w` lanes if its first group is one, or
/// if what follows the first group has one.
proof fn lemma_has_width_step<S>(groups: Seq<Seq<S>>, w: int)
    requires
        groups.len() > 0,
    ensures
        has_width(groups, w) <==> groups[0].len() == w || has_width(groups.drop_first(), w),
{
    let rest = groups.drop_first();
    if has_width(rest, w) {
        let k = choose|k: int| 0 <= k < rest.len() && #[trigger] rest[k].len() == w;
        assert(groups[k + 1].len() == w);
    }
    if has_width(groups, w) && groups[0].len() != w {
        let k = choose|k: int| 0 <= k < groups.len() && #[trigger] groups[k].len() == w;
        assert(rest[k - 1].len() == w);
    }
}

/// A canonical run has no group wider than the leading width of its lanes.
proof fn lemma_no_wider_group<S>(groups: Seq<Seq<S>>, w: int)
    requires
        canonical(groups),
        has_width(groups, w),
    ensures
        w <= leading_width(decode(groups).len()),
{
    let k = choose|k: int| 0 <= k < groups.len() && #[trigger] groups[k].len() == w;
    lemma_first_is_widest(groups, k);
}

/// How the digit of `w` in `n` follows from the first group's width and from
/// the digit of `w` in what is left.
proof fn lemma_digit_step(n: int, first: int, w: int)
    requires
        n > 0,
        first == leading_width(n as nat),
        narrow_width(w),
    ensures
        first == w ==> digit_set(n, w),
        first > w ==> (digit_set(n, w) <==> digit_set(n - first, w)),
        first < w ==> !digit_set(n, w) && n - first < w,
{
    if w == 32 {
        assert(first == 64 ==> (n % 64 == (n - 64) % 64));
    } else if w == 16 {
        assert(first == 64 ==> (n % 32 == (n - 64) % 32));
        assert(first == 32 ==> (n % 32 == (n - 32) % 32));
    } else if w == 8 {
        assert(first == 64 ==> (n % 16 == (n - 64) % 16));
        assert(first == 32 ==> (n % 16 == (n - 32) % 16));
        assert(first == 16 ==> (n % 16 == (n - 16) % 16));
    } else if w == 4 {
        assert(first == 64 ==> (n % 8 == (n - 64) % 8));
        assert(first == 32 ==> (n % 8 == (n - 32) % 8));
        assert(first == 16 ==> (n % 8 == (n - 16) % 8));
        assert(first == 8 ==> (n % 8 == (n - 8) % 8));
    } else if w == 2 {
        assert(first == 64 ==> (n % 4 == (n - 64) % 4));
        assert(first == 32 ==> (n % 4 == (n - 32) % 4));
        assert(first == 16 ==> (n % 4 == (n - 16) % 4));
        assert(first == 8 ==> (n % 4 == (n - 8) % 4));
        assert(first == 4 ==> (n % 4 == (n - 4) % 4));
    } else {
        assert(first == 64 ==> (n % 2 == (n - 64) % 2));
        assert(first == 32 ==> (n % 2 == (n - 32) % 2));
        assert(first == 16 ==> (n % 2 == (n - 16) % 2));
        assert(first == 8 ==> (n % 2 == (n - 8) % 2));
        assert(first == 4 ==> (n % 2 == (n - 4) % 2));
        assert(first == 2 ==> (n % 2 == (n - 2) % 2));
    }
}

/// The narrow groups are the binary digits of the length: a canonical run
/// has a group of `w` lanes, for `w` one of 32, 16, 8, 4, 2 and 1, exactly
/// when the digit of `w` is set in the number of its lanes.
pub proof fn lemma_width_is_digit<S>(groups: Seq<Seq<S>>, w: int)
    requires
        canonical(groups),
        narrow_width(w),
    ensures
        has_width(groups, w) <==> digit_set(decode(groups).len() as int, w),
    decreases groups.len(),
{
    let n = decode(groups).len() as int;
    if groups.len() == 0 {
        assert(n == 0);
        assert(!digit_set(0, w));
    } else {
        lemma_canonical_step(groups);
        let rest = groups.drop_first();
        let first = groups[0].len() as int;
        assert(decode(groups) == groups[0] + decode(rest));
        let m = decode(rest).len() as int;
        assert(n == first + m);
        lemma_width_is_digit(rest, w);
        lemma_has_width_step(groups, w);
        lemma_digit_step(n, first, w);
        if first < w && has_width(rest, w) {
            lemma_no_wider_group(rest, w);
        }
    }
}

/// The lane at position `i` of a run is found in its groups where `locate`
/// says, and a position past the run is in no group.
pub proof fn lemma_indexing<S>(lanes: Seq<S>, i: int)
    requires
        0 <= i,
    ensures
        i < lanes.len() ==> ({
            let (k, j) = locate(encode(lanes), i);
            &&& 0 <= k < encode(lanes).len()
            &&& 0 <= j < encode(lanes)[k].len()
            &&& encode(lanes)[k][j] == lanes[i]
        }),
        i >= lanes.len() ==> i >= offset(encode(lanes), encode(lanes).len() as int),
{
    lemma_round_trip(lanes);
    lemma_offset_total(encode(lanes));
    if i < lanes.len() {
        lemma_locate(encode(lanes), i);
    }
}

} // verus!
