//! The bucket method computes the sum of the multiples: where its result is
//! known, it is the sum of the points, each as often as its scalar says, in
//! a group whose sum is commutative and associative and has inverses.

use super::msm::{
    accumulated, accumulator, blinding_sums, bucket_msm, correction, fresh, initial_bucket,
    is_bucket, lemma_aggregated_in_group, round_value,
};
use crate::algebra::{
    all_in, dot, lemma_aggregate_ext, lemma_aggregate_is_weighted_sum, lemma_associate,
    lemma_cancel, lemma_closed, lemma_dot_closed, lemma_dot_combine, lemma_dot_ext,
    lemma_group_is_monoid, lemma_sums_from_zero_weighted, lemma_times_closed, lemma_times_zero,
    lemma_weighted_closed, lemma_weighted_update, lemma_zero_left, lemma_zero_right,
    sums_from_zero, times, weighted_sum,
};
use crate::curve::{group_add, on_group, Element, Point};
use crate::sums::{
    all_known, curve_is_group, curve_is_monoid, group_elements, group_inverse, horner,
    lemma_doubled_in_group, lemma_doubled_known, lemma_first_prefix, lemma_horner_closed,
    lemma_last_prefix, lemma_next_prefix, lemma_round_step, lemma_rounds_cover, limbs_of, msm_sum,
    prefixes, values,
};
use crate::scalar::{lemma_window_bound, window, Scalar};
use crate::windows::{column, doubled, group_doubled, group_op, number_of_rounds, word};
use vstd::arithmetic::power2::{lemma2_to64, lemma_pow2_strictly_increases, pow2};
use vstd::prelude::*;

verus! {

/// The buckets after the first `i` points of a round, in the group.
pub open spec fn group_accumulated(
    buckets: Seq<Element>,
    points: Seq<Element>,
    limbs: Seq<nat>,
    i: nat,
) -> Seq<Element>
    decreases i,
{
    if i == 0 {
        buckets
    } else {
        let before = group_accumulated(buckets, points, limbs, (i - 1) as nat);
        before.update(
            limbs[i - 1] as int,
            group_add(before[limbs[i - 1] as int], points[i - 1]),
        )
    }
}

/// The length of the buckets stays.
pub proof fn lemma_group_accumulated_len(
    buckets: Seq<Element>,
    points: Seq<Element>,
    limbs: Seq<nat>,
    i: nat,
)
    requires
        forall|k: int| 0 <= k < i ==> #[trigger] limbs[k] < buckets.len(),
    ensures
        group_accumulated(buckets, points, limbs, i).len() == buckets.len(),
    decreases i,
{
    if i > 0 {
        lemma_group_accumulated_len(buckets, points, limbs, (i - 1) as nat);
        assert(limbs[i - 1] < buckets.len());
    }
}

/// The initial buckets are elements of the group.
pub proof fn lemma_fresh_in_group(aux: Point, m: nat)
    requires
        curve_is_monoid(),
        aux.on_curve(),
    ensures
        all_in(fresh(aux, m), group_elements()),
{
    assert forall|k: int| 0 <= k < m implies group_elements()(#[trigger] fresh(aux, m)[k]) by {
        lemma_initial_is_doubled(aux, k as nat);
        lemma_doubled_in_group(Some(aux), k as nat);
    }
}

/// An initial bucket is the auxiliary generator doubled.
pub proof fn lemma_initial_is_doubled(aux: Point, k: nat)
    ensures
        initial_bucket(aux, k) == doubled(Some(aux), k),
    decreases k,
{
    if k > 0 {
        lemma_initial_is_doubled(aux, (k - 1) as nat);
    }
}

/// Buckets of the group, with points of the group added, are buckets of the
/// group.
pub proof fn lemma_accumulated_closed(
    buckets: Seq<Element>,
    points: Seq<Element>,
    limbs: Seq<nat>,
    i: nat,
)
    requires
        curve_is_monoid(),
        all_in(buckets, group_elements()),
        all_in(points, group_elements()),
        i <= points.len(),
        forall|k: int| 0 <= k < i ==> #[trigger] limbs[k] < buckets.len(),
    ensures
        all_in(group_accumulated(buckets, points, limbs, i), group_elements()),
    decreases i,
{
    if i > 0 {
        let j = (i - 1) as nat;
        let before = group_accumulated(buckets, points, limbs, j);
        lemma_accumulated_closed(buckets, points, limbs, j);
        lemma_group_accumulated_len(buckets, points, limbs, j);
        assert(limbs[j as int] < buckets.len());
        assert(group_elements()(before[limbs[j as int] as int]));
        assert(group_elements()(points[j as int]));
        lemma_closed(
            group_op(),
            None::<Point>,
            group_elements(),
            before[limbs[j as int] as int],
            points[j as int],
        );
    }
}

/// The weighted sum of the buckets grows with each point by the point, as
/// often as its window says.
pub proof fn lemma_accumulated_weight(
    buckets: Seq<Element>,
    points: Seq<Element>,
    limbs: Seq<nat>,
    i: nat,
)
    requires
        curve_is_monoid(),
        all_in(buckets, group_elements()),
        all_in(points, group_elements()),
        i <= points.len(),
        forall|k: int| 0 <= k < i ==> #[trigger] limbs[k] < buckets.len(),
    ensures
        weighted_sum(
            group_op(),
            None::<Point>,
            group_accumulated(buckets, points, limbs, i),
            0,
        ) == group_op()(
            weighted_sum(group_op(), None::<Point>, buckets, 0),
            dot(group_op(), None::<Point>, limbs, points, i),
        ),
    decreases i,
{
    let op = group_op();
    let zero = None::<Point>;
    let g = group_elements();
    lemma_weighted_closed(op, zero, g, buckets, 0);
    if i == 0 {
        lemma_zero_right(op, zero, g, weighted_sum(op, zero, buckets, 0));
    } else {
        let j = (i - 1) as nat;
        let before = group_accumulated(buckets, points, limbs, j);
        lemma_accumulated_weight(buckets, points, limbs, j);
        lemma_group_accumulated_len(buckets, points, limbs, j);
        lemma_accumulated_closed(buckets, points, limbs, j);
        assert(limbs[j as int] < buckets.len());
        assert(g(points[j as int]));
        lemma_weighted_update(op, zero, g, before, limbs[j as int], points[j as int], 0);
        let w0 = weighted_sum(op, zero, buckets, 0);
        let d = dot(op, zero, limbs, points, j);
        let t = times(op, zero, limbs[j as int], points[j as int]);
        lemma_dot_closed(op, zero, g, limbs, points, j);
        lemma_times_closed(op, zero, g, limbs[j as int], points[j as int]);
        assert(op(before[limbs[j as int] as int], points[j as int]) == group_add(
            before[limbs[j as int] as int],
            points[j as int],
        ));
        lemma_associate(op, zero, g, w0, d, t);
    }
}

/// Where a bucket is known after the first `i` points of a round, it is the
/// bucket in the group.
pub proof fn lemma_accumulated_in_group(
    buckets: Seq<Option<Point>>,
    points: Seq<Option<Point>>,
    scalars: Seq<Option<Scalar>>,
    w: nat,
    j: nat,
    i: nat,
)
    requires
        all_known(points, scalars),
        1 <= w < 64,
        j < number_of_rounds(w),
        buckets.len() == pow2(w),
        i <= points.len(),
    ensures
        accumulated(buckets, points, column(scalars, w, j as int), i).len() == buckets.len(),
        group_accumulated(buckets, points, limbs_of(scalars, w, j), i).len() == buckets.len(),
        forall|k: int|
            0 <= k < buckets.len() ==> ((#[trigger] accumulated(
                buckets,
                points,
                column(scalars, w, j as int),
                i,
            )[k]) matches Some(r) ==> group_accumulated(
                buckets,
                points,
                limbs_of(scalars, w, j),
                i,
            )[k] == Some(r)),
    decreases i,
{
    assert forall|k: int| 0 <= k < i implies #[trigger] limbs_of(scalars, w, j)[k]
        < buckets.len() by {
        lemma_window_bound(scalars[k].unwrap()@, w, (number_of_rounds(w) - 1 - j) as nat);
    }
    lemma_group_accumulated_len(buckets, points, limbs_of(scalars, w, j), i);
    if i > 0 {
        let n = (i - 1) as nat;
        lemma_accumulated_in_group(buckets, points, scalars, w, j, n);
        let col = column(scalars, w, j as int);
        let limbs = limbs_of(scalars, w, j);
        let s = scalars[n as int].unwrap();
        let limb = window(s@, w, (number_of_rounds(w) - 1 - j) as nat);
        lemma_window_bound(s@, w, (number_of_rounds(w) - 1 - j) as nat);
        lemma_pow2_strictly_increases(w, 64);
        lemma2_to64();
        assert(col[n as int] == Some(word(limb)));
        assert(limbs[n as int] == limb);
        assert(is_bucket(word(limb), buckets.len()));
        assert(word(limb).l0 == limb);
        let before = accumulated(buckets, points, col, n);
        let group_before = group_accumulated(buckets, points, limbs, n);
        assert forall|k: int| 0 <= k < buckets.len() implies ((#[trigger] accumulated(
            buckets,
            points,
            col,
            i,
        )[k]) matches Some(r) ==> group_accumulated(buckets, points, limbs, i)[k] == Some(
            r,
        )) by {
            if k == limb {
                if before[k].is_some() {
                    assert(group_before[k] == before[k]);
                }
            } else {
                assert(accumulated(buckets, points, col, i)[k] == before[k]);
            }
        }
    }
}

/// The sums of the initial buckets that the correction is made of are the
/// sums that begin with zero.
pub proof fn lemma_blinding_sums(aux: Point, m: nat, k: nat)
    ensures
        blinding_sums(aux, m, k) == sums_from_zero(group_op(), None::<Point>, fresh(aux, m), k),
    decreases m - k,
{
    if k < m {
        lemma_blinding_sums(aux, m, k + 1);
        assert(fresh(aux, m)[k as int] == initial_bucket(aux, k));
    }
}

/// What the initial buckets contribute to a round: their weighted sum.
pub open spec fn per_round(aux: Point, w: nat) -> Element {
    weighted_sum(group_op(), None::<Point>, fresh(aux, pow2(w)), 0)
}

/// Where the contribution of a round is known, it is what the initial
/// buckets contribute and the points, each as often as its window says.
pub proof fn lemma_round_value(
    aux: Point,
    w: nat,
    points: Seq<Option<Point>>,
    scalars: Seq<Option<Scalar>>,
    j: nat,
)
    requires
        curve_is_monoid(),
        all_known(points, scalars),
        aux.on_curve(),
        1 <= w < 64,
        j < number_of_rounds(w),
        round_value(aux, w, points, scalars, j as int).is_some(),
    ensures
        round_value(aux, w, points, scalars, j as int) == group_op()(
            per_round(aux, w),
            dot(group_op(), None::<Point>, limbs_of(scalars, w, j), points, points.len()),
        ),
        on_group(per_round(aux, w)),
        on_group(dot(group_op(), None::<Point>, limbs_of(scalars, w, j), points, points.len())),
        all_in(points, group_elements()),
{
    let op = group_op();
    let zero = None::<Point>;
    let m = pow2(w);
    let n = points.len();
    let start = fresh(aux, m);
    let b = accumulated(start, points, column(scalars, w, j as int), n);
    let limbs = limbs_of(scalars, w, j);
    let gb = group_accumulated(start, points, limbs, n);
    lemma_pow2_strictly_increases(0, w);
    lemma2_to64();
    lemma_accumulated_in_group(start, points, scalars, w, j, n);
    lemma_aggregated_in_group(b, 1);
    assert forall|k: int| 1 <= k < b.len() implies b[k] == gb[k] by {
        assert(b[k].is_some());
    }
    lemma_aggregate_ext(op, b, gb, 1);
    let g = group_elements();
    lemma_fresh_in_group(aux, m);
    assert forall|k: int| 0 <= k < n implies g(#[trigger] points[k]) by {
        assert(points[k].unwrap().on_curve());
    }
    assert forall|k: int| 0 <= k < n implies #[trigger] limbs[k] < start.len() by {
        lemma_window_bound(
            scalars[k].unwrap()@,
            w,
            (number_of_rounds(w) - 1 - j) as nat,
        );
    }
    lemma_accumulated_closed(start, points, limbs, n);
    lemma_aggregate_is_weighted_sum(op, zero, g, gb);
    lemma_accumulated_weight(start, points, limbs, n);
    lemma_weighted_closed(op, zero, g, start, 0);
    lemma_dot_closed(op, zero, g, limbs, points, n);
}

/// Where the accumulator after round `j` is known, it is what the initial
/// buckets contribute in the rounds so far and the points, each as
/// often as its scalar without the later windows says.
pub proof fn lemma_accumulator(
    aux: Point,
    w: nat,
    points: Seq<Option<Point>>,
    scalars: Seq<Option<Scalar>>,
    j: nat,
)
    requires
        curve_is_monoid(),
        all_known(points, scalars),
        aux.on_curve(),
        1 <= w < 64,
        j < number_of_rounds(w),
        accumulator(aux, w, points, scalars, j as int).is_some(),
    ensures
        accumulator(aux, w, points, scalars, j as int) == group_op()(
            horner(per_round(aux, w), w, j + 1),
            dot(group_op(), None::<Point>, prefixes(scalars, w, j), points, points.len()),
        ),
        on_group(accumulator(aux, w, points, scalars, j as int)),
    decreases j,
{
    let op = group_op();
    let zero = None::<Point>;
    let g = group_elements();
    let n = points.len();
    let per = per_round(aux, w);
    let limbs = limbs_of(scalars, w, j);
    let now = prefixes(scalars, w, j);
    let s_now = dot(op, zero, limbs, points, n);
    lemma_rounds_cover(w);
    if j == 0 {
        lemma_round_value(aux, w, points, scalars, 0);
        assert forall|i: int| 0 <= i < n implies limbs[i] == now[i] && points[i] == points[i] by {
            lemma_first_prefix(scalars, w, i);
        }
        lemma_dot_ext(op, zero, limbs, now, points, points, n);
        // no round before: one round contributes
        lemma_doubled_in_group(zero, w);
        lemma_times_zero(op, zero, g, pow2(w));
        assert(horner(per, w, 0) == zero);
        assert(horner(per, w, 1) == group_add(group_doubled(zero, w), per));
        lemma_zero_left(op, zero, g, per);
        assert(group_add(zero, per) == op(zero, per));
        lemma_closed(op, zero, g, per, s_now);
    } else {
        let k = (j - 1) as nat;
        let earlier = accumulator(aux, w, points, scalars, k as int);
        let shifted = doubled(earlier, w);
        let round = round_value(aux, w, points, scalars, j as int);
        assert(round.is_some() && shifted.is_some());
        lemma_doubled_known(earlier, w);
        lemma_accumulator(aux, w, points, scalars, k);
        lemma_doubled_in_group(earlier, w);
        lemma_round_value(aux, w, points, scalars, j);
        let before = prefixes(scalars, w, k);
        let blind = horner(per, w, j);
        let m_before = dot(op, zero, before, points, n);
        lemma_horner_closed(per, w, j);
        lemma_dot_closed(op, zero, g, before, points, n);
        // the accumulator is the sum in the group
        let acc = accumulator(aux, w, points, scalars, j as int);
        assert(acc == group_add(round, shifted));
        assert(group_add(round, shifted) == op(round, shifted));
        assert(shifted == times(op, zero, pow2(w), op(blind, m_before)));
        lemma_round_step(per, s_now, blind, m_before, w);
        assert(horner(per, w, j + 1) == group_add(group_doubled(blind, w), per));
        assert forall|i: int| 0 <= i < n implies #[trigger] now[i] == pow2(w) * before[i]
            + limbs[i] by {
            lemma_next_prefix(scalars, w, j, i);
        }
        lemma_dot_combine(op, zero, g, pow2(w), before, limbs, now, points, n);
        lemma_horner_closed(per, w, j + 1);
        lemma_dot_closed(op, zero, g, now, points, n);
        lemma_closed(op, zero, g, horner(per, w, j + 1), dot(op, zero, now, points, n));
    }
}

/// The bucket method is correct: where every point and every scalar is
/// known and the result is known, the result is the sum of the points, each
/// as often as its scalar says, in a group whose sum is that of the curve.
pub proof fn lemma_bucket_msm_correct(
    aux: Point,
    w: nat,
    points: Seq<Option<Point>>,
    scalars: Seq<Option<Scalar>>,
)
    requires
        curve_is_group(),
        all_known(points, scalars),
        aux.on_curve(),
        1 <= w < 64,
        bucket_msm(aux, w, points, scalars).is_some(),
    ensures
        bucket_msm(aux, w, points, scalars) == msm_sum(points, scalars),
{
    let op = group_op();
    let zero = None::<Point>;
    let n = points.len();
    let last = (number_of_rounds(w) - 1) as nat;
    let g = group_elements();
    lemma_group_is_monoid(op, zero, group_inverse(), g);
    lemma_rounds_cover(w);
    let acc = accumulator(aux, w, points, scalars, last as int);
    assert(acc.is_some() && correction(aux, w).is_some());
    lemma_accumulator(aux, w, points, scalars, last);
    // the correction is the inverse of what the initial buckets contribute
    let m = pow2(w);
    lemma_blinding_sums(aux, m, 1);
    lemma_fresh_in_group(aux, m);
    lemma_sums_from_zero_weighted(op, zero, g, fresh(aux, m));
    lemma_weighted_closed(op, zero, g, fresh(aux, m), 0);
    lemma_horner_closed(per_round(aux, w), w, last + 1);
    let blind = horner(per_round(aux, w), w, last + 1);
    assert(correction(aux, w) == group_inverse()(blind));
    // the last prefixes are the scalars
    lemma2_to64();
    assert(w * 0 == 0);
    assert forall|i: int| 0 <= i < n implies prefixes(scalars, w, last)[i] == values(
        scalars,
    )[i] && points[i] == points[i] by {
        lemma_last_prefix(scalars, w, i);
    }
    assert forall|i: int| 0 <= i < n implies g(#[trigger] points[i]) by {
        assert(points[i].unwrap().on_curve());
    }
    lemma_dot_closed(op, zero, g, values(scalars), points, n);
    lemma_dot_ext(op, zero, prefixes(scalars, w, last), values(scalars), points, points, n);
    let sum = dot(op, zero, values(scalars), points, n);
    lemma_cancel(op, zero, group_inverse(), g, blind, sum);
    assert(bucket_msm(aux, w, points, scalars) == group_add(acc, correction(aux, w)));
    assert(group_add(acc, correction(aux, w)) == op(acc, group_inverse()(blind)));
}

} // verus!
