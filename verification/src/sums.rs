//! The sum of the multiples that the methods compute, and what their proofs
//! of correctness share: the group of the curve, the scalars round by
//! round, and the accumulation of rounds.

use crate::algebra::{
    abelian_group, commutative_monoid, dot, doubled_by, lemma_closed, lemma_commute,
    lemma_doubled_is_times, lemma_interchange, lemma_times_add, lemma_times_closed, times,
};
use crate::curve::{group_add, group_neg, on_group, Element, Point};
use crate::scalar::{window, Scalar};
use crate::windows::{doubled, group_doubled, group_op, number_of_rounds};
use vstd::arithmetic::div_mod::{lemma_basic_div, lemma_div_denominator, lemma_fundamental_div_mod};
use vstd::arithmetic::power2::{
    lemma2_to64, lemma_pow2_adds, lemma_pow2_pos, lemma_pow2_strictly_increases, pow2,
};
use vstd::prelude::*;

verus! {

/// The inverse of the group, as a function.
pub open spec fn group_inverse() -> spec_fn(Element) -> Element {
    |a: Element| group_neg(a)
}

/// The elements of the group: the neutral one and the points of the curve.
pub open spec fn group_elements() -> spec_fn(Element) -> bool {
    |a: Element| on_group(a)
}

/// On the points of the curve and `None`, the sum of the curve is the sum
/// of an abelian group with `None` as its neutral element. Nothing is said
/// of the sum of points that are not on the curve.
pub open spec fn curve_is_group() -> bool {
    abelian_group(group_op(), None::<Point>, group_inverse(), group_elements())
}

/// The sum of the curve is that of a commutative monoid on its points.
pub open spec fn curve_is_monoid() -> bool {
    commutative_monoid(group_op(), None::<Point>, group_elements())
}

/// Every point and every scalar is known, the points are on the curve, and
/// the scalars are below `2^255`.
pub open spec fn all_known(points: Seq<Option<Point>>, scalars: Seq<Option<Scalar>>) -> bool {
    &&& points.len() == scalars.len()
    &&& forall|i: int|
        0 <= i < points.len() ==> (#[trigger] points[i]).is_some() && points[i].unwrap().on_curve()
    &&& forall|i: int|
        0 <= i < scalars.len() ==> (#[trigger] scalars[i]).is_some() && scalars[i].unwrap()@
            < pow2(255)
}

/// The values of the scalars.
pub open spec fn values(scalars: Seq<Option<Scalar>>) -> Seq<nat> {
    Seq::new(scalars.len(), |i: int| scalars[i].unwrap()@)
}

/// The windows of round `j`, as numbers.
pub open spec fn limbs_of(scalars: Seq<Option<Scalar>>, w: nat, j: nat) -> Seq<nat> {
    Seq::new(
        scalars.len(),
        |i: int| window(scalars[i].unwrap()@, w, (number_of_rounds(w) - 1 - j) as nat),
    )
}

/// The scalars without the windows after round `j`.
pub open spec fn prefixes(scalars: Seq<Option<Scalar>>, w: nat, j: nat) -> Seq<nat> {
    Seq::new(
        scalars.len(),
        |i: int| scalars[i].unwrap()@ / pow2(w * ((number_of_rounds(w) - 1 - j) as nat)),
    )
}

/// The sum of the multiples: each point as often as its scalar says.
pub open spec fn msm_sum(points: Seq<Option<Point>>, scalars: Seq<Option<Scalar>>) -> Element {
    dot(group_op(), None::<Point>, values(scalars), points, points.len())
}

/// The rounds cover the scalars: `w * rounds >= 255`.
pub proof fn lemma_rounds_cover(w: nat)
    requires
        1 <= w,
    ensures
        w * number_of_rounds(w) >= 255,
        number_of_rounds(w) >= 1,
{
    let q = 254nat / w;
    lemma_fundamental_div_mod(254, w as int);
    assert(w * (q + 1) == w * q + w) by (nonlinear_arith);
}

/// Where a point doubled again and again is known, the point is known, and
/// what comes out is the point doubled in the group.
pub proof fn lemma_doubled_known(p: Option<Point>, n: nat)
    ensures
        doubled(p, n).is_some() ==> p.is_some() && doubled(p, n) == group_doubled(p, n),
    decreases n,
{
    if n > 0 {
        lemma_doubled_known(p, (n - 1) as nat);
    }
}

/// An element of the group doubled again and again is `2^n` copies of it.
pub proof fn lemma_doubled_in_group(p: Option<Point>, n: nat)
    requires
        curve_is_monoid(),
        on_group(p),
    ensures
        doubled(p, n).is_some() ==> p.is_some() && doubled(p, n) == group_doubled(p, n),
        group_doubled(p, n) == times(group_op(), None::<Point>, pow2(n), p),
        on_group(group_doubled(p, n)),
{
    lemma_doubled_known(p, n);
    lemma_group_doubled(p, n);
    lemma_doubled_is_times(group_op(), None::<Point>, group_elements(), p, n);
    lemma_times_closed(group_op(), None::<Point>, group_elements(), pow2(n), p);
}

/// Doubling in the group is doubling with the sum of the group.
pub proof fn lemma_group_doubled(e: Element, n: nat)
    ensures
        group_doubled(e, n) == doubled_by(group_op(), e, n),
    decreases n,
{
    if n > 0 {
        lemma_group_doubled(e, (n - 1) as nat);
    }
}

/// What is added in each round, accumulated over `r` rounds: between rounds
/// the accumulated is doubled `w` times.
pub open spec fn horner(per: Element, w: nat, r: nat) -> Element
    decreases r,
{
    if r == 0 {
        None
    } else {
        group_add(group_doubled(horner(per, w, (r - 1) as nat), w), per)
    }
}

/// What is accumulated from an element of the group is one.
pub proof fn lemma_horner_closed(per: Element, w: nat, r: nat)
    requires
        curve_is_monoid(),
        on_group(per),
    ensures
        on_group(horner(per, w, r)),
    decreases r,
{
    if r > 0 {
        lemma_horner_closed(per, w, (r - 1) as nat);
        lemma_doubled_in_group(horner(per, w, (r - 1) as nat), w);
        lemma_closed(
            group_op(),
            None::<Point>,
            group_elements(),
            group_doubled(horner(per, w, (r - 1) as nat), w),
            per,
        );
    }
}

/// One round of the accumulation: what a round adds, on top of `2^w` copies
/// of what was accumulated, splits into what is added in each round and the
/// multiples of the points.
pub proof fn lemma_round_step(
    per: Element,
    now: Element,
    blind: Element,
    before: Element,
    w: nat,
)
    requires
        curve_is_monoid(),
        on_group(per),
        on_group(now),
        on_group(blind),
        on_group(before),
    ensures
        group_op()(
            group_op()(per, now),
            times(group_op(), None::<Point>, pow2(w), group_op()(blind, before)),
        ) == group_op()(
            group_add(group_doubled(blind, w), per),
            group_op()(times(group_op(), None::<Point>, pow2(w), before), now),
        ),
{
    let op = group_op();
    let zero = None::<Point>;
    let s = group_elements();
    let size = pow2(w);
    lemma_times_add(op, zero, s, size, blind, before);
    let big_blind = times(op, zero, size, blind);
    let big_before = times(op, zero, size, before);
    lemma_times_closed(op, zero, s, size, blind);
    lemma_times_closed(op, zero, s, size, before);
    lemma_interchange(op, zero, s, per, now, big_blind, big_before);
    lemma_commute(op, zero, s, per, big_blind);
    lemma_commute(op, zero, s, now, big_before);
    lemma_doubled_in_group(blind, w);
    assert(group_add(big_blind, per) == op(big_blind, per));
}

/// The first window of a scalar is the scalar without the later windows.
pub proof fn lemma_first_prefix(scalars: Seq<Option<Scalar>>, w: nat, i: int)
    requires
        1 <= w,
        0 <= i < scalars.len(),
        scalars[i].is_some(),
        scalars[i].unwrap()@ < pow2(255),
    ensures
        limbs_of(scalars, w, 0)[i] == prefixes(scalars, w, 0)[i],
{
    let rounds = number_of_rounds(w);
    lemma_rounds_cover(w);
    let x = scalars[i].unwrap()@;
    let e = (rounds - 1) as nat;
    lemma_pow2_pos(w * e);
    lemma_pow2_pos(w);
    lemma_pow2_adds(w * e, w);
    assert(w * e + w == w * rounds) by (nonlinear_arith)
        requires
            e == rounds - 1,
    ;
    if w * rounds > 255 {
        lemma_pow2_strictly_increases(255, w * rounds);
    }
    let c = pow2(w * e) as int;
    let d = pow2(w) as int;
    let y = (x as int) / c;
    assert(pow2(w * rounds) == c * d);
    lemma_div_denominator(x as int, c, d);
    lemma_basic_div(x as int, c * d);
    assert(y / d == 0);
    lemma_fundamental_div_mod(y, d);
    assert(y % d == y);
    assert(limbs_of(scalars, w, 0)[i] == window(x, w, e));
    assert(prefixes(scalars, w, 0)[i] == x / pow2(w * e));
}

/// A scalar without the windows after round `j` is `2^w` times the scalar
/// without the windows after the round before, and the window of round `j`.
pub proof fn lemma_next_prefix(scalars: Seq<Option<Scalar>>, w: nat, j: nat, i: int)
    requires
        1 <= w,
        1 <= j < number_of_rounds(w),
        0 <= i < scalars.len(),
    ensures
        prefixes(scalars, w, j)[i] == pow2(w) * prefixes(scalars, w, (j - 1) as nat)[i]
            + limbs_of(scalars, w, j)[i],
{
    let rounds = number_of_rounds(w);
    let x = scalars[i].unwrap()@;
    let e = (rounds - 1 - j) as nat;
    let k = (j - 1) as nat;
    lemma_pow2_pos(w * e);
    lemma_pow2_pos(w);
    lemma_pow2_adds(w * e, w);
    assert(w * e + w == w * ((rounds - 1 - k) as nat)) by (nonlinear_arith)
        requires
            e == rounds - 1 - j,
            k == j - 1,
            j < rounds,
    ;
    lemma_div_denominator(x as int, pow2(w * e) as int, pow2(w) as int);
    lemma_fundamental_div_mod((x / pow2(w * e)) as int, pow2(w) as int);
}

/// Without the windows after the last round a scalar is whole.
pub proof fn lemma_last_prefix(scalars: Seq<Option<Scalar>>, w: nat, i: int)
    requires
        1 <= w,
        0 <= i < scalars.len(),
    ensures
        prefixes(scalars, w, (number_of_rounds(w) - 1) as nat)[i] == values(scalars)[i],
{
    lemma2_to64();
    assert(w * 0 == 0);
}

} // verus!
