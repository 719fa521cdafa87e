//! The methods that look the windows up in a table, and why they compute
//! the sum of the multiples: each lookup finds an auxiliary point with the
//! point as often as the window says, and the auxiliary points add up to
//! what the correction takes away.

use crate::algebra::{
    all_in, dot, lemma_associate, lemma_closed, lemma_commute, lemma_dot_closed,
    lemma_dot_combine, lemma_dot_ext, lemma_interchange, lemma_times_closed, lemma_times_mul,
    lemma_times_zero, lemma_zero_left, lemma_zero_right, times,
};
use crate::curve::{group_add, on_group, Element, Point};
use crate::gate::incomplete_add;
use crate::scalar::Scalar;
use crate::sums::{
    curve_is_monoid, group_elements, horner, lemma_doubled_in_group, lemma_doubled_known,
    lemma_first_prefix, lemma_horner_closed, lemma_next_prefix, lemma_round_step, limbs_of,
    prefixes,
};
use crate::windows::{doubled, group_doubled, group_op, number_of_rounds, window_ones};
use vstd::arithmetic::power2::{lemma2_to64, lemma_pow2_adds, pow2};
use vstd::prelude::*;

verus! {

/// The accumulator after the lookups of the first `i` scalars in round `j`,
/// where `found(i, j)` is what the lookup of the `i`-th scalar in round `j`
/// finds.
pub open spec fn looked_up(
    found: spec_fn(nat, nat) -> Option<Point>,
    w: nat,
    n: nat,
    j: nat,
    i: nat,
) -> Option<Point>
    decreases j, i,
{
    if i == 0 {
        if j == 0 {
            None
        } else {
            doubled(looked_up(found, w, n, (j - 1) as nat, n), w)
        }
    } else {
        let point = found((i - 1) as nat, j);
        if j == 0 && i == 1 {
            point
        } else {
            incomplete_add(point, looked_up(found, w, n, j, (i - 1) as nat))
        }
    }
}

/// The sum of the first `n` terms.
pub open spec fn sum_of(terms: Seq<Element>, n: nat) -> Element
    decreases n,
{
    if n == 0 {
        None
    } else {
        group_add(sum_of(terms, (n - 1) as nat), terms[n - 1])
    }
}

/// Where a lookup finds a point, it is the auxiliary point of the scalar
/// with the point of the scalar, as often as the window says.
pub open spec fn finds_multiples(
    found: spec_fn(nat, nat) -> Option<Point>,
    auxs: Seq<Element>,
    points: Seq<Element>,
    scalars: Seq<Option<Scalar>>,
    w: nat,
) -> bool {
    forall|i: nat, j: nat|
        i < points.len() && j < number_of_rounds(w) && (#[trigger] found(i, j)).is_some()
            ==> found(i, j) == group_op()(
            auxs[i as int],
            times(group_op(), None::<Point>, limbs_of(scalars, w, j)[i as int], points[i as int]),
        )
}

/// The sum of elements of the group is one.
pub proof fn lemma_sum_closed(terms: Seq<Element>, n: nat)
    requires
        curve_is_monoid(),
        all_in(terms, group_elements()),
        n <= terms.len(),
    ensures
        on_group(sum_of(terms, n)),
    decreases n,
{
    if n > 0 {
        lemma_sum_closed(terms, (n - 1) as nat);
        assert(group_elements()(terms[n - 1]));
        lemma_closed(
            group_op(),
            None::<Point>,
            group_elements(),
            sum_of(terms, (n - 1) as nat),
            terms[n - 1],
        );
    }
}

/// Within a round: the accumulator is the auxiliary points and the
/// multiples of the points so far, on top of what the round began with.
pub proof fn lemma_looked_up_round(
    found: spec_fn(nat, nat) -> Option<Point>,
    auxs: Seq<Element>,
    points: Seq<Element>,
    scalars: Seq<Option<Scalar>>,
    w: nat,
    j: nat,
    i: nat,
)
    requires
        curve_is_monoid(),
        all_in(auxs, group_elements()),
        all_in(points, group_elements()),
        auxs.len() == points.len(),
        finds_multiples(found, auxs, points, scalars, w),
        j < number_of_rounds(w),
        1 <= i <= points.len(),
        on_group(looked_up(found, w, points.len(), j, 0)),
        looked_up(found, w, points.len(), j, i).is_some(),
    ensures
        looked_up(found, w, points.len(), j, i) == group_op()(
            group_op()(
                sum_of(auxs, i),
                dot(group_op(), None::<Point>, limbs_of(scalars, w, j), points, i),
            ),
            looked_up(found, w, points.len(), j, 0),
        ),
    decreases i,
{
    let op = group_op();
    let zero = None::<Point>;
    let g = group_elements();
    let n = points.len();
    let limbs = limbs_of(scalars, w, j);
    let k = (i - 1) as nat;
    let base = looked_up(found, w, n, j, 0);
    let a = auxs[k as int];
    let t = times(op, zero, limbs[k as int], points[k as int]);
    let f = found(k, j);
    let s = sum_of(auxs, k);
    let d = dot(op, zero, limbs, points, k);
    assert(g(a) && g(points[k as int]) && g(base));
    lemma_times_closed(op, zero, g, limbs[k as int], points[k as int]);
    lemma_sum_closed(auxs, k);
    lemma_dot_closed(op, zero, g, limbs, points, k);
    assert(g(s));
    lemma_closed(op, zero, g, a, t);
    lemma_closed(op, zero, g, s, d);
    assert(f.is_some());
    assert(f == op(a, t));
    assert(sum_of(auxs, i) == op(s, a));
    assert(dot(op, zero, limbs, points, i) == op(d, t));
    if i == 1 {
        lemma_zero_left(op, zero, g, a);
        lemma_zero_left(op, zero, g, t);
        if j == 0 {
            lemma_zero_right(op, zero, g, op(a, t));
        } else {
            assert(looked_up(found, w, n, j, i) == group_add(f, base));
        }
    } else {
        let earlier = looked_up(found, w, n, j, k);
        assert(looked_up(found, w, n, j, i) == group_add(f, earlier));
        lemma_looked_up_round(found, auxs, points, scalars, w, j, k);
        // (a + t) + ((s + d) + base) = ((s + a) + (d + t)) + base
        lemma_associate(op, zero, g, op(a, t), op(s, d), base);
        lemma_interchange(op, zero, g, a, t, s, d);
        lemma_commute(op, zero, g, a, s);
        lemma_commute(op, zero, g, t, d);
    }
}

/// After a round: the accumulator is what the auxiliary points add in each
/// round so far and the points, each as often as its scalar without the
/// later windows says.
pub proof fn lemma_looked_up(
    found: spec_fn(nat, nat) -> Option<Point>,
    auxs: Seq<Element>,
    points: Seq<Element>,
    scalars: Seq<Option<Scalar>>,
    w: nat,
    j: nat,
)
    requires
        curve_is_monoid(),
        all_in(auxs, group_elements()),
        all_in(points, group_elements()),
        auxs.len() == points.len(),
        finds_multiples(found, auxs, points, scalars, w),
        1 <= w,
        j < number_of_rounds(w),
        points.len() == scalars.len(),
        points.len() >= 1,
        forall|i: int|
            0 <= i < scalars.len() ==> (#[trigger] scalars[i]).is_some() && scalars[i].unwrap()@
                < pow2(255),
        looked_up(found, w, points.len(), j, points.len()).is_some(),
    ensures
        looked_up(found, w, points.len(), j, points.len()) == group_op()(
            horner(sum_of(auxs, points.len()), w, j + 1),
            dot(group_op(), None::<Point>, prefixes(scalars, w, j), points, points.len()),
        ),
        on_group(looked_up(found, w, points.len(), j, points.len())),
    decreases j,
{
    let op = group_op();
    let zero = None::<Point>;
    let g = group_elements();
    let n = points.len();
    let per = sum_of(auxs, n);
    let limbs = limbs_of(scalars, w, j);
    let now = prefixes(scalars, w, j);
    let s_now = dot(op, zero, limbs, points, n);
    lemma_sum_closed(auxs, n);
    lemma_dot_closed(op, zero, g, limbs, points, n);
    lemma_dot_closed(op, zero, g, now, points, n);
    lemma_horner_closed(per, w, j + 1);
    lemma_closed(op, zero, g, horner(per, w, j + 1), dot(op, zero, now, points, n));
    lemma_closed(op, zero, g, per, s_now);
    if j == 0 {
        lemma_looked_up_round(found, auxs, points, scalars, w, j, n);
        lemma_zero_right(op, zero, g, op(per, s_now));
        assert forall|i: int| 0 <= i < n implies limbs[i] == now[i] && points[i] == points[i] by {
            lemma_first_prefix(scalars, w, i);
        }
        lemma_dot_ext(op, zero, limbs, now, points, points, n);
        lemma_doubled_in_group(zero, w);
        lemma_times_zero(op, zero, g, pow2(w));
        assert(horner(per, w, 0) == zero);
        assert(horner(per, w, 1) == group_add(group_doubled(zero, w), per));
        lemma_zero_left(op, zero, g, per);
        assert(group_add(zero, per) == op(zero, per));
    } else {
        let k = (j - 1) as nat;
        let earlier = looked_up(found, w, n, k, n);
        let base = looked_up(found, w, n, j, 0);
        assert(base == doubled(earlier, w));
        assert(base.is_some()) by {
            if n == 1 {
                assert(looked_up(found, w, n, j, 1) == incomplete_add(found(0, j), base));
            } else {
                lemma_base_known(found, w, n, j, n);
            }
        }
        lemma_doubled_known(earlier, w);
        lemma_looked_up(found, auxs, points, scalars, w, k);
        lemma_doubled_in_group(earlier, w);
        lemma_looked_up_round(found, auxs, points, scalars, w, j, n);
        lemma_associate(op, zero, g, per, s_now, base);
        let before = prefixes(scalars, w, k);
        let blind = horner(per, w, j);
        let m_before = dot(op, zero, before, points, n);
        lemma_horner_closed(per, w, j);
        lemma_dot_closed(op, zero, g, before, points, n);
        lemma_round_step(per, s_now, blind, m_before, w);
        assert forall|i: int| 0 <= i < n implies #[trigger] now[i] == pow2(w) * before[i]
            + limbs[i] by {
            lemma_next_prefix(scalars, w, j, i);
        }
        lemma_dot_combine(op, zero, g, pow2(w), before, limbs, now, points, n);
    }
}

/// Where the accumulator is known within a round, it was known when the
/// round began.
pub proof fn lemma_base_known(
    found: spec_fn(nat, nat) -> Option<Point>,
    w: nat,
    n: nat,
    j: nat,
    i: nat,
)
    requires
        j >= 1,
        looked_up(found, w, n, j, i).is_some(),
    ensures
        looked_up(found, w, n, j, 0).is_some(),
    decreases i,
{
    if i > 0 {
        lemma_base_known(found, w, n, j, (i - 1) as nat);
    }
}

/// Where the accumulator is known, every lookup of its round so far found a
/// point.
pub proof fn lemma_all_found(
    found: spec_fn(nat, nat) -> Option<Point>,
    w: nat,
    n: nat,
    j: nat,
    i: nat,
)
    requires
        looked_up(found, w, n, j, i).is_some(),
    ensures
        forall|k: nat| k < i ==> (#[trigger] found(k, j)).is_some(),
    decreases i,
{
    if i > 1 || (i == 1 && j > 0) {
        lemma_all_found(found, w, n, j, (i - 1) as nat);
    }
}

/// What is added in each round, accumulated over `r` rounds, is what is
/// added as often as the weights of the rounds say: `2^(w * k)` for the
/// `k`-th round from the last.
pub proof fn lemma_horner_is_times(per: Element, w: nat, r: nat)
    requires
        curve_is_monoid(),
        on_group(per),
    ensures
        horner(per, w, r) == times(group_op(), None::<Point>, window_ones(w, r), per),
    decreases r,
{
    let op = group_op();
    let zero = None::<Point>;
    if r > 0 {
        let k = (r - 1) as nat;
        lemma_horner_is_times(per, w, k);
        lemma_horner_closed(per, w, k);
        lemma_doubled_in_group(horner(per, w, k), w);
        lemma_times_mul(op, zero, group_elements(), pow2(w), window_ones(w, k), per);
        lemma_ones_horner(w, k);
        assert(group_add(group_doubled(horner(per, w, k), w), per) == op(
            group_doubled(horner(per, w, k), w),
            per,
        ));
    }
}

/// The weights of the rounds, one round more: `2^w` times the weights and
/// one.
pub proof fn lemma_ones_horner(w: nat, r: nat)
    ensures
        pow2(w) * window_ones(w, r) + 1 == window_ones(w, r + 1),
    decreases r,
{
    lemma2_to64();
    if r == 0 {
        assert(w * 0 == 0);
        assert(window_ones(w, 1) == window_ones(w, 0) + pow2(w * 0));
    } else {
        let k = (r - 1) as nat;
        lemma_ones_horner(w, k);
        lemma_pow2_adds(w, w * k);
        assert(w + w * k == w * r) by (nonlinear_arith)
            requires
                k == r - 1,
        ;
        assert(pow2(w) * (window_ones(w, k) + pow2(w * k)) == pow2(w) * window_ones(w, k)
            + pow2(w) * pow2(w * k)) by (nonlinear_arith);
    }
}

} // verus!
