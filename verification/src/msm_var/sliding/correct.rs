//! The sliding-window method computes the sum of the multiples: where its
//! result is known, it is the sum of the points, each as often as its scalar
//! says, in a group whose sum is that of the curve and whose order is that
//! of the field of scalars.

use super::msm::{
    accumulator, blinding_factor, correction, entry, found, kept_for, sliding_msm, table,
};
use crate::algebra::{
    dot, lemma_associate, lemma_cancel_with, lemma_dot_closed, lemma_dot_ext,
    lemma_group_is_monoid, lemma_inverse, lemma_times_add, lemma_times_closed, lemma_times_mul,
    lemma_times_sum, lemma_times_zero, lemma_zero_right, times,
};
use crate::curve::{ec_mul, group_add, group_neg, on_group, Element, Point};
use crate::lookup::{
    lemma_all_found, lemma_horner_is_times, lemma_looked_up, lemma_sum_closed, looked_up, sum_of,
};
use crate::scalar::{lemma_window_bound, order, window, Scalar};
use crate::sums::{
    all_known, curve_is_group, curve_is_monoid, group_elements, group_inverse, horner,
    lemma_doubled_in_group, lemma_horner_closed, lemma_last_prefix, limbs_of, msm_sum, prefixes,
    values,
};
use crate::windows::{column, doubled, group_op, number_of_rounds, window_ones, word};
use vstd::arithmetic::div_mod::{lemma_fundamental_div_mod, lemma_fundamental_div_mod_converse};
use vstd::arithmetic::power2::{
    lemma2_to64, lemma_pow2_pos, lemma_pow2_strictly_increases, lemma_pow2_unfold, pow2,
};
use vstd::prelude::*;

verus! {

/// The multiple of a point by an integer is the point added up as often as
/// the integer says, with the sum of the group.
pub proof fn lemma_multiple_is_sum(p: Point, k: nat)
    ensures
        ec_mul(p, k) == times(group_op(), None::<Point>, k, Some(p)),
    decreases k,
{
    reveal_with_fuel(ec_mul, 2);
    if k > 0 {
        lemma_multiple_is_sum(p, (k - 1) as nat);
    }
}

/// Every element of the group, added up as often as the order of the group
/// says, is the neutral element.
pub open spec fn order_annihilates() -> bool {
    forall|e: Element|
        on_group(e) ==> #[trigger] times(group_op(), None::<Point>, order(), e) == None::<Point>
}

/// What the lookup of the `i`-th scalar in round `j` finds in the table.
pub open spec fn sliding_found(
    aux: Point,
    w: nat,
    points: Seq<Option<Point>>,
    scalars: Seq<Option<Scalar>>,
) -> spec_fn(nat, nat) -> Option<Point> {
    |i: nat, j: nat| found(aux, w, points, i, column(scalars, w, j as int)[i as int])
}

/// The auxiliary points of the first `n` tables.
pub open spec fn auxiliaries(aux: Point, n: nat) -> Seq<Element> {
    Seq::new(n, |i: int| doubled(Some(aux), i as nat))
}

/// The accumulator of the method is that of a method that looks windows up.
pub proof fn lemma_accumulator_looks_up(
    aux: Point,
    w: nat,
    points: Seq<Option<Point>>,
    scalars: Seq<Option<Scalar>>,
    j: nat,
    i: nat,
)
    ensures
        accumulator(aux, w, points, scalars, j, i) == looked_up(
            sliding_found(aux, w, points, scalars),
            w,
            scalars.len(),
            j,
            i,
        ),
    decreases j, i,
{
    if i == 0 {
        if j > 0 {
            lemma_accumulator_looks_up(aux, w, points, scalars, (j - 1) as nat, scalars.len());
        }
    } else {
        lemma_accumulator_looks_up(aux, w, points, scalars, j, (i - 1) as nat);
    }
}

/// Where an entry of the table of a point is known, so is the auxiliary
/// point.
pub proof fn lemma_entry_known(aux: Option<Point>, point: Option<Point>, k: nat)
    requires
        entry(aux, point, k).is_some(),
    ensures
        aux.is_some(),
    decreases k,
{
    if k > 0 {
        lemma_entry_known(aux, point, (k - 1) as nat);
    }
}

/// Where an entry of the table of a point is known, the entry is the
/// auxiliary point with the point, as often as the place of the entry says.
pub proof fn lemma_entry_in_group(aux: Option<Point>, point: Option<Point>, k: nat)
    requires
        curve_is_monoid(),
        on_group(aux),
        on_group(point),
        entry(aux, point, k).is_some(),
    ensures
        entry(aux, point, k) == group_op()(aux, times(group_op(), None::<Point>, k, point)),
    decreases k,
{
    let op = group_op();
    let zero = None::<Point>;
    let g = group_elements();
    if k == 0 {
        lemma_zero_right(op, zero, g, aux);
    } else {
        let before = entry(aux, point, (k - 1) as nat);
        lemma_entry_in_group(aux, point, (k - 1) as nat);
        assert(entry(aux, point, k) == group_add(before, point));
        assert(group_add(before, point) == op(before, point));
        lemma_times_closed(op, zero, g, (k - 1) as nat, point);
        lemma_associate(op, zero, g, aux, times(op, zero, (k - 1) as nat, point), point);
    }
}

/// The sum of the auxiliary points of the first `i` tables is the auxiliary
/// generator, `2^i - 1` times.
pub proof fn lemma_aux_sum(aux: Point, n: nat, i: nat)
    requires
        curve_is_monoid(),
        aux.on_curve(),
        i <= n,
        forall|k: nat| k < n ==> (#[trigger] doubled(Some(aux), k)).is_some(),
    ensures
        sum_of(auxiliaries(aux, n), i) == times(
            group_op(),
            None::<Point>,
            (pow2(i) - 1) as nat,
            Some(aux),
        ),
    decreases i,
{
    let op = group_op();
    let zero = None::<Point>;
    lemma2_to64();
    if i > 0 {
        let k = (i - 1) as nat;
        lemma_aux_sum(aux, n, k);
        lemma_pow2_pos(k);
        lemma_pow2_unfold(i);
        assert(doubled(Some(aux), k).is_some());
        lemma_doubled_in_group(Some(aux), k);
        lemma_times_sum(op, zero, group_elements(), (pow2(k) - 1) as nat, pow2(k), Some(aux));
        assert(auxiliaries(aux, n)[k as int] == doubled(Some(aux), k));
        assert(group_add(sum_of(auxiliaries(aux, n), k), auxiliaries(aux, n)[k as int]) == op(
            sum_of(auxiliaries(aux, n), k),
            auxiliaries(aux, n)[k as int],
        ));
    }
}

/// The correction takes away what the auxiliary points add in all rounds.
pub proof fn lemma_correction_cancels(aux: Point, w: nat, n: nat)
    requires
        curve_is_group(),
        order_annihilates(),
        aux.on_curve(),
        correction(aux, w, n).is_some(),
    ensures
        group_op()(
            times(
                group_op(),
                None::<Point>,
                window_ones(w, number_of_rounds(w)) * ((pow2(n) - 1) as nat),
                Some(aux),
            ),
            correction(aux, w, n),
        ) == None::<Point>,
{
    let op = group_op();
    let zero = None::<Point>;
    let a = Some(aux);
    let na = group_neg(a);
    let g = group_elements();
    lemma_group_is_monoid(op, zero, group_inverse(), g);
    lemma_inverse(op, zero, group_inverse(), g, a);
    assert(on_group(na));
    lemma_pow2_pos(n);
    let count = window_ones(w, number_of_rounds(w)) * ((pow2(n) - 1) as nat);
    let f = blinding_factor(w, n);
    let q = (count / order()) as nat;
    lemma_fundamental_div_mod(count as int, order() as int);
    assert(count == f + q * order()) by (nonlinear_arith)
        requires
            count == order() * q + f,
    ;
    // the count and the factor give the same multiple
    lemma_times_sum(op, zero, g, f, q * order(), a);
    lemma_times_mul(op, zero, g, q, order(), a);
    lemma_times_zero(op, zero, g, q);
    lemma_times_closed(op, zero, g, f, a);
    lemma_zero_right(op, zero, g, times(op, zero, f, a));
    assert(times(op, zero, count, a) == times(op, zero, f, a));
    // the multiple and the multiple of the inverse cancel
    lemma_multiple_is_sum(na.unwrap(), f);
    assert(correction(aux, w, n) == times(op, zero, f, na));
    lemma_times_add(op, zero, g, f, a, na);
    assert(op(a, na) == zero);
    lemma_times_zero(op, zero, g, f);
}

/// The sliding-window method is correct: where every point and every scalar
/// is known, the correction that is kept, if one is, is the one for this
/// number of points, and the result is known, the result is the sum of the
/// points, each as often as its scalar says.
pub proof fn lemma_sliding_msm_correct(
    aux: Point,
    kept: Option<Point>,
    w: nat,
    points: Seq<Option<Point>>,
    scalars: Seq<Option<Scalar>>,
)
    requires
        curve_is_group(),
        order_annihilates(),
        all_known(points, scalars),
        aux.on_curve(),
        1 <= w < 64,
        points.len() >= 1,
        kept_for(kept, aux, w, points.len()),
        sliding_msm(aux, kept, w, points, scalars).is_some(),
    ensures
        sliding_msm(aux, kept, w, points, scalars) == msm_sum(points, scalars),
{
    let op = group_op();
    let zero = None::<Point>;
    let n = points.len();
    let m = pow2(w);
    let last = (number_of_rounds(w) - 1) as nat;
    let find = sliding_found(aux, w, points, scalars);
    let auxs = auxiliaries(aux, n);
    let g = group_elements();
    lemma_group_is_monoid(op, zero, group_inverse(), g);
    assert forall|i: int| 0 <= i < n implies g(#[trigger] auxs[i]) by {
        lemma_doubled_in_group(Some(aux), i as nat);
    }
    assert forall|i: int| 0 <= i < n implies g(#[trigger] points[i]) by {
        assert(points[i].unwrap().on_curve());
    }
    lemma_pow2_pos(w);
    lemma_pow2_strictly_increases(w, 64);
    lemma2_to64();
    assert forall|i: nat, j: nat|
        i < points.len() && j < number_of_rounds(w) && (#[trigger] find(i, j)).is_some()
            implies find(i, j) == op(
        auxs[i as int],
        times(op, zero, limbs_of(scalars, w, j)[i as int], points[i as int]),
    ) && doubled(Some(aux), i).is_some() by {
        let s = scalars[i as int].unwrap();
        let limb = window(s@, w, (number_of_rounds(w) - 1 - j) as nat);
        lemma_window_bound(s@, w, (number_of_rounds(w) - 1 - j) as nat);
        assert(column(scalars, w, j as int)[i as int] == Some(word(limb)));
        assert(word(limb)@ == limb);
        let at = (m * i + limb) as nat;
        lemma_fundamental_div_mod_converse(at as int, m as int, i as int, limb as int);
        assert(find(i, j) == table(aux, w, points, at));
        lemma_entry_known(doubled(Some(aux), i), points[i as int], limb);
        assert(g(auxs[i as int]) && g(points[i as int]));
        lemma_entry_in_group(doubled(Some(aux), i), points[i as int], limb);
    }
    let acc = accumulator(aux, w, points, scalars, last, n);
    lemma_accumulator_looks_up(aux, w, points, scalars, last, n);
    lemma_all_found(find, w, n, last, n);
    assert forall|k: nat| k < n implies (#[trigger] doubled(Some(aux), k)).is_some() by {
        assert(find(k, last).is_some());
    }
    lemma_looked_up(find, auxs, points, scalars, w, last);
    // what the auxiliary points add in all rounds
    let per = sum_of(auxs, n);
    lemma_sum_closed(auxs, n);
    lemma_aux_sum(aux, n, n);
    lemma_horner_is_times(per, w, last + 1);
    lemma_horner_closed(per, w, last + 1);
    lemma_times_mul(op, zero, g, window_ones(w, last + 1), (pow2(n) - 1) as nat, Some(aux));
    let blind = horner(per, w, last + 1);
    lemma_correction_cancels(aux, w, n);
    assert forall|i: int| 0 <= i < n implies prefixes(scalars, w, last)[i] == values(
        scalars,
    )[i] && points[i] == points[i] by {
        lemma_last_prefix(scalars, w, i);
    }
    lemma_dot_ext(op, zero, prefixes(scalars, w, last), values(scalars), points, points, n);
    let sum = dot(op, zero, values(scalars), points, n);
    let shift = correction(aux, w, n);
    lemma_dot_closed(op, zero, g, values(scalars), points, n);
    assert(on_group(shift)) by {
        lemma_multiple_is_sum(group_neg(Some(aux)).unwrap(), blinding_factor(w, n));
        lemma_inverse(op, zero, group_inverse(), g, Some(aux));
        lemma_times_closed(
            op,
            zero,
            g,
            blinding_factor(w, n),
            group_neg(Some(aux)),
        );
    }
    lemma_cancel_with(op, zero, g, blind, sum, shift);
    assert(sliding_msm(aux, kept, w, points, scalars) == group_add(acc, shift));
    assert(group_add(acc, shift) == op(acc, shift));
}

} // verus!
