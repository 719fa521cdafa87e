//! The fixed-base method computes the sum of the multiples: with the table
//! of the multiples of the bases and the correction of its auxiliary points,
//! its result, where it is known, is the sum of the bases, each as often as
//! its scalar says, in a group whose sum is that of the curve.

use super::assignments::{accumulator, fixed_msm, place, table_read};
use super::table::{aux_of, aux_rounds, aux_sum, blinding, memory_entry, table_entry};
use crate::algebra::{
    dot, lemma_associate, lemma_cancel, lemma_dot_closed, lemma_dot_ext,
    lemma_group_is_monoid, lemma_times_closed, lemma_times_mul, lemma_times_sum,
    lemma_zero_left, lemma_zero_right, times,
};
use crate::curve::{group_add, group_neg, on_group, Element, Point};
use crate::lookup::{
    lemma_horner_is_times, lemma_looked_up, lemma_sum_closed, looked_up, sum_of,
};
use crate::scalar::{lemma_window_bound, window, Scalar};
use crate::sums::{
    curve_is_group, curve_is_monoid, group_elements, group_inverse, horner,
    lemma_doubled_in_group, lemma_horner_closed, lemma_last_prefix, limbs_of, msm_sum, prefixes,
    values,
};
use crate::windows::{column, group_op, number_of_rounds, window_ones, word};
use vstd::arithmetic::div_mod::lemma_fundamental_div_mod_converse;
use vstd::arithmetic::power2::{
    lemma2_to64, lemma_pow2_adds, lemma_pow2_pos, lemma_pow2_strictly_increases, pow2,
};
use vstd::prelude::*;

verus! {

/// What the lookup of the `i`-th scalar in round `j` finds in the table.
pub open spec fn fixed_found(table: Seq<Point>, w: nat, scalars: Seq<Option<Scalar>>) -> spec_fn(
    nat,
    nat,
) -> Option<Point> {
    |i: nat, j: nat| table_read(table, w, i, column(scalars, w, j as int)[i as int])
}

/// The bases as elements of the group.
pub open spec fn elements(bases: Seq<Point>) -> Seq<Option<Point>> {
    Seq::new(bases.len(), |i: int| Some(bases[i]))
}

/// The auxiliary points of the first `n` bases.
pub open spec fn auxiliaries(aux: Point, n: nat) -> Seq<Element> {
    Seq::new(n, |i: int| aux_of(aux, i as nat))
}

/// The table holds the multiples of the bases: for each base `2^w` entries,
/// the `k`-th the auxiliary point of the base with `k` times the base.
pub open spec fn tabulates(table: Seq<Point>, bases: Seq<Point>, aux: Point, w: nat) -> bool {
    &&& table.len() == bases.len() * pow2(w)
    &&& forall|a: int|
        0 <= a < table.len() ==> Some(#[trigger] table[a]) == memory_entry(bases, aux, w, a as nat)
}

/// The accumulator of the method is that of a method that looks windows up.
pub proof fn lemma_accumulator_looks_up(
    table: Seq<Point>,
    w: nat,
    scalars: Seq<Option<Scalar>>,
    j: nat,
    i: nat,
)
    ensures
        accumulator(table, w, scalars, j, i) == looked_up(
            fixed_found(table, w, scalars),
            w,
            scalars.len(),
            j,
            i,
        ),
    decreases j, i,
{
    if i == 0 {
        if j > 0 {
            lemma_accumulator_looks_up(table, w, scalars, (j - 1) as nat, scalars.len());
        }
    } else {
        lemma_accumulator_looks_up(table, w, scalars, j, (i - 1) as nat);
    }
}

/// An entry of the table of a base is the auxiliary point with the base,
/// as often as the place of the entry says.
pub proof fn lemma_table_entry(point: Point, aux: Point, k: nat)
    requires
        curve_is_monoid(),
        point.on_curve(),
        aux.on_curve(),
    ensures
        table_entry(point, aux, k) == group_op()(
            Some(aux),
            times(group_op(), None::<Point>, k, Some(point)),
        ),
    decreases k,
{
    let op = group_op();
    let zero = None::<Point>;
    let g = group_elements();
    if k == 0 {
        lemma_zero_right(op, zero, g, Some(aux));
    } else {
        lemma_table_entry(point, aux, (k - 1) as nat);
        let before = times(op, zero, (k - 1) as nat, Some(point));
        lemma_times_closed(op, zero, g, (k - 1) as nat, Some(point));
        lemma_associate(op, zero, g, Some(aux), before, Some(point));
        assert(group_add(op(Some(aux), before), Some(point)) == op(
            op(Some(aux), before),
            Some(point),
        ));
    }
}

/// The sum of the auxiliary points.
pub proof fn lemma_aux_sum(aux: Point, n: nat, i: nat)
    requires
        i <= n,
    ensures
        aux_sum(aux, i) == sum_of(auxiliaries(aux, n), i),
    decreases i,
{
    if i > 0 {
        lemma_aux_sum(aux, n, (i - 1) as nat);
    }
}

/// What the auxiliary points contribute in `r` rounds is their sum, as
/// often as the weights of the rounds say.
pub proof fn lemma_aux_rounds(sum: Element, w: nat, r: nat)
    requires
        curve_is_monoid(),
        on_group(sum),
    ensures
        aux_rounds(sum, w, r).0 == times(group_op(), None::<Point>, window_ones(w, r), sum),
        aux_rounds(sum, w, r).1 == times(group_op(), None::<Point>, pow2(w * r), sum),
    decreases r,
{
    let op = group_op();
    let zero = None::<Point>;
    let g = group_elements();
    lemma2_to64();
    if r == 0 {
        assert(w * 0 == 0);
        lemma_zero_left(op, zero, g, sum);
        assert(times(op, zero, 1, sum) == op(times(op, zero, 0, sum), sum));
    } else {
        let k = (r - 1) as nat;
        lemma_aux_rounds(sum, w, k);
        let (total, shifted) = aux_rounds(sum, w, k);
        lemma_times_sum(op, zero, g, window_ones(w, k), pow2(w * k), sum);
        lemma_times_closed(op, zero, g, pow2(w * k), sum);
        lemma_doubled_in_group(shifted, w);
        lemma_times_mul(op, zero, g, pow2(w), pow2(w * k), sum);
        lemma_pow2_adds(w, w * k);
        assert(w + w * k == w * r) by (nonlinear_arith)
            requires
                k == r - 1,
        ;
        assert(group_add(total, shifted) == op(total, shifted));
    }
}

/// The fixed-base method is correct: with the table of the multiples of the
/// bases and the correction of its auxiliary points, where every scalar is
/// known and the result is known, the result is the sum of the bases, each
/// as often as its scalar says, in a group whose sum is that of the curve.
pub proof fn lemma_fixed_msm_correct(
    bases: Seq<Point>,
    aux: Point,
    w: nat,
    table: Seq<Point>,
    correction: Point,
    scalars: Seq<Option<Scalar>>,
)
    requires
        curve_is_group(),
        1 <= w < 64,
        bases.len() >= 1,
        bases.len() == scalars.len(),
        aux.on_curve(),
        forall|i: int| 0 <= i < bases.len() ==> (#[trigger] bases[i]).on_curve(),
        forall|i: int|
            0 <= i < scalars.len() ==> (#[trigger] scalars[i]).is_some() && scalars[i].unwrap()@
                < pow2(255),
        forall|i: nat| i < bases.len() ==> (#[trigger] aux_of(aux, i)).is_some(),
        tabulates(table, bases, aux, w),
        Some(correction) == blinding(aux, bases.len(), w),
        fixed_msm(table, correction, w, scalars).is_some(),
    ensures
        fixed_msm(table, correction, w, scalars) == msm_sum(elements(bases), scalars),
{
    let op = group_op();
    let zero = None::<Point>;
    let n = bases.len();
    let m = pow2(w);
    let last = (number_of_rounds(w) - 1) as nat;
    let found = fixed_found(table, w, scalars);
    let auxs = auxiliaries(aux, n);
    let points = elements(bases);
    let g = group_elements();
    lemma_group_is_monoid(op, zero, group_inverse(), g);
    assert forall|i: int| 0 <= i < n implies g(#[trigger] auxs[i]) by {
        lemma_doubled_in_group(Some(aux), i as nat);
    }
    assert forall|i: int| 0 <= i < n implies g(#[trigger] points[i]) by {
        assert(bases[i].on_curve());
    }
    lemma_pow2_pos(w);
    lemma_pow2_strictly_increases(w, 64);
    lemma2_to64();
    assert forall|i: nat, j: nat|
        i < points.len() && j < number_of_rounds(w) && (#[trigger] found(i, j)).is_some()
            implies found(i, j) == op(
        auxs[i as int],
        times(op, zero, limbs_of(scalars, w, j)[i as int], points[i as int]),
    ) by {
        let s = scalars[i as int].unwrap();
        let limb = window(s@, w, (number_of_rounds(w) - 1 - j) as nat);
        lemma_window_bound(s@, w, (number_of_rounds(w) - 1 - j) as nat);
        assert(column(scalars, w, j as int)[i as int] == Some(word(limb)));
        assert(word(limb)@ == limb);
        let at = place(w, i, word(limb));
        assert(at == m * i + limb);
        assert(m * i + limb < n * m) by (nonlinear_arith)
            requires
                i < n,
                limb < m,
        ;
        lemma_fundamental_div_mod_converse(at as int, m as int, i as int, limb as int);
        assert(Some(table[at as int]) == memory_entry(bases, aux, w, at));
        assert(aux_of(aux, i).is_some());
        assert(g(auxs[i as int]) && bases[i as int].on_curve());
        lemma_table_entry(bases[i as int], aux_of(aux, i).unwrap(), limb);
    }
    lemma_accumulator_looks_up(table, w, scalars, last, n);
    lemma_looked_up(found, auxs, points, scalars, w, last);
    // the correction is what the auxiliary points add in all rounds
    let per = sum_of(auxs, n);
    lemma_sum_closed(auxs, n);
    lemma_aux_sum(aux, n, n);
    lemma_aux_rounds(per, w, last + 1);
    lemma_horner_is_times(per, w, last + 1);
    let blind = horner(per, w, last + 1);
    assert(Some(correction) == blind);
    assert forall|i: int| 0 <= i < n implies prefixes(scalars, w, last)[i] == values(
        scalars,
    )[i] && points[i] == points[i] by {
        lemma_last_prefix(scalars, w, i);
    }
    lemma_dot_ext(op, zero, prefixes(scalars, w, last), values(scalars), points, points, n);
    let sum = dot(op, zero, values(scalars), points, n);
    lemma_dot_closed(op, zero, g, values(scalars), points, n);
    lemma_horner_closed(per, w, last + 1);
    lemma_cancel(op, zero, group_inverse(), g, blind, sum);
    let acc = accumulator(table, w, scalars, last, n);
    assert(fixed_msm(table, correction, w, scalars) == group_add(
        acc,
        group_neg(Some(correction)),
    ));
    assert(group_add(acc, group_neg(Some(correction))) == op(acc, group_inverse()(blind)));
}

} // verus!
