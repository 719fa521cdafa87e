//! The sliding-window method: a table of the multiples of each point, one
//! lookup for each scalar in each round, and a correction in closed form.

use super::config::MSMGate;
use super::rw::{held, place};
use crate::curve::{ec_mul, group_neg, mul_point, Element, Point};
use crate::error::Error;
use crate::gate::incomplete_add;
use crate::region::{lemma_prefix, AssignedPoint, RegionCtx, Value};
use crate::scalar::{order, Scalar};
use crate::windows::{
    column, decomposed, doubled, number_of_buckets, number_of_rounds, rounds, window_ones,
};
use vstd::arithmetic::div_mod::{
    lemma_add_mod_noop, lemma_mul_mod_noop_general, lemma_small_mod, lemma_sub_mod_noop,
};
use vstd::arithmetic::power2::{
    lemma2_to64, lemma_pow2_adds, lemma_pow2_pos, lemma_pow2_unfold, pow2,
};
use vstd::prelude::*;

verus! {

/// How often the auxiliary generator is counted in a multiplication of `n`
/// points: `(sum of 2^(j * w) over the rounds) * (2^n - 1)`, reduced modulo
/// the order of the group.
pub open spec fn blinding_factor(w: nat, n: nat) -> nat {
    ((window_ones(w, number_of_rounds(w)) * (pow2(n) - 1)) % (order() as int)) as nat
}

/// The correction for `n` points: the inverse of the auxiliary generator,
/// as often as the generator is counted.
pub open spec fn correction(aux: Point, w: nat, n: nat) -> Element {
    match group_neg(Some(aux)) {
        Some(p) => ec_mul(p, blinding_factor(w, n)),
        None => None,
    }
}

/// The correction that a multiplication uses: the one that is kept, or
/// else the one for its number of points.
pub open spec fn correction_used(kept: Option<Point>, aux: Point, w: nat, n: nat) -> Element {
    match kept {
        Some(p) => Some(p),
        None => correction(aux, w, n),
    }
}

/// The `j`-th entry of the table of a point: the auxiliary point with the
/// point added `j` times.
pub open spec fn entry(aux: Option<Point>, point: Option<Point>, j: nat) -> Option<Point>
    decreases j,
{
    if j == 0 {
        aux
    } else {
        incomplete_add(entry(aux, point, (j - 1) as nat), point)
    }
}

/// The entry of the whole table at a place: the tables of the points, each
/// of `2^w` entries, one after the other; the auxiliary point of the `i`-th
/// is the auxiliary generator doubled `i` times.
pub open spec fn table(aux: Point, w: nat, points: Seq<Option<Point>>, at: nat) -> Option<Point> {
    entry(doubled(Some(aux), at / pow2(w)), points[(at / pow2(w)) as int], at % pow2(w))
}

/// The table holds the tables of the first `n` points, `k` entries of the
/// next one, and elsewhere what it held before.
pub open spec fn tabulated(
    cells: Seq<super::rw::Cell>,
    before: Seq<super::rw::Cell>,
    aux: Point,
    w: nat,
    points: Seq<Option<Point>>,
    upto: nat,
) -> bool {
    forall|at: nat|
        #[trigger] held(cells, at) == if at < upto {
            Some(table(aux, w, points, at))
        } else {
            held(before, at)
        }
}

/// The correction that is kept, if one is, is the correction for `n`
/// points.
pub open spec fn kept_for(kept: Option<Point>, aux: Point, w: nat, n: nat) -> bool {
    kept matches Some(p) ==> Some(p) == correction(aux, w, n)
}

/// The places of the tables of the points can be written: each of the
/// first `upto` places holds nothing yet, or what the tables hold there.
pub open spec fn writable(
    cells: Seq<super::rw::Cell>,
    aux: Point,
    w: nat,
    points: Seq<Option<Point>>,
    upto: nat,
) -> bool {
    forall|at: nat|
        at < upto ==> ((#[trigger] held(cells, at)) matches Some(c) ==> c == table(
            aux,
            w,
            points,
            at,
        ))
}

/// What a lookup finds for the `i`-th point at a witnessed window.
pub open spec fn found(aux: Point, w: nat, points: Seq<Option<Point>>, i: nat, limb: Value)
    -> Option<Point> {
    match limb {
        Some(a) => table(aux, w, points, pow2(w) * i + a@),
        None => None,
    }
}

/// The accumulator after the lookups of the first `i` scalars in round `j`.
pub open spec fn accumulator(
    aux: Point,
    w: nat,
    points: Seq<Option<Point>>,
    scalars: Seq<Option<Scalar>>,
    j: nat,
    i: nat,
) -> Option<Point>
    decreases j, i,
{
    if i == 0 {
        if j == 0 {
            None
        } else {
            doubled(accumulator(aux, w, points, scalars, (j - 1) as nat, scalars.len()), w)
        }
    } else {
        let point = found(aux, w, points, (i - 1) as nat, column(scalars, w, j as int)[i - 1]);
        if j == 0 && i == 1 {
            point
        } else {
            incomplete_add(point, accumulator(aux, w, points, scalars, j, (i - 1) as nat))
        }
    }
}

/// The result of the multiplication: the accumulator of the last round with
/// the correction added.
pub open spec fn sliding_msm(
    aux: Point,
    kept: Option<Point>,
    w: nat,
    points: Seq<Option<Point>>,
    scalars: Seq<Option<Scalar>>,
) -> Option<Point> {
    incomplete_add(
        accumulator(aux, w, points, scalars, (number_of_rounds(w) - 1) as nat, scalars.len()),
        correction_used(kept, aux, w, points.len()),
    )
}

/// Computes how often the auxiliary generator is counted.
pub fn compute_blinding_factor(window: usize, number_of_points: usize) -> (r: Scalar)
    requires
        1 <= window < 64,
    ensures
        r@ == blinding_factor(window as nat, number_of_points as nat),
{
    let ghost w = window as nat;
    let ghost o = order() as int;
    let count = rounds(window);
    let step = Scalar::from_u64(number_of_buckets(window));
    let mut ones = Scalar::from_u64(0);
    let mut term = Scalar::from_u64(1);
    let mut i: usize = 0;
    proof {
        lemma2_to64();
        lemma_small_mod(0, order());
        lemma_small_mod(1, order());
        assert(w * 0 == 0);
    }
    while i < count
        invariant
            i <= count,
            w == window,
            o == order(),
            step@ == pow2(w),
            ones@ == window_ones(w, i as nat) % order(),
            term@ == pow2(w * (i as nat)) % order(),
        decreases count - i,
    {
        proof {
            let a = window_ones(w, i as nat) as int;
            let t = pow2(w * (i as nat)) as int;
            lemma_add_mod_noop(a, t, o);
            lemma_mul_mod_noop_general(t, pow2(w) as int, o);
            lemma_pow2_adds(w * (i as nat), w);
            assert(w * (i as nat) + w == w * ((i + 1) as nat)) by (nonlinear_arith);
        }
        ones = ones.add(&term);
        term = term.mul(&step);
        i = i + 1;
    }
    let mut power = Scalar::from_u64(1);
    let mut k: usize = 0;
    while k < number_of_points
        invariant
            k <= number_of_points,
            o == order(),
            power@ == pow2(k as nat) % order(),
        decreases number_of_points - k,
    {
        proof {
            let p = pow2(k as nat) as int;
            lemma_add_mod_noop(p, p, o);
            lemma_pow2_unfold((k + 1) as nat);
        }
        power = power.add(&power);
        k = k + 1;
    }
    let all = power.sub(&Scalar::from_u64(1));
    proof {
        let p = pow2(number_of_points as nat) as int;
        lemma_pow2_pos(number_of_points as nat);
        lemma_small_mod(1, order());
        lemma_sub_mod_noop(p, 1, o);
        lemma_mul_mod_noop_general(window_ones(w, count as nat) as int, p - 1, o);
    }
    ones.mul(&all)
}

/// The correction that a multiplication of `number_of_points` points uses:
/// the one that is kept, or else the one computed.
pub fn correction_for(
    kept: &Option<Point>,
    aux: &Point,
    window: usize,
    number_of_points: usize,
) -> (r: Element)
    requires
        1 <= window < 64,
        aux.on_curve(),
        *kept matches Some(p) ==> p.on_curve(),
    ensures
        r == correction_used(*kept, *aux, window as nat, number_of_points as nat),
        r matches Some(p) ==> p.on_curve(),
{
    match kept {
        Some(p) => Some(*p),
        None => {
            let factor = compute_blinding_factor(window, number_of_points);
            mul_point(&aux.neg(), &factor)
        },
    }
}

impl MSMGate {
    /// The correction for `number_of_points` points as an element of the
    /// group: the one that is kept, or else the one computed, which is then
    /// kept.
    pub fn correction_element(&mut self, number_of_points: usize) -> (r: Element)
        requires
            old(self).wf(),
        ensures
            final(self).wf(),
            final(self).same_setup(old(self)),
            final(self).memory == old(self).memory,
            final(self).constants == old(self).constants,
            r == correction_used(
                old(self).correction_point,
                old(self).aux_generator,
                old(self).window as nat,
                number_of_points as nat,
            ),
            final(self).correction_point == r,
            r matches Some(p) ==> p.on_curve(),
    {
        let r = correction_for(
            &self.correction_point,
            &self.aux_generator,
            self.window,
            number_of_points,
        );
        self.correction_point = r;
        r
    }

    /// The correction as an assigned constant; an error where it is the
    /// neutral element.
    pub fn correction_point(&mut self, ctx: &mut RegionCtx, number_of_points: usize) -> (r: Result<
        AssignedPoint,
        Error,
    >)
        requires
            old(self).wf(),
            old(ctx).wf(),
        ensures
            final(self).wf(),
            final(ctx).wf(),
            final(self).same_setup(old(self)),
            final(self).memory == old(self).memory,
            final(self).correction_point == correction_used(
                old(self).correction_point,
                old(self).aux_generator,
                old(self).window as nat,
                number_of_points as nat,
            ),
            old(ctx)@.is_prefix_of(final(ctx)@),
            match r {
                Ok(p) => p.point() == correction_used(
                    old(self).correction_point,
                    old(self).aux_generator,
                    old(self).window as nat,
                    number_of_points as nat,
                ) && p.point().is_some(),
                Err(e) => e == Error::ConstantAtInfinity && correction_used(
                    old(self).correction_point,
                    old(self).aux_generator,
                    old(self).window as nat,
                    number_of_points as nat,
                ).is_none() && final(ctx)@ == old(ctx)@ && final(self).constants == old(self).constants,
            },
    {
        proof {
            lemma_prefix(ctx@, ctx@, ctx@);
        }
        match self.correction_element(number_of_points) {
            Some(p) => Ok(self.get_constant_point(ctx, &p)),
            None => Err(Error::ConstantAtInfinity),
        }
    }

    /// The windows of the scalars, round by round, the most significant
    /// first.
    pub fn decompose_scalars(&self, scalars: &[Option<Scalar>]) -> (r: Vec<Vec<Value>>)
        requires
            1 <= self.window < 64,
        ensures
            decomposed(r@, scalars@, self.window as nat),
    {
        crate::windows::decompose_scalars(self.window, scalars)
    }
}

} // verus!
