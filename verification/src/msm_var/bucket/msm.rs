//! The bucket method: in each round the points are added into the buckets
//! that their windows name, and the buckets are summed with their indices as
//! weights by a running sum.

use crate::windows::{
    column, copy_points, double_element, doubled, group_op, number_of_buckets, number_of_rounds,
    rounds, word,
};
use super::config::MSMGate;
use crate::algebra::{all_in, aggregate, lemma_aggregate_is_weighted_sum, running, weighted_sum};
use crate::curve::{add_elements, group_add, group_neg, neg_element, on_group, Element, Point};
use crate::error::Error;
use crate::field::Fe;
use crate::gate::{incomplete_add, incomplete_double};
use crate::region::{lemma_prefix, AssignedPoint, RegionCtx, Value};
use crate::scalar::{window, Scalar};
use crate::sums::{curve_is_monoid, group_elements, horner};
use vstd::arithmetic::power2::{lemma_pow2_pos, pow2};
use vstd::prelude::*;

verus! {

/// The address is that of one of the first `m` buckets.
pub open spec fn is_bucket(a: Fe, m: nat) -> bool {
    a.l1 == 0 && a.l2 == 0 && a.l3 == 0 && a.l0 < m
}

/// The `k`-th initial bucket: the auxiliary generator doubled `k` times.
pub open spec fn initial_bucket(aux: Point, k: nat) -> Option<Point>
    decreases k,
{
    if k == 0 {
        Some(aux)
    } else {
        incomplete_double(initial_bucket(aux, (k - 1) as nat))
    }
}

/// The `m` initial buckets.
pub open spec fn fresh(aux: Point, m: nat) -> Seq<Option<Point>> {
    Seq::new(m, |k: int| initial_bucket(aux, k as nat))
}

/// The first `m` buckets of a memory.
pub open spec fn buckets_of(state: Map<Fe, Option<Point>>, m: nat) -> Seq<Option<Point>> {
    Seq::new(m, |k: int| state[word(k as nat)])
}

/// Two memories hold the same at every address but those of the first `m`
/// buckets.
pub open spec fn same_elsewhere(
    now: Map<Fe, Option<Point>>,
    then: Map<Fe, Option<Point>>,
    m: nat,
) -> bool {
    forall|a: Fe|
        !is_bucket(a, m) ==> (#[trigger] now.contains_key(a)) == then.contains_key(a) && now[a]
            == then[a]
}

/// The memory holds the first `m` buckets.
pub open spec fn has_buckets(state: Map<Fe, Option<Point>>, m: nat) -> bool {
    forall|k: nat| k < m ==> state.contains_key(#[trigger] word(k))
}

/// The buckets after the first `i` points of a round: each point is added
/// to the bucket that its window names. A point with an unknown window is
/// added nowhere.
pub open spec fn accumulated(
    buckets: Seq<Option<Point>>,
    points: Seq<Option<Point>>,
    limbs: Seq<Value>,
    i: nat,
) -> Seq<Option<Point>>
    decreases i,
{
    if i == 0 {
        buckets
    } else {
        let before = accumulated(buckets, points, limbs, (i - 1) as nat);
        match limbs[i - 1] {
            Some(a) => if is_bucket(a, buckets.len()) {
                before.update(a.l0 as int, incomplete_add(before[a.l0 as int], points[i - 1]))
            } else {
                before
            },
            None => before,
        }
    }
}

/// The running sum of the buckets from the last down to the `i`-th.
pub open spec fn running_sum(buckets: Seq<Option<Point>>, i: nat) -> Option<Point>
    decreases buckets.len() - i,
{
    if i + 1 >= buckets.len() {
        buckets[buckets.len() - 1]
    } else {
        incomplete_add(buckets[i as int], running_sum(buckets, i + 1))
    }
}

/// The sum of the running sums from the last bucket down to the `i`-th. From
/// the first bucket on, this is the sum of the buckets with their indices as
/// weights.
pub open spec fn aggregated(buckets: Seq<Option<Point>>, i: nat) -> Option<Point>
    decreases buckets.len() - i,
{
    if i + 1 >= buckets.len() {
        buckets[buckets.len() - 1]
    } else {
        incomplete_add(running_sum(buckets, i), aggregated(buckets, i + 1))
    }
}

/// What round `j` contributes: the aggregate of the buckets after all points
/// were added in.
pub open spec fn round_value(
    aux: Point,
    w: nat,
    points: Seq<Option<Point>>,
    scalars: Seq<Option<Scalar>>,
    j: int,
) -> Option<Point> {
    aggregated(accumulated(fresh(aux, pow2(w)), points, column(scalars, w, j), points.len()), 1)
}

/// The accumulator after round `j`: the contribution of the round, added to
/// the accumulator of the round before, doubled `w` times.
pub open spec fn accumulator(
    aux: Point,
    w: nat,
    points: Seq<Option<Point>>,
    scalars: Seq<Option<Scalar>>,
    j: int,
) -> Option<Point>
    decreases j,
{
    if j <= 0 {
        round_value(aux, w, points, scalars, 0)
    } else {
        incomplete_add(
            round_value(aux, w, points, scalars, j),
            doubled(accumulator(aux, w, points, scalars, j - 1), w),
        )
    }
}

/// Running sum and aggregate of the initial buckets from the last down to
/// the `k`-th, in the group.
pub open spec fn blinding_sums(aux: Point, m: nat, k: nat) -> (Element, Element)
    decreases m - k,
{
    if k >= m {
        (None, None)
    } else {
        let (sum, acc) = blinding_sums(aux, m, k + 1);
        let sum = group_add(sum, initial_bucket(aux, k));
        (sum, group_add(acc, sum))
    }
}

/// The correction: the inverse of what the initial buckets contribute in all
/// rounds.
pub open spec fn correction(aux: Point, w: nat) -> Element {
    group_neg(horner(blinding_sums(aux, pow2(w), 1).1, w, number_of_rounds(w)))
}

/// The result of the multiplication: the accumulator of the last round with
/// the correction added.
pub open spec fn bucket_msm(
    aux: Point,
    w: nat,
    points: Seq<Option<Point>>,
    scalars: Seq<Option<Scalar>>,
) -> Option<Point> {
    incomplete_add(
        accumulator(aux, w, points, scalars, number_of_rounds(w) - 1),
        correction(aux, w),
    )
}

/// The initial buckets: the auxiliary generator, doubled from bucket to
/// bucket.
pub fn initial_points(aux: &Point, window: usize) -> (r: Vec<Point>)
    requires
        1 <= window < 64,
        aux.on_curve(),
    ensures
        r@.len() == pow2(window as nat),
        forall|k: int|
            0 <= k < r@.len() ==> Some(#[trigger] r@[k]) == initial_bucket(*aux, k as nat)
                && r@[k].on_curve(),
{
    let size = number_of_buckets(window);
    let mut acc = *aux;
    let mut buckets: Vec<Point> = Vec::new();
    let mut k: u64 = 0;
    while k < size
        invariant
            k <= size,
            buckets@.len() == k,
            acc.on_curve(),
            Some(acc) == initial_bucket(*aux, k as nat),
            forall|i: int|
                0 <= i < k ==> Some(#[trigger] buckets@[i]) == initial_bucket(*aux, i as nat)
                    && buckets@[i].on_curve(),
        decreases size - k,
    {
        buckets.push(acc);
        let next = crate::gate::compute_double(&Some(acc)).out;
        acc = next.unwrap();
        k = k + 1;
    }
    buckets
}

/// The correction of the method with the given initial buckets, as an
/// element of the group.
pub fn correction_of(aux: &Point, window: usize, buckets: &Vec<Point>) -> (r: Element)
    requires
        1 <= window < 64,
        buckets@.len() == pow2(window as nat),
        forall|k: int|
            0 <= k < buckets@.len() ==> Some(#[trigger] buckets@[k]) == initial_bucket(
                *aux,
                k as nat,
            ) && buckets@[k].on_curve(),
    ensures
        r == correction(*aux, window as nat),
        on_group(r),
{
    let m = buckets.len();
    proof {
        lemma_pow2_pos(window as nat);
    }
    let mut sum: Element = None;
    let mut acc: Element = None;
    let mut k: usize = m;
    while k > 1
        invariant
            1 <= k <= m,
            m == buckets@.len(),
            on_group(sum),
            on_group(acc),
            (sum, acc) == blinding_sums(*aux, m as nat, k as nat),
            forall|i: int|
                0 <= i < buckets@.len() ==> Some(#[trigger] buckets@[i]) == initial_bucket(
                    *aux,
                    i as nat,
                ) && buckets@[i].on_curve(),
        decreases k,
    {
        k = k - 1;
        sum = add_elements(&sum, &Some(buckets[k]));
        acc = add_elements(&acc, &sum);
    }
    let per_round = acc;
    let n = rounds(window);
    let mut total: Element = None;
    let mut r: usize = 0;
    while r < n
        invariant
            r <= n,
            on_group(total),
            on_group(per_round),
            total == horner(per_round, window as nat, r as nat),
        decreases n - r,
    {
        let shifted = double_element(&total, window);
        total = add_elements(&shifted, &per_round);
        r = r + 1;
    }
    neg_element(&total)
}

impl MSMGate {
    /// The buckets and the correction that are kept are those of the
    /// auxiliary generator and window.
    pub open spec fn cached(&self) -> bool {
        &&& self.initial_buckets matches Some(v) ==> v@.len() == pow2(self.window as nat)
            && forall|k: int|
            0 <= k < v@.len() ==> Some(#[trigger] v@[k]) == initial_bucket(
                self.aux_generator,
                k as nat,
            ) && v@[k].on_curve()
        &&& self.correction_point matches Some(p) ==> Some(p) == correction(
            self.aux_generator,
            self.window as nat,
        ) && p.on_curve()
    }

    /// The initial buckets, computed once: the buckets that are kept, or
    /// else the buckets computed, which are then kept.
    pub fn gen_initial_buckets(&mut self) -> (r: Vec<Point>)
        requires
            old(self).wf(),
            old(self).cached(),
        ensures
            final(self).wf(),
            final(self).cached(),
            final(self).initial_buckets matches Some(v) && v@ == r@,
            old(self).initial_buckets.is_some() ==> final(self).initial_buckets == old(
                self,
            ).initial_buckets,
            final(self).columns == old(self).columns,
            final(self).range_table == old(self).range_table,
            final(self).window == old(self).window,
            final(self).aux_generator == old(self).aux_generator,
            final(self).memory == old(self).memory,
            final(self).constants == old(self).constants,
            final(self).correction_point == old(self).correction_point,
            r@.len() == pow2(old(self).window as nat),
            forall|k: int|
                0 <= k < r@.len() ==> Some(#[trigger] r@[k]) == initial_bucket(
                    old(self).aux_generator,
                    k as nat,
                ) && r@[k].on_curve(),
    {
        if let Some(buckets) = &self.initial_buckets {
            return copy_points(buckets);
        }
        let buckets = initial_points(&self.aux_generator, self.window);
        let r = copy_points(&buckets);
        self.initial_buckets = Some(buckets);
        r
    }

    /// The correction, as an element of the group.
    pub fn correction_element(&self, buckets: &Vec<Point>) -> (r: Element)
        requires
            self.wf(),
            buckets@.len() == pow2(self.window as nat),
            forall|k: int|
                0 <= k < buckets@.len() ==> Some(#[trigger] buckets@[k]) == initial_bucket(
                    self.aux_generator,
                    k as nat,
                ) && buckets@[k].on_curve(),
        ensures
            r == correction(self.aux_generator, self.window as nat),
            on_group(r),
    {
        correction_of(&self.aux_generator, self.window, buckets)
    }
}

impl MSMGate {
    /// Columns, window and generator stay as they are; the buckets and the
    /// correction may have been computed.
    pub open spec fn unchanged_but_caches(&self, other: &MSMGate) -> bool {
        &&& self.columns == other.columns
        &&& self.range_table == other.range_table
        &&& self.window == other.window
        &&& self.aux_generator == other.aux_generator
    }
}

/// A write to a bucket changes that bucket and nothing else.
pub proof fn lemma_bucket_written(state: Map<Fe, Option<Point>>, m: nat, a: Fe, v: Option<Point>)
    requires
        is_bucket(a, m),
        has_buckets(state, m),
        m <= u64::MAX,
    ensures
        a == word(a.l0 as nat),
        has_buckets(state.insert(a, v), m),
        buckets_of(state.insert(a, v), m) == buckets_of(state, m).update(a.l0 as int, v),
        same_elsewhere(state.insert(a, v), state, m),
{
    let next = state.insert(a, v);
    assert forall|k: nat| k < m implies next.contains_key(#[trigger] word(k)) by {
        assert(state.contains_key(word(k)));
    }
    assert(buckets_of(next, m) =~= buckets_of(state, m).update(a.l0 as int, v)) by {
        assert forall|k: int| 0 <= k < m implies buckets_of(next, m)[k] == buckets_of(
            state,
            m,
        ).update(a.l0 as int, v)[k] by {
            if k != a.l0 {
                assert(word(k as nat) != a);
            }
        }
    }
}

impl MSMGate {
    /// The correction as an assigned constant, computed once; an error where
    /// it is the neutral element.
    pub fn correction_point(&mut self, ctx: &mut RegionCtx) -> (r: Result<AssignedPoint, Error>)
        requires
            old(self).wf(),
            old(self).cached(),
            old(ctx).wf(),
        ensures
            final(self).wf(),
            final(self).cached(),
            final(ctx).wf(),
            final(self).unchanged_but_caches(old(self)),
            final(self).memory == old(self).memory,
            r matches Ok(p) ==> final(self).correction_point == p.point(),
            old(self).correction_point.is_some() ==> final(self).correction_point == old(
                self,
            ).correction_point && final(self).initial_buckets == old(self).initial_buckets,
            old(ctx)@.is_prefix_of(final(ctx)@),
            match r {
                Ok(p) => p.point() == correction(
                    old(self).aux_generator,
                    old(self).window as nat,
                ) && p.point().is_some(),
                Err(e) => e == Error::ConstantAtInfinity && correction(
                    old(self).aux_generator,
                    old(self).window as nat,
                ).is_none() && final(ctx)@ == old(ctx)@ && final(self).constants == old(self).constants,
            },
    {
        proof {
            lemma_prefix(ctx@, ctx@, ctx@);
        }
        let point = match self.correction_point {
            Some(p) => p,
            None => {
                let buckets = self.gen_initial_buckets();
                match self.correction_element(&buckets) {
                    Some(p) => {
                        self.correction_point = Some(p);
                        p
                    },
                    None => {
                        return Err(Error::ConstantAtInfinity);
                    },
                }
            },
        };
        Ok(self.get_constant_point(ctx, &point))
    }
}

/// Where a running sum by chords and its aggregate are known, they are the
/// running sum and the aggregate in the group.
pub proof fn lemma_aggregated_in_group(buckets: Seq<Option<Point>>, i: nat)
    ensures
        running_sum(buckets, i) matches Some(r) ==> running(group_op(), buckets, i) == Some(r),
        aggregated(buckets, i) matches Some(r) ==> aggregate(group_op(), buckets, i) == Some(r),
        running_sum(buckets, i).is_some() && i < buckets.len() ==> forall|k: int|
            i <= k < buckets.len() ==> (#[trigger] buckets[k]).is_some(),
        aggregated(buckets, i).is_some() && i < buckets.len() ==> running_sum(
            buckets,
            i,
        ).is_some(),
    decreases buckets.len() - i,
{
    if i + 1 < buckets.len() {
        lemma_aggregated_in_group(buckets, i + 1);
    }
}

/// The aggregation of buckets on the curve, where it is known, is the sum
/// of the buckets with their indices as weights, where the sum of the curve
/// is commutative and associative: the bucket of index `i` is counted `i`
/// times.
pub proof fn lemma_bucket_aggregation(buckets: Seq<Option<Point>>)
    requires
        curve_is_monoid(),
        all_in(buckets, group_elements()),
        buckets.len() >= 2,
        aggregated(buckets, 1).is_some(),
    ensures
        aggregated(buckets, 1) == weighted_sum(group_op(), None::<Point>, buckets, 0),
{
    lemma_aggregated_in_group(buckets, 1);
    lemma_aggregate_is_weighted_sum(group_op(), None::<Point>, group_elements(), buckets);
}

} // verus!
