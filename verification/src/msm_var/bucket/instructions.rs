//! What a layout of the bucket method has to offer, and the method itself
//! on top of it: the rounds, the accumulation of the points into the
//! buckets and the aggregation of the buckets are the same for every layout
//! of the rows.

use super::assignments::{read_value, written};
use super::msm::{
    accumulated, accumulator, aggregated, bucket_msm, buckets_of, correction, fresh,
    has_buckets, initial_bucket, is_bucket, lemma_bucket_written, round_value, running_sum,
};
use crate::curve::Point;
use crate::error::Error;
use crate::field::Fe;
use crate::gate::{incomplete_add, incomplete_double};
use crate::region::{
    lemma_prefix, valid, Advice, AssignedPoint, AssignedValue, Fixed, Op, RegionCtx, Value,
};
use crate::scalar::{lemma_window_bound, Scalar};
use crate::windows::{
    column, decomposed, doubled, limb_at, number_of_buckets, number_of_rounds, point_values,
    rounds, word,
};
use vstd::arithmetic::power2::{lemma2_to64, lemma_pow2_strictly_increases, pow2};
use vstd::bits::lemma_u64_pow2_no_overflow;
use vstd::prelude::*;

verus! {

/// Two memories hold the same at every address but one.
pub open spec fn same_but_at(
    now: Map<Fe, Option<Point>>,
    then: Map<Fe, Option<Point>>,
    address: Value,
) -> bool {
    forall|a: Fe|
        Some(a) != address ==> (#[trigger] now.contains_key(a)) == then.contains_key(a) && now[a]
            == then[a]
}

/// What one query of the memory shows, whatever the layout of its row: the
/// address, the point that it read, if it read, and the point that it
/// wrote, if it wrote.
#[derive(Clone, Copy, Debug, PartialEq, Eq, Structural)]
pub struct Access {
    pub address: Value,
    pub read: Option<Option<Point>>,
    pub wrote: Option<Option<Point>>,
}

/// The queries are those before and `n` more.
pub open spec fn grown_by(now: Seq<Access>, then: Seq<Access>, n: nat) -> bool {
    now.len() == then.len() + n && then.is_prefix_of(now)
}

/// From the timestamp `start` on, the first `n` of `m` initial buckets are
/// written, one after the other: the bucket `k` at the address `k`.
pub open spec fn writes_buckets(log: Seq<Access>, start: nat, aux: Point, n: nat) -> bool {
    forall|t: int|
        start <= t < start + n ==> (#[trigger] log[t]).address == Some(word((t - start) as nat))
            && log[t].wrote == Some(initial_bucket(aux, (t - start) as nat))
}

/// Queries that have grown twice have grown by both, and keep the queries
/// of the first growth.
pub proof fn lemma_grown(now: Seq<Access>, middle: Seq<Access>, then: Seq<Access>, n: nat, k: nat)
    requires
        grown_by(now, middle, n),
        grown_by(middle, then, k),
    ensures
        grown_by(now, then, n + k),
        forall|t: int| 0 <= t < middle.len() ==> now[t] == middle[t],
{
    assert(now.subrange(0, then.len() as int) =~= now.subrange(0, middle.len() as int).subrange(
        0,
        then.len() as int,
    ));
    assert forall|t: int| 0 <= t < middle.len() implies now[t] == middle[t] by {
        assert(now.subrange(0, middle.len() as int)[t] == now[t]);
    }
}

/// What the bucket that a window names holds; nothing known where the
/// window is unknown.
pub open spec fn bucket_at(buckets: Seq<Option<Point>>, limb: Value) -> Option<Point> {
    match limb {
        Some(a) => buckets[a.l0 as int],
        None => None,
    }
}

/// The `i`-th point of a round is added into its bucket by the `u` queries
/// from the timestamp `start + i * u` on: the first reads the bucket that
/// the window of the point names, as the points before have left it, and
/// the last writes the sum in its place.
pub open spec fn updated(
    log: Seq<Access>,
    start: nat,
    u: nat,
    buckets: Seq<Option<Point>>,
    points: Seq<Option<Point>>,
    limbs: Seq<Value>,
    i: nat,
) -> bool {
    let first = log[(start + i * u) as int];
    let last = log[start + i * u + u - 1];
    let held = bucket_at(accumulated(buckets, points, limbs, i), limbs[i as int]);
    &&& first.address == limbs[i as int]
    &&& first.read == Some(held)
    &&& last.address == limbs[i as int]
    &&& last.wrote == Some(incomplete_add(held, points[i as int]))
}

/// From the timestamp `start` on, the first `n` points of a round are
/// added into their buckets, one after the other.
pub open spec fn updates_buckets(
    log: Seq<Access>,
    start: nat,
    u: nat,
    buckets: Seq<Option<Point>>,
    points: Seq<Option<Point>>,
    limbs: Seq<Value>,
    n: nat,
) -> bool {
    forall|i: nat| i < n ==> #[trigger] updated(log, start, u, buckets, points, limbs, i)
}

/// Queries that grow keep what the first points of a round have recorded.
pub proof fn lemma_updates_kept(
    now: Seq<Access>,
    then: Seq<Access>,
    start: nat,
    u: nat,
    buckets: Seq<Option<Point>>,
    points: Seq<Option<Point>>,
    limbs: Seq<Value>,
    n: nat,
)
    requires
        u >= 1,
        then.is_prefix_of(now),
        start + n * u <= then.len(),
        updates_buckets(then, start, u, buckets, points, limbs, n),
    ensures
        updates_buckets(now, start, u, buckets, points, limbs, n),
{
    assert forall|i: nat| i < n implies #[trigger] updated(
        now,
        start,
        u,
        buckets,
        points,
        limbs,
        i,
    ) by {
        assert(updated(then, start, u, buckets, points, limbs, i));
        assert(i * u + u <= n * u) by (nonlinear_arith)
            requires
                i < n,
                u >= 1,
        ;
        assert(0 <= i * u) by (nonlinear_arith);
        let a = (start + i * u) as int;
        let b = start + i * u + u - 1;
        assert(now.subrange(0, then.len() as int)[a] == now[a]);
        assert(now.subrange(0, then.len() as int)[b] == now[b]);
    }
}

/// From the timestamp `start` on, the last `n` of the buckets are read, one
/// after the other, from the last one down.
pub open spec fn reads_buckets(
    log: Seq<Access>,
    start: nat,
    buckets: Seq<Option<Point>>,
    n: nat,
) -> bool {
    forall|t: int|
        start <= t < start + n ==> (#[trigger] log[t]).address == Some(
            word((buckets.len() - 1 - (t - start)) as nat),
        ) && log[t].read == Some(buckets[buckets.len() - 1 - (t - start)])
}

/// Queries that grow keep the writes of the initial buckets.
pub proof fn lemma_writes_kept(now: Seq<Access>, then: Seq<Access>, start: nat, aux: Point, n: nat)
    requires
        then.is_prefix_of(now),
        start + n <= then.len(),
        writes_buckets(then, start, aux, n),
    ensures
        writes_buckets(now, start, aux, n),
{
    assert forall|t: int| start <= t < start + n implies (#[trigger] now[t]).address == Some(
        word((t - start) as nat),
    ) && now[t].wrote == Some(initial_bucket(aux, (t - start) as nat)) by {
        assert(now.subrange(0, then.len() as int)[t] == now[t]);
        assert(then[t].address == Some(word((t - start) as nat)));
    }
}

/// Queries that grow keep the reads of the buckets.
pub proof fn lemma_reads_kept(
    now: Seq<Access>,
    then: Seq<Access>,
    start: nat,
    buckets: Seq<Option<Point>>,
    n: nat,
)
    requires
        then.is_prefix_of(now),
        start + n <= then.len(),
        reads_buckets(then, start, buckets, n),
    ensures
        reads_buckets(now, start, buckets, n),
{
    assert forall|t: int| start <= t < start + n implies (#[trigger] now[t]).address == Some(
        word((buckets.len() - 1 - (t - start)) as nat),
    ) && now[t].read == Some(buckets[buckets.len() - 1 - (t - start)]) by {
        assert(now.subrange(0, then.len() as int)[t] == now[t]);
        assert(then[t].address == Some(word((buckets.len() - 1 - (t - start)) as nat)));
    }
}

/// The number of queries of a round: a write and a read of each bucket,
/// and `u` queries for each of the `n` points.
pub open spec fn queries_of_round(w: nat, n: nat, u: nat) -> nat {
    2 * pow2(w) + n * u
}

/// The queries of one round, from the timestamp `start` on: the initial
/// buckets are written, the points are added into the buckets that their
/// windows name, and the buckets are read from the last one down.
pub open spec fn round_recorded(
    log: Seq<Access>,
    start: nat,
    u: nat,
    aux: Point,
    w: nat,
    points: Seq<Option<Point>>,
    limbs: Seq<Value>,
) -> bool {
    let m = pow2(w);
    &&& writes_buckets(log, start, aux, m)
    &&& updates_buckets(log, start + m, u, fresh(aux, m), points, limbs, points.len())
    &&& reads_buckets(
        log,
        start + m + points.len() * u,
        accumulated(fresh(aux, m), points, limbs, points.len()),
        m,
    )
}

/// The queries of round `j` of a multiplication whose queries begin at the
/// timestamp `start`.
pub open spec fn recorded(
    log: Seq<Access>,
    start: nat,
    u: nat,
    aux: Point,
    w: nat,
    points: Seq<Option<Point>>,
    scalars: Seq<Option<Scalar>>,
    j: nat,
) -> bool {
    round_recorded(
        log,
        start + j * queries_of_round(w, points.len(), u),
        u,
        aux,
        w,
        points,
        column(scalars, w, j as int),
    )
}

/// Queries that grow keep the queries of a round.
pub proof fn lemma_round_kept(
    now: Seq<Access>,
    then: Seq<Access>,
    start: nat,
    u: nat,
    aux: Point,
    w: nat,
    points: Seq<Option<Point>>,
    limbs: Seq<Value>,
)
    requires
        u >= 1,
        then.is_prefix_of(now),
        start + queries_of_round(w, points.len(), u) <= then.len(),
        round_recorded(then, start, u, aux, w, points, limbs),
    ensures
        round_recorded(now, start, u, aux, w, points, limbs),
{
    let m = pow2(w);
    let n = points.len();
    assert(0 <= n * u) by (nonlinear_arith)
        requires
            n >= 0,
            u >= 0,
    ;
    lemma_writes_kept(now, then, start, aux, m);
    lemma_updates_kept(now, then, start + m, u, fresh(aux, m), points, limbs, n);
    lemma_reads_kept(
        now,
        then,
        start + m + n * u,
        accumulated(fresh(aux, m), points, limbs, n),
        m,
    );
}

/// What the method rests on: the window, the auxiliary generator, the
/// buckets, and the constants of the method.
pub trait MSMHelper {
    /// The queries that the memory has recorded, in the order of their
    /// timestamps.
    spec fn accesses(&self) -> Seq<Access>;

    /// The number of bits of a window.
    spec fn width(&self) -> nat;

    /// The auxiliary generator.
    spec fn generator(&self) -> Point;

    /// The points that the memory holds, by address.
    spec fn buckets(&self) -> Map<Fe, Option<Point>>;

    /// The layout is well formed.
    spec fn ready(&self) -> bool;

    fn window(&self) -> (r: usize)
        requires
            self.ready(),
        ensures
            r == self.width(),
            1 <= r < 64,
    ;

    /// The initial buckets: the auxiliary generator, doubled from bucket to
    /// bucket.
    fn gen_initial_buckets(&mut self) -> (r: Vec<Point>)
        requires
            old(self).ready(),
        ensures
            final(self).ready(),
            final(self).width() == old(self).width(),
            final(self).generator() == old(self).generator(),
            final(self).buckets() == old(self).buckets(),
            final(self).accesses() == old(self).accesses(),
            r@.len() == pow2(old(self).width()),
            forall|k: int|
                0 <= k < r@.len() ==> Some(#[trigger] r@[k]) == initial_bucket(
                    old(self).generator(),
                    k as nat,
                ) && r@[k].on_curve(),
    ;

    /// The correction as an assigned constant; an error, with nothing laid
    /// out, where it is the neutral element.
    fn correction_point(&mut self, ctx: &mut RegionCtx) -> (r: Result<AssignedPoint, Error>)
        requires
            old(self).ready(),
            old(ctx).wf(),
        ensures
            final(self).ready(),
            final(ctx).wf(),
            final(self).width() == old(self).width(),
            final(self).generator() == old(self).generator(),
            final(self).buckets() == old(self).buckets(),
            final(self).accesses() == old(self).accesses(),
            old(ctx)@.is_prefix_of(final(ctx)@),
            match r {
                Ok(p) => p.point() == correction(old(self).generator(), old(self).width())
                    && p.point().is_some(),
                Err(e) => e == Error::ConstantAtInfinity && correction(
                    old(self).generator(),
                    old(self).width(),
                ).is_none() && final(ctx)@ == old(ctx)@,
            },
    ;

    /// The initial buckets as assigned constants.
    fn initial_buckets(&mut self, ctx: &mut RegionCtx) -> (r: Vec<AssignedPoint>)
        requires
            old(self).ready(),
            old(ctx).wf(),
        ensures
            final(self).ready(),
            final(ctx).wf(),
            final(self).width() == old(self).width(),
            final(self).generator() == old(self).generator(),
            final(self).buckets() == old(self).buckets(),
            final(self).accesses() == old(self).accesses(),
            old(ctx)@.is_prefix_of(final(ctx)@),
            r@.len() == pow2(old(self).width()),
            forall|k: int|
                0 <= k < r@.len() ==> (#[trigger] r@[k]).point() == initial_bucket(
                    old(self).generator(),
                    k as nat,
                ),
    ;

    /// The windows of the scalars, round by round, the most significant
    /// first.
    fn decompose_scalars(&self, scalars: &[Option<Scalar>]) -> (r: Vec<Vec<Value>>)
        requires
            self.ready(),
        ensures
            decomposed(r@, scalars@, self.width()),
    {
        crate::windows::decompose_scalars(self.window(), scalars)
    }
}

/// The rows of a layout of the bucket method, and the method.
pub trait MSMGate: MSMHelper {
    /// The number of queries that the layout takes to read a bucket and
    /// write it again: one where a row holds both, two where it holds one.
    spec fn queries_of_update() -> nat;

    /// The advice columns that the layout works on, in their order.
    spec fn advice_list(&self) -> Seq<Advice>;

    /// The fixed columns that the layout works on, in their order.
    spec fn fixed_list(&self) -> Seq<Fixed>;

    /// The advice columns of the layout.
    fn advice_columns(&self) -> (r: Vec<Advice>)
        requires
            self.ready(),
        ensures
            r@ == self.advice_list(),
    ;

    /// The fixed columns of the layout.
    fn fixed_colmns(&self) -> (r: Vec<Fixed>)
        requires
            self.ready(),
        ensures
            r@ == self.fixed_list(),
    ;

    /// The cell of a constant, assigned once.
    fn get_constant(&mut self, ctx: &mut RegionCtx, scalar: Fe) -> (r: AssignedValue)
        requires
            old(self).ready(),
            old(ctx).wf(),
        ensures
            final(self).ready(),
            final(ctx).wf(),
            final(self).width() == old(self).width(),
            final(self).generator() == old(self).generator(),
            final(self).buckets() == old(self).buckets(),
            final(self).accesses() == old(self).accesses(),
            old(ctx)@.is_prefix_of(final(ctx)@),
            r.value == Some(scalar),
    ;

    /// The assigned point with the constant coordinates of `point`.
    fn get_constant_point(&mut self, ctx: &mut RegionCtx, point: &Point) -> (r: AssignedPoint)
        requires
            old(self).ready(),
            old(ctx).wf(),
            point.on_curve(),
        ensures
            final(self).ready(),
            final(ctx).wf(),
            final(self).width() == old(self).width(),
            final(self).generator() == old(self).generator(),
            final(self).buckets() == old(self).buckets(),
            final(self).accesses() == old(self).accesses(),
            old(ctx)@.is_prefix_of(final(ctx)@),
            r.point() == Some(*point),
    {
        let ghost before = ctx@;
        let x = self.get_constant(ctx, point.x);
        let ghost middle = ctx@;
        let y = self.get_constant(ctx, point.y);
        proof {
            lemma_prefix(before, middle, ctx@);
        }
        AssignedPoint::new(x, y)
    }

    /// Lays out the rows that assign a point and constrain it to the curve.
    fn assign_point(&mut self, ctx: &mut RegionCtx, point: &Option<Point>) -> (r: AssignedPoint)
        requires
            old(self).ready(),
            old(ctx).wf(),
            valid(*point),
        ensures
            final(self).ready(),
            final(ctx).wf(),
            final(self).width() == old(self).width(),
            final(self).generator() == old(self).generator(),
            final(self).buckets() == old(self).buckets(),
            final(self).accesses() == old(self).accesses(),
            old(ctx)@.is_prefix_of(final(ctx)@),
            r.point() == *point,
    ;

    /// Constrains two assigned points to be equal.
    fn equal(&self, ctx: &mut RegionCtx, a: &AssignedPoint, b: &AssignedPoint)
        requires
            old(ctx).wf(),
        ensures
            final(ctx).wf(),
            final(ctx)@ == old(ctx)@ + crate::gate::equal_ops(*a, *b),
    {
        crate::gate::equal(ctx, a, b)
    }

    /// Lays out the rows of the incomplete addition of `a` and `b`.
    fn add(&mut self, ctx: &mut RegionCtx, a: &AssignedPoint, b: &AssignedPoint) -> (r:
        AssignedPoint)
        requires
            old(self).ready(),
            old(ctx).wf(),
        ensures
            final(self).ready(),
            final(ctx).wf(),
            final(self).width() == old(self).width(),
            final(self).generator() == old(self).generator(),
            final(self).buckets() == old(self).buckets(),
            final(self).accesses() == old(self).accesses(),
            old(ctx)@.is_prefix_of(final(ctx)@),
            r.point() == incomplete_add(a.point(), b.point()),
    ;

    /// Reads the bucket at the witnessed `address`, adds `b` to it and writes
    /// the sum back.
    fn rw_add(&mut self, ctx: &mut RegionCtx, address: &Value, b: &AssignedPoint) -> (r:
        AssignedPoint)
        requires
            old(self).ready(),
            old(ctx).wf(),
            *address matches Some(a) ==> old(self).buckets().contains_key(a),
        ensures
            final(self).ready(),
            final(ctx).wf(),
            final(self).width() == old(self).width(),
            final(self).generator() == old(self).generator(),
            old(ctx)@.is_prefix_of(final(ctx)@),
            r.point() == incomplete_add(read_value(old(self).buckets(), *address), b.point()),
            final(self).buckets() == written(old(self).buckets(), *address, r.point()),
            Self::queries_of_update() >= 1,
            grown_by(final(self).accesses(), old(self).accesses(), Self::queries_of_update()),
            final(self).accesses()[old(self).accesses().len() as int].address == *address,
            final(self).accesses()[old(self).accesses().len() as int].read == Some(
                read_value(old(self).buckets(), *address),
            ),
            final(self).accesses().last().address == *address,
            final(self).accesses().last().wrote == Some(r.point()),
    ;

    /// Reads the bucket at the assigned `address` and adds `b` to it. What
    /// the bucket holds afterwards is up to the layout.
    fn read_add(&mut self, ctx: &mut RegionCtx, address: &AssignedValue, b: &AssignedPoint) -> (r:
        AssignedPoint)
        requires
            old(self).ready(),
            old(ctx).wf(),
            address.value matches Some(a) ==> old(self).buckets().contains_key(a),
        ensures
            final(self).ready(),
            final(ctx).wf(),
            final(self).width() == old(self).width(),
            final(self).generator() == old(self).generator(),
            old(ctx)@.is_prefix_of(final(ctx)@),
            r.point() == incomplete_add(
                read_value(old(self).buckets(), address.value),
                b.point(),
            ),
            same_but_at(final(self).buckets(), old(self).buckets(), address.value),
            grown_by(final(self).accesses(), old(self).accesses(), 1),
            final(self).accesses().last().address == address.value,
            final(self).accesses().last().read == Some(
                read_value(old(self).buckets(), address.value),
            ),
    ;

    /// Writes `point` at the assigned `address`.
    fn write_point(&mut self, ctx: &mut RegionCtx, address: &AssignedValue, point: &AssignedPoint)
        requires
            old(self).ready(),
            old(ctx).wf(),
        ensures
            final(self).ready(),
            final(ctx).wf(),
            final(self).width() == old(self).width(),
            final(self).generator() == old(self).generator(),
            old(ctx)@.is_prefix_of(final(ctx)@),
            final(self).buckets() == written(old(self).buckets(), address.value, point.point()),
            grown_by(final(self).accesses(), old(self).accesses(), 1),
            final(self).accesses().last().address == address.value,
            final(self).accesses().last().wrote == Some(point.point()),
    ;

    /// Reads the point at the assigned `address`. What the bucket holds
    /// afterwards is up to the layout.
    fn read_point(&mut self, ctx: &mut RegionCtx, address: &AssignedValue) -> (r: AssignedPoint)
        requires
            old(self).ready(),
            old(ctx).wf(),
            address.value matches Some(a) ==> old(self).buckets().contains_key(a),
        ensures
            final(self).ready(),
            final(ctx).wf(),
            final(self).width() == old(self).width(),
            final(self).generator() == old(self).generator(),
            old(ctx)@.is_prefix_of(final(ctx)@),
            r.point() == read_value(old(self).buckets(), address.value),
            same_but_at(final(self).buckets(), old(self).buckets(), address.value),
            grown_by(final(self).accesses(), old(self).accesses(), 1),
            final(self).accesses().last().address == address.value,
            final(self).accesses().last().read == Some(r.point()),
    ;

    /// Lays out the rows of the doubling of `point`.
    fn dbl(&mut self, ctx: &mut RegionCtx, point: &AssignedPoint) -> (r: AssignedPoint)
        requires
            old(self).ready(),
            old(ctx).wf(),
        ensures
            final(self).ready(),
            final(ctx).wf(),
            final(self).width() == old(self).width(),
            final(self).generator() == old(self).generator(),
            final(self).buckets() == old(self).buckets(),
            final(self).accesses() == old(self).accesses(),
            old(ctx)@.is_prefix_of(final(ctx)@),
            r.point() == incomplete_double(point.point()),
    ;

    /// Lays out the windows of a scalar and returns their cells, the most
    /// significant first.
    fn assign_scalar(&mut self, ctx: &mut RegionCtx, scalar: &Option<Scalar>) -> (r: Vec<
        AssignedValue,
    >)
        requires
            old(self).ready(),
            old(ctx).wf(),
        ensures
            final(self).ready(),
            final(ctx).wf(),
            final(self).width() == old(self).width(),
            final(self).generator() == old(self).generator(),
            final(self).buckets() == old(self).buckets(),
            final(self).accesses() == old(self).accesses(),
            old(ctx)@.is_prefix_of(final(ctx)@),
            r@.len() == number_of_rounds(old(self).width()),
            forall|j: int|
                0 <= j < r@.len() ==> (#[trigger] r@[j]).value == limb_at(
                    *scalar,
                    old(self).width(),
                    number_of_rounds(old(self).width()),
                    j as nat,
                ),
    ;

    /// Lays out a row of zeros in every column.
    fn all_zero(&self, ctx: &mut RegionCtx)
        requires
            self.ready(),
            old(ctx).wf(),
        ensures
            final(ctx).wf(),
            old(ctx)@.is_prefix_of(final(ctx)@),
            crate::region::rows(final(ctx)@) == crate::region::rows(old(ctx)@) + 1,
    ;

    /// The steps are those of the region of the sorted trace: a row of
    /// zeros, then the queries of the memory, each with its time stamp, in
    /// the order of their addresses and, at one address, of their time
    /// stamps; rows of unknown witnesses where a query is unknown. There
    /// are none where the layout has no rows for the sorted trace.
    spec fn sorted_layout(&self, ops: Option<Seq<Op>>) -> bool;

    /// The region of the sorted trace, where the layout has rows for it.
    fn layout_sorted_rw(&self) -> (r: Option<RegionCtx>)
        requires
            self.ready(),
        ensures
            r matches Some(ctx) ==> ctx.wf(),
            self.sorted_layout(crate::msm_var::bucket::layout::steps(r)),
    ;

    /// The values of the range table: every window, from zero up.
    fn layout_range_table(&self) -> (r: Vec<Fe>)
        requires
            self.ready(),
        ensures
            r@.len() == pow2(self.width()),
            forall|i: int| 0 <= i < r@.len() ==> r@[i] == word(i as nat),
    ;

    /// Writes the initial buckets into the memory: one write for each
    /// bucket, in the order of the addresses.
    fn reset_buckets(&mut self, ctx: &mut RegionCtx)
        requires
            old(self).ready(),
            old(ctx).wf(),
        ensures
            final(self).ready(),
            final(ctx).wf(),
            final(self).width() == old(self).width(),
            final(self).generator() == old(self).generator(),
            old(ctx)@.is_prefix_of(final(ctx)@),
            grown_by(final(self).accesses(), old(self).accesses(), pow2(old(self).width())),
            writes_buckets(
                final(self).accesses(),
                old(self).accesses().len(),
                old(self).generator(),
                pow2(old(self).width()),
            ),
            has_buckets(final(self).buckets(), pow2(old(self).width())),
            buckets_of(final(self).buckets(), pow2(old(self).width())) == fresh(
                old(self).generator(),
                pow2(old(self).width()),
            ),
    {
        let ghost w = self.width();
        let ghost m = pow2(w);
        let ghost aux = self.generator();
        let ghost c0 = ctx@;
        let ghost log = self.accesses();
        let _window = self.window();
        let buckets = self.initial_buckets(ctx);
        let mut k: usize = 0;
        proof {
            lemma_u64_pow2_no_overflow(w);
            assert(log.subrange(0, log.len() as int) =~= log);
        }
        while k < buckets.len()
            invariant
                k <= buckets@.len(),
                buckets@.len() == m,
                m == pow2(w),
                m <= u64::MAX,
                w == self.width(),
                aux == self.generator(),
                self.ready(),
                ctx.wf(),
                old(ctx)@.is_prefix_of(ctx@),
                grown_by(self.accesses(), log, k as nat),
                writes_buckets(self.accesses(), log.len(), aux, k as nat),
                forall|i: int|
                    0 <= i < buckets@.len() ==> (#[trigger] buckets@[i]).point() == initial_bucket(
                        aux,
                        i as nat,
                    ),
                forall|i: nat|
                    i < k ==> self.buckets().contains_key(#[trigger] word(i)) && self.buckets()[word(
                        i,
                    )] == initial_bucket(aux, i),
            decreases buckets@.len() - k,
        {
            let ghost c1 = ctx@;
            let ghost state = self.buckets();
            let ghost before = self.accesses();
            let address = self.get_constant(ctx, Fe::from_u64(k as u64));
            let ghost c2 = ctx@;
            self.write_point(ctx, &address, &buckets[k]);
            proof {
                lemma_prefix(c1, c2, ctx@);
                lemma_prefix(old(ctx)@, c1, ctx@);
                assert(address.value == Some(word(k as nat)));
                lemma_grown(self.accesses(), before, log, 1, k as nat);
                assert(self.accesses().last() == self.accesses()[log.len() + k]);
                assert forall|i: nat| i < k + 1 implies self.buckets().contains_key(
                    #[trigger] word(i),
                ) && self.buckets()[word(i)] == initial_bucket(aux, i) by {
                    if i < k {
                        assert(state.contains_key(word(i)));
                        assert(word(i) != word(k as nat));
                    }
                }
            }
            k = k + 1;
        }
        proof {
            assert(buckets_of(self.buckets(), m) =~= fresh(aux, m));
        }
    }

    /// Adds each point into the bucket that its window of the round names.
    fn accumulate(
        &mut self,
        ctx: &mut RegionCtx,
        points: &[AssignedPoint],
        scalars: &[Option<Scalar>],
        limbs: &Vec<Vec<Value>>,
        round: usize,
    )
        requires
            old(self).ready(),
            old(ctx).wf(),
            points@.len() == scalars@.len(),
            decomposed(limbs@, scalars@, old(self).width()),
            round < number_of_rounds(old(self).width()),
            has_buckets(old(self).buckets(), pow2(old(self).width())),
        ensures
            final(self).ready(),
            final(ctx).wf(),
            final(self).width() == old(self).width(),
            final(self).generator() == old(self).generator(),
            old(ctx)@.is_prefix_of(final(ctx)@),
            has_buckets(final(self).buckets(), pow2(old(self).width())),
            buckets_of(final(self).buckets(), pow2(old(self).width())) == accumulated(
                buckets_of(old(self).buckets(), pow2(old(self).width())),
                point_values(points@),
                column(scalars@, old(self).width(), round as int),
                points@.len(),
            ),
            points@.len() > 0 ==> Self::queries_of_update() >= 1,
            grown_by(
                final(self).accesses(),
                old(self).accesses(),
                points@.len() * Self::queries_of_update(),
            ),
            updates_buckets(
                final(self).accesses(),
                old(self).accesses().len(),
                Self::queries_of_update(),
                buckets_of(old(self).buckets(), pow2(old(self).width())),
                point_values(points@),
                column(scalars@, old(self).width(), round as int),
                points@.len(),
            ),
    {
        let ghost w = self.width();
        let ghost m = pow2(w);
        let ghost start = buckets_of(self.buckets(), m);
        let ghost values = point_values(points@);
        let ghost col = column(scalars@, w, round as int);
        let ghost aux = self.generator();
        let _window = self.window();
        let ghost log = self.accesses();
        let ghost u = Self::queries_of_update();
        let mut i: usize = 0;
        proof {
            lemma_prefix(ctx@, ctx@, ctx@);
            assert(log.subrange(0, log.len() as int) =~= log);
            assert(0 * u == 0) by (nonlinear_arith);
        }
        while i < points.len()
            invariant
                i <= points@.len(),
                points@.len() == scalars@.len(),
                u == Self::queries_of_update(),
                i > 0 ==> u >= 1,
                grown_by(self.accesses(), log, (i * u) as nat),
                updates_buckets(self.accesses(), log.len(), u, start, values, col, i as nat),
                w == self.width(),
                aux == self.generator(),
                m == pow2(w),
                1 <= w < 64,
                values == point_values(points@),
                col == column(scalars@, w, round as int),
                decomposed(limbs@, scalars@, w),
                round < number_of_rounds(w),
                self.ready(),
                ctx.wf(),
                old(ctx)@.is_prefix_of(ctx@),
                has_buckets(self.buckets(), m),
                buckets_of(self.buckets(), m) == accumulated(start, values, col, i as nat),
                start.len() == m,
            decreases points@.len() - i,
        {
            let ghost before = ctx@;
            let ghost state = self.buckets();
            let limb = limbs[i][round];
            proof {
                assert(limbs@[i as int]@[round as int] == limb_at(
                    scalars@[i as int],
                    w,
                    number_of_rounds(w),
                    round as nat,
                ));
                assert(limb == col[i as int]);
                if let Some(s) = scalars@[i as int] {
                    lemma_window_bound(s@, w, (number_of_rounds(w) - 1 - round) as nat);
                    lemma_u64_pow2_no_overflow(w);
                    assert(is_bucket(limb.unwrap(), m));
                    lemma_bucket_written(
                        state,
                        m,
                        limb.unwrap(),
                        incomplete_add(state[limb.unwrap()], values[i as int]),
                    );
                    assert(state.contains_key(word(limb.unwrap().l0 as nat)));
                }
            }
            let ghost earlier = self.accesses();
            self.rw_add(ctx, &limb, &points[i]);
            proof {
                lemma_prefix(old(ctx)@, before, ctx@);
                let now = self.accesses();
                assert(i * u + u == (i + 1) * u) by (nonlinear_arith);
                assert(0 <= i * u) by (nonlinear_arith);
                lemma_grown(now, earlier, log, u, (i * u) as nat);
                lemma_updates_kept(now, earlier, log.len(), u, start, values, col, i as nat);
                assert(earlier.len() == log.len() + i * u);
                assert(now.last() == now[log.len() + i * u + u - 1]);
                assert(read_value(state, limb) == bucket_at(
                    accumulated(start, values, col, i as nat),
                    limb,
                )) by {
                    if let Some(a) = limb {
                        assert(a == word(a.l0 as nat));
                        assert(buckets_of(state, m)[a.l0 as int] == state[word(a.l0 as nat)]);
                    }
                }
                assert(updated(now, log.len(), u, start, values, col, i as nat));
            }
            i = i + 1;
        }
    }

    /// Sums the buckets with their indices as weights: the running sum of
    /// the buckets from the last one down, summed in turn. The bucket of
    /// index zero is read too and goes into nothing: every bucket is read
    /// once, from the last one down.
    fn aggregate(&mut self, ctx: &mut RegionCtx) -> (r: AssignedPoint)
        requires
            old(self).ready(),
            old(ctx).wf(),
            has_buckets(old(self).buckets(), pow2(old(self).width())),
        ensures
            final(self).ready(),
            final(ctx).wf(),
            final(self).width() == old(self).width(),
            final(self).generator() == old(self).generator(),
            old(ctx)@.is_prefix_of(final(ctx)@),
            grown_by(final(self).accesses(), old(self).accesses(), pow2(old(self).width())),
            reads_buckets(
                final(self).accesses(),
                old(self).accesses().len(),
                buckets_of(old(self).buckets(), pow2(old(self).width())),
                pow2(old(self).width()),
            ),
            r.point() == aggregated(buckets_of(old(self).buckets(), pow2(old(self).width())), 1),
    {
        let ghost w = self.width();
        let ghost m = pow2(w);
        let ghost buckets = buckets_of(self.buckets(), m);
        let ghost aux = self.generator();
        let size = number_of_buckets(self.window());
        proof {
            lemma_pow2_strictly_increases(0, w);
            lemma2_to64();
            lemma_u64_pow2_no_overflow(w);
            lemma_prefix(ctx@, ctx@, ctx@);
            assert(self.buckets().contains_key(word((m - 1) as nat)));
        }
        let ghost c0 = ctx@;
        let ghost log = self.accesses();
        let last = self.get_constant(ctx, Fe::from_u64(size - 1));
        let ghost c1 = ctx@;
        let mut inner_acc = self.read_point(ctx, &last);
        let mut sum = inner_acc;
        let mut i: u64 = size - 1;
        proof {
            lemma_prefix(c0, c1, ctx@);
            assert(last.value == Some(word((m - 1) as nat)));
            assert(self.accesses().last() == self.accesses()[log.len() as int]);
        }
        while i > 1
            invariant
                1 <= i <= m - 1,
                grown_by(self.accesses(), log, (m - i) as nat),
                reads_buckets(self.accesses(), log.len(), buckets, (m - i) as nat),
                m == pow2(w),
                m <= u64::MAX,
                w == self.width(),
                aux == self.generator(),
                self.ready(),
                ctx.wf(),
                old(ctx)@.is_prefix_of(ctx@),
                buckets.len() == m,
                forall|k: nat|
                    k < i ==> self.buckets().contains_key(#[trigger] word(k))
                        && self.buckets()[word(k)] == buckets[k as int],
                sum.point() == running_sum(buckets, i as nat),
                inner_acc.point() == aggregated(buckets, i as nat),
            decreases i,
        {
            i = i - 1;
            let ghost c2 = ctx@;
            let ghost state = self.buckets();
            let ghost before = self.accesses();
            let address = self.get_constant(ctx, Fe::from_u64(i));
            let ghost c3 = ctx@;
            proof {
                assert(self.buckets().contains_key(word(i as nat)));
                assert(address.value == Some(word(i as nat)));
            }
            sum = self.read_add(ctx, &address, &sum);
            let ghost c4 = ctx@;
            inner_acc = self.add(ctx, &sum, &inner_acc);
            proof {
                lemma_grown(self.accesses(), before, log, 1, (m - 1 - i) as nat);
                assert(self.accesses().last() == self.accesses()[log.len() + (m - 1 - i)]);
                lemma_prefix(c2, c3, c4);
                lemma_prefix(c2, c4, ctx@);
                lemma_prefix(old(ctx)@, c2, ctx@);
                assert forall|k: nat| k < i implies self.buckets().contains_key(
                    #[trigger] word(k),
                ) && self.buckets()[word(k)] == buckets[k as int] by {
                    assert(state.contains_key(word(k)));
                    assert(Some(word(k)) != address.value);
                }
            }
        }
        let ghost c5 = ctx@;
        let ghost before = self.accesses();
        let address = self.get_constant(ctx, Fe::zero());
        let ghost c6 = ctx@;
        proof {
            assert(self.buckets().contains_key(word(0)));
            assert(address.value == Some(word(0)));
        }
        let _unused = self.read_point(ctx, &address);
        proof {
            lemma_grown(self.accesses(), before, log, 1, (m - 1) as nat);
            assert(self.accesses().last() == self.accesses()[log.len() + (m - 1)]);
            lemma_prefix(c5, c6, ctx@);
            lemma_prefix(old(ctx)@, c5, ctx@);
        }
        inner_acc
    }

    /// Lays out the multiplication of the assigned points by the scalars and
    /// returns the assigned result: the accumulator of the last round with
    /// the correction added. Fails where the correction is the neutral
    /// element.
    fn msm(
        &mut self,
        ctx: &mut RegionCtx,
        points: &[AssignedPoint],
        scalars: &[Option<Scalar>],
    ) -> (r: Result<AssignedPoint, Error>)
        requires
            old(self).ready(),
            old(ctx).wf(),
            points@.len() > 0,
            points@.len() == scalars@.len(),
        ensures
            final(self).ready(),
            final(ctx).wf(),
            final(self).width() == old(self).width(),
            final(self).generator() == old(self).generator(),
            old(ctx)@.is_prefix_of(final(ctx)@),
            r.is_ok() <==> correction(old(self).generator(), old(self).width()).is_some(),
            r matches Ok(p) ==> p.point() == bucket_msm(
                old(self).generator(),
                old(self).width(),
                point_values(points@),
                scalars@,
            ),
            grown_by(
                final(self).accesses(),
                old(self).accesses(),
                number_of_rounds(old(self).width()) * queries_of_round(
                    old(self).width(),
                    points@.len(),
                    Self::queries_of_update(),
                ),
            ),
            forall|j: nat|
                j < number_of_rounds(old(self).width()) ==> #[trigger] recorded(
                    final(self).accesses(),
                    old(self).accesses().len(),
                    Self::queries_of_update(),
                    old(self).generator(),
                    old(self).width(),
                    point_values(points@),
                    scalars@,
                    j,
                ),
    {
        let ghost aux = self.generator();
        let ghost w = self.width();
        let ghost values = point_values(points@);
        let ghost log = self.accesses();
        let ghost u = Self::queries_of_update();
        let ghost q = queries_of_round(w, points@.len(), u);
        proof {
            assert(log.subrange(0, log.len() as int) =~= log);
            assert(0 * q == 0) by (nonlinear_arith);
        }
        proof {
            lemma_prefix(ctx@, ctx@, ctx@);
        }
        let window = self.window();
        let count = rounds(window);
        let limbs = self.decompose_scalars(scalars);
        let mut acc: Option<AssignedPoint> = None;
        let mut round: usize = 0;
        while round < count
            invariant
                round <= count,
                count == number_of_rounds(w),
                1 <= count,
                points@.len() > 0,
                points@.len() == scalars@.len(),
                values == point_values(points@),
                decomposed(limbs@, scalars@, w),
                w == self.width(),
                window == w,
                aux == self.generator(),
                self.ready(),
                ctx.wf(),
                old(ctx)@.is_prefix_of(ctx@),
                round > 0 ==> acc.is_some() && acc.unwrap().point() == accumulator(
                    aux,
                    w,
                    values,
                    scalars@,
                    round - 1,
                ),
                u == Self::queries_of_update(),
                q == queries_of_round(w, points@.len(), u),
                grown_by(self.accesses(), log, (round * q) as nat),
                forall|j: nat|
                    j < round ==> #[trigger] recorded(
                        self.accesses(),
                        log.len(),
                        u,
                        aux,
                        w,
                        values,
                        scalars@,
                        j,
                    ),
            decreases count - round,
        {
            let ghost c0 = ctx@;
            let ghost l0 = self.accesses();
            let mut shifted = acc;
            if round != 0 {
                let mut point = acc.unwrap();
                let mut k: usize = 0;
                while k < window
                    invariant
                        k <= window,
                        w == self.width(),
                        aux == self.generator(),
                        self.ready(),
                        ctx.wf(),
                        c0.is_prefix_of(ctx@),
                        self.accesses() == l0,
                        acc.is_some(),
                        point.point() == doubled(acc.unwrap().point(), k as nat),
                    decreases window - k,
                {
                    let ghost c = ctx@;
                    point = self.dbl(ctx, &point);
                    proof {
                        lemma_prefix(c0, c, ctx@);
                    }
                    k = k + 1;
                }
                shifted = Some(point);
            }
            let ghost c1 = ctx@;
            self.reset_buckets(ctx);
            let ghost c2 = ctx@;
            let ghost l1 = self.accesses();
            self.accumulate(ctx, points, scalars, &limbs, round);
            let ghost c3 = ctx@;
            let ghost l2 = self.accesses();
            let inner = self.aggregate(ctx);
            let ghost c4 = ctx@;
            proof {
                lemma_prefix(c1, c2, c3);
                lemma_prefix(c1, c3, c4);
                lemma_prefix(c0, c1, c4);
                lemma_prefix(old(ctx)@, c0, c4);
                assert(inner.point() == round_value(aux, w, values, scalars@, round as int));
                let l3 = self.accesses();
                let m = pow2(w);
                let n = points@.len();
                let col = column(scalars@, w, round as int);
                let at = (log.len() + round * q) as nat;
                assert(0 <= round * q) by (nonlinear_arith)
                    requires
                        round >= 0,
                        q >= 0,
                ;
                assert(0 <= n * u) by (nonlinear_arith)
                    requires
                        n >= 0,
                        u >= 0,
                ;
                assert(round * q + q == (round + 1) * q) by (nonlinear_arith);
                lemma_grown(l2, l1, l0, (n * u) as nat, m);
                lemma_grown(l3, l2, l0, m, (m + n * u) as nat);
                lemma_grown(l3, l0, log, q, (round * q) as nat);
                assert(l1.is_prefix_of(l3)) by {
                    lemma_grown(l3, l2, l1, m, (n * u) as nat);
                }
                lemma_writes_kept(l3, l1, at, aux, m);
                lemma_updates_kept(l3, l2, at + m, u, fresh(aux, m), values, col, n);
                assert(round_recorded(l3, at, u, aux, w, values, col));
                assert forall|j: nat| j < round + 1 implies #[trigger] recorded(
                    l3,
                    log.len(),
                    u,
                    aux,
                    w,
                    values,
                    scalars@,
                    j,
                ) by {
                    if j < round {
                        assert(recorded(l0, log.len(), u, aux, w, values, scalars@, j));
                        assert(j * q + q <= round * q) by (nonlinear_arith)
                            requires
                                j < round,
                                q >= 0,
                        ;
                        assert(0 <= j * q) by (nonlinear_arith)
                            requires
                                j >= 0,
                                q >= 0,
                        ;
                        lemma_round_kept(
                            l3,
                            l0,
                            (log.len() + j * q) as nat,
                            u,
                            aux,
                            w,
                            values,
                            column(scalars@, w, j as int),
                        );
                    }
                }
            }
            acc = if round == 0 {
                Some(inner)
            } else {
                let sum = self.add(ctx, &inner, &shifted.unwrap());
                proof {
                    lemma_prefix(old(ctx)@, c4, ctx@);
                }
                Some(sum)
            };
            round = round + 1;
        }
        let ghost c5 = ctx@;
        match self.correction_point(ctx) {
            Ok(correction_point) => {
                let ghost c6 = ctx@;
                let r = self.add(ctx, &acc.unwrap(), &correction_point);
                proof {
                    lemma_prefix(c5, c6, ctx@);
                    lemma_prefix(old(ctx)@, c5, ctx@);
                }
                Ok(r)
            },
            Err(e) => Err(e),
        }
    }
}

} // verus!
