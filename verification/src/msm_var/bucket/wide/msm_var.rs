//! The wide layout as a layout of the bucket method, and the multiplication
//! on it.

use super::assignments::{
    add_ops, assign_point_ops, double_ops, query_add_ops, query_ops, read_shown,
};
use super::config::MSMGate;
use crate::gate::{wide_all_zero_ops, Columns, WideColumns};
use super::rw::SortedQuery;
use crate::curve::Point;
use crate::error::Error;
use crate::field::Fe;
use crate::gate::{coord_x, coord_y, zero, zero_advice};
use crate::msm_var::bucket::assignments::read_value;
use crate::msm_var::bucket::instructions::{
    grown_by, queries_of_round, recorded, Access, MSMHelper,
};
use crate::msm_var::bucket::layout::{assign_windows, limb_rows};
use crate::msm_var::bucket::msm::{
    bucket_msm, correction, correction_of, initial_bucket, initial_points,
};
use crate::region::{
    lemma_prefix, point_of, rows, Advice, AssignedPoint, AssignedValue, Column, Fixed, Op,
    RegionCtx, Selector, Value,
};
use crate::scalar::Scalar;
use crate::windows::{copy_points, number_of_rounds, point_values, word};
use vstd::prelude::*;

verus! {

/// The row of an entry of the sorted trace: address, what was read, what
/// was written, and the timestamp.
pub open spec fn sorted_row(c: WideColumns, q: Option<SortedQuery>) -> Seq<Op> {
    seq![
        Op::Enable(Selector::Sorted),
        Op::Advice(
            c.a0,
            match q {
                Some(q) => Some(q.address),
                None => None,
            },
        ),
        Op::Advice(
            c.a1,
            match q {
                Some(q) => Some(q.x0),
                None => None,
            },
        ),
        Op::Advice(
            c.a2,
            match q {
                Some(q) => Some(q.y0),
                None => None,
            },
        ),
        Op::Advice(
            c.a3,
            match q {
                Some(q) => Some(q.x1),
                None => None,
            },
        ),
        Op::Advice(
            c.a4,
            match q {
                Some(q) => Some(q.y1),
                None => None,
            },
        ),
        Op::Advice(
            c.a5,
            match q {
                Some(q) => Some(word(q.timestamp as nat)),
                None => None,
            },
        ),
        zero_advice(c.a6),
        zero_advice(c.a7),
        zero_advice(c.a8),
        Op::Fixed(c.constant, zero()),
        Op::Next,
    ]
}

/// The five advice columns that the windows of a scalar are laid into, with
/// the fixed column.
pub open spec fn first_five(c: WideColumns) -> Columns {
    Columns { a0: c.a0, a1: c.a1, a2: c.a2, a3: c.a3, a4: c.a4, constant: c.constant }
}

/// The entry of a sorted trace at a position, where the trace is known.
pub open spec fn entry(trace: Option<Seq<SortedQuery>>, i: int) -> Option<SortedQuery> {
    match trace {
        Some(t) => Some(t[i]),
        None => None,
    }
}

/// The region of the sorted trace: a row of zeros, then the first `n`
/// entries.
pub open spec fn sorted_rows(c: WideColumns, trace: Option<Seq<SortedQuery>>, n: nat) -> Seq<Op>
    decreases n,
{
    if n == 0 {
        wide_all_zero_ops(c)
    } else {
        sorted_rows(c, trace, (n - 1) as nat) + sorted_row(c, entry(trace, n - 1))
    }
}

/// Lays out the row of one entry of the sorted trace.
fn sorted_entry(c: &WideColumns, ctx: &mut RegionCtx, q: &Option<SortedQuery>)
    requires
        old(ctx).wf(),
    ensures
        final(ctx).wf(),
        final(ctx)@ == old(ctx)@ + sorted_row(*c, *q),
        rows(final(ctx)@) == rows(old(ctx)@) + 1,
{
    ctx.enable(Selector::Sorted);
    let (address, x0, y0, x1, y1, timestamp) = match q {
        Some(q) => (
            Some(q.address),
            Some(q.x0),
            Some(q.y0),
            Some(q.x1),
            Some(q.y1),
            Some(Fe::from_u64(q.timestamp as u64)),
        ),
        None => (None, None, None, None, None, None),
    };
    ctx.advice(c.a0, address);
    ctx.advice(c.a1, x0);
    ctx.advice(c.a2, y0);
    ctx.advice(c.a3, x1);
    ctx.advice(c.a4, y1);
    ctx.advice(c.a5, timestamp);
    ctx.empty(Column::Advice(c.a6));
    ctx.empty(Column::Advice(c.a7));
    ctx.empty(Column::Advice(c.a8));
    ctx.fixed(c.constant, Fe::zero());
    ctx.next();
    assert(ctx@ =~= old(ctx)@ + sorted_row(*c, *q));
}

/// What a query of the wide layout shows: each reads what the address
/// held, zeros where it held nothing, and writes in its place.
pub open spec fn access_of(q: super::rw::Query) -> Access {
    Access {
        address: q.address,
        read: Some(point_of(q.x0, q.y0)),
        wrote: Some(point_of(q.x1, q.y1)),
    }
}

impl MSMHelper for MSMGate {
    open spec fn accesses(&self) -> Seq<Access> {
        Seq::new(self.memory.trace().len(), |t: int| access_of(self.memory.trace()[t]))
    }

    open spec fn width(&self) -> nat {
        self.window as nat
    }

    open spec fn generator(&self) -> Point {
        self.aux_generator
    }

    open spec fn buckets(&self) -> Map<Fe, Option<Point>> {
        self.memory.points()
    }

    open spec fn ready(&self) -> bool {
        self.wf() && self.cached()
    }

    fn window(&self) -> (r: usize) {
        self.window
    }

    fn gen_initial_buckets(&mut self) -> (r: Vec<Point>)
        ensures
            final(self).initial_buckets matches Some(v) && v@ == r@,
            old(self).initial_buckets.is_some() ==> final(self).initial_buckets == old(
                self,
            ).initial_buckets,
            final(self).correction_point == old(self).correction_point,
            final(self).constants == old(self).constants,
            final(self).memory == old(self).memory,
    {
        if let Some(buckets) = &self.initial_buckets {
            return copy_points(buckets);
        }
        let buckets = initial_points(&self.aux_generator, self.window);
        let r = copy_points(&buckets);
        self.initial_buckets = Some(buckets);
        r
    }

    fn correction_point(&mut self, ctx: &mut RegionCtx) -> (r: Result<AssignedPoint, Error>)
        ensures
            r matches Ok(p) ==> final(self).correction_point == p.point(),
            old(self).correction_point.is_some() ==> final(self).correction_point == old(
                self,
            ).correction_point && final(self).initial_buckets == old(self).initial_buckets,
    {
        proof {
            lemma_prefix(ctx@, ctx@, ctx@);
        }
        let point = match self.correction_point {
            Some(p) => p,
            None => {
                let buckets = self.gen_initial_buckets();
                match correction_of(&self.aux_generator, self.window, &buckets) {
                    Some(p) => {
                        self.correction_point = Some(p);
                        p
                    },
                    None => {
                        return Err(Error::ConstantAtInfinity);
                    },
                }
            },
        };
        Ok(MSMGate::get_constant_point(self, ctx, &point))
    }

    fn initial_buckets(&mut self, ctx: &mut RegionCtx) -> (r: Vec<AssignedPoint>) {
        let buckets = self.gen_initial_buckets();
        let mut r: Vec<AssignedPoint> = Vec::new();
        let mut k: usize = 0;
        proof {
            lemma_prefix(ctx@, ctx@, ctx@);
        }
        while k < buckets.len()
            invariant
                k <= buckets@.len(),
                self.wf(),
                self.cached(),
                ctx.wf(),
                self.window == old(self).window,
                self.aux_generator == old(self).aux_generator,
                self.memory.points() == old(self).memory.points(),
                self.memory.trace() == old(self).memory.trace(),
                old(ctx)@.is_prefix_of(ctx@),
                r@.len() == k,
                forall|i: int|
                    0 <= i < buckets@.len() ==> Some(#[trigger] buckets@[i]) == initial_bucket(
                        old(self).aux_generator,
                        i as nat,
                    ) && buckets@[i].on_curve(),
                forall|i: int|
                    0 <= i < k ==> (#[trigger] r@[i]).point() == initial_bucket(
                        old(self).aux_generator,
                        i as nat,
                    ),
            decreases buckets@.len() - k,
        {
            let ghost before = ctx@;
            let point = MSMGate::get_constant_point(self, ctx, &buckets[k]);
            proof {
                lemma_prefix(old(ctx)@, before, ctx@);
            }
            r.push(point);
            k = k + 1;
        }
        r
    }
}

impl crate::msm_var::bucket::instructions::MSMGate for MSMGate {
    open spec fn queries_of_update() -> nat {
        1
    }

    open spec fn advice_list(&self) -> Seq<Advice> {
        seq![
            self.columns.a0,
            self.columns.a1,
            self.columns.a2,
            self.columns.a3,
            self.columns.a4,
            self.columns.a5,
            self.columns.a6,
            self.columns.a7,
            self.columns.a8,
        ]
    }

    open spec fn fixed_list(&self) -> Seq<Fixed> {
        seq![self.columns.constant]
    }

    fn advice_columns(&self) -> (r: Vec<Advice>) {
        let c = self.columns;
        let mut r = Vec::new();
        r.push(c.a0);
        r.push(c.a1);
        r.push(c.a2);
        r.push(c.a3);
        r.push(c.a4);
        r.push(c.a5);
        r.push(c.a6);
        r.push(c.a7);
        r.push(c.a8);
        assert(r@ =~= self.advice_list());
        r
    }

    fn fixed_colmns(&self) -> (r: Vec<Fixed>) {
        let mut r = Vec::new();
        r.push(self.columns.constant);
        assert(r@ =~= self.fixed_list());
        r
    }

    fn get_constant(&mut self, ctx: &mut RegionCtx, scalar: Fe) -> (r: AssignedValue) {
        MSMGate::get_constant(self, ctx, scalar)
    }

    fn assign_point(&mut self, ctx: &mut RegionCtx, point: &Option<Point>) -> (r: AssignedPoint) {
        let r = MSMGate::assign_point(self, ctx, point);
        proof {
            lemma_prefix(old(ctx)@, assign_point_ops(self.columns, *point), ctx@);
        }
        r
    }

    fn add(&mut self, ctx: &mut RegionCtx, a: &AssignedPoint, b: &AssignedPoint) -> (r:
        AssignedPoint) {
        let r = MSMGate::add(self, ctx, a, b);
        proof {
            lemma_prefix(old(ctx)@, add_ops(self.columns, *a, *b), ctx@);
        }
        r
    }

    fn rw_add(&mut self, ctx: &mut RegionCtx, address: &Value, b: &AssignedPoint) -> (r:
        AssignedPoint) {
        let r = MSMGate::rw_add(self, ctx, address, b);
        proof {
            lemma_prefix(old(ctx)@, query_add_ops(
                self.columns,
                old(self).memory.trace().len(),
                Op::Advice(self.columns.a0, *address),
                read_value(old(self).memory.points(), *address),
                *b,
            ), ctx@);
        }
        r
    }

    fn read_add(&mut self, ctx: &mut RegionCtx, address: &AssignedValue, b: &AssignedPoint) -> (r:
        AssignedPoint) {
        let r = MSMGate::read_add(self, ctx, address, b);
        proof {
            lemma_prefix(old(ctx)@, query_add_ops(
                self.columns,
                old(self).memory.trace().len(),
                Op::Copy(self.columns.a0, address.cell, address.value),
                read_value(old(self).memory.points(), address.value),
                *b,
            ), ctx@);
        }
        r
    }

    fn write_point(&mut self, ctx: &mut RegionCtx, address: &AssignedValue, point: &AssignedPoint) {
        MSMGate::write_point(self, ctx, address, point);
        proof {
            lemma_prefix(old(ctx)@, query_ops(
                self.columns,
                old(self).memory.trace().len(),
                true,
                *address,
                read_shown(old(self).memory.state(), address.value),
                (coord_x(point.point()), coord_y(point.point())),
            ), ctx@);
        }
    }

    fn read_point(&mut self, ctx: &mut RegionCtx, address: &AssignedValue) -> (r: AssignedPoint) {
        let r = MSMGate::read_point(self, ctx, address);
        proof {
            lemma_prefix(old(ctx)@, query_ops(
                self.columns,
                old(self).memory.trace().len(),
                false,
                *address,
                (coord_x(r.point()), coord_y(r.point())),
                (Some(zero()), Some(zero())),
            ), ctx@);
        }
        r
    }

    fn dbl(&mut self, ctx: &mut RegionCtx, point: &AssignedPoint) -> (r: AssignedPoint) {
        let r = MSMGate::dbl(self, ctx, point);
        proof {
            lemma_prefix(old(ctx)@, double_ops(self.columns, *point), ctx@);
        }
        r
    }

    fn assign_scalar(&mut self, ctx: &mut RegionCtx, scalar: &Option<Scalar>) -> (r: Vec<
        AssignedValue,
    >)
        ensures
            ({
                let (cache, ops) = crate::gate::wide_constant_step(
                    old(self).columns,
                    old(self).constants@,
                    old(ctx)@,
                    zero(),
                );
                &&& final(self).constants@ == cache
                &&& final(ctx)@ == ops + limb_rows(
                    first_five(old(self).columns),
                    *scalar,
                    old(self).window as nat,
                    cache[zero()],
                    (number_of_rounds(old(self).window as nat) + 4) / 5,
                )
            }),
    {
        let c = self.columns;
        let window = self.window;
        let zero_cell = MSMGate::get_constant(self, ctx, Fe::zero());
        let five = Columns { a0: c.a0, a1: c.a1, a2: c.a2, a3: c.a3, a4: c.a4, constant: c.constant };
        let ghost middle = ctx@;
        let r = assign_windows(&five, ctx, &zero_cell, window, scalar);
        proof {
            lemma_prefix(
                middle,
                limb_rows(
                    five,
                    *scalar,
                    window as nat,
                    zero_cell,
                    (number_of_rounds(window as nat) + 4) / 5,
                ),
                ctx@,
            );
            lemma_prefix(old(ctx)@, middle, ctx@);
        }
        r
    }

    fn all_zero(&self, ctx: &mut RegionCtx)
        ensures
            final(ctx)@ == old(ctx)@ + wide_all_zero_ops(self.columns),
    {
        crate::gate::wide_all_zero(&self.columns, ctx)
    }

    open spec fn sorted_layout(&self, ops: Option<Seq<Op>>) -> bool {
        ops.is_some() && exists|trace: Option<Seq<SortedQuery>>|
            {
                &&& trace.is_some() == super::rw::all_known(self.memory.trace())
                &&& trace matches Some(t) ==> t.to_multiset() == super::rw::timestamped(
                    self.memory.trace(),
                ).to_multiset() && super::rw::ordered(t)
                &&& #[trigger] sorted_rows(self.columns, trace, self.memory.trace().len())
                    == ops.unwrap()
            }
    }

    fn layout_sorted_rw(&self) -> (r: Option<RegionCtx>) {
        let c = self.columns;
        let sorted = self.memory.sort();
        let number_of_queries = self.memory.timestamp();
        let ghost trace: Option<Seq<SortedQuery>> = if sorted.is_some() {
            Some(sorted.unwrap()@)
        } else {
            None
        };
        let mut ctx = RegionCtx::new();
        <MSMGate as crate::msm_var::bucket::instructions::MSMGate>::all_zero(self, &mut ctx);
        let mut i: usize = 0;
        proof {
            assert(ctx@ =~= wide_all_zero_ops(c));
            if sorted.is_some() {
                sorted.unwrap()@.to_multiset_ensures();
                super::rw::timestamped(self.memory.trace()).to_multiset_ensures();
            }
        }
        while i < number_of_queries
            invariant
                i <= number_of_queries,
                ctx.wf(),
                ctx@ == sorted_rows(c, trace, i as nat),
                sorted matches Some(t) ==> trace == Some(t@) && t@.len() == number_of_queries,
                sorted.is_none() ==> trace.is_none(),
            decreases number_of_queries - i,
        {
            let q = match &sorted {
                Some(t) => Some(t[i]),
                None => None,
            };
            sorted_entry(&c, &mut ctx, &q);
            i = i + 1;
        }
        Some(ctx)
    }

    fn layout_range_table(&self) -> (r: Vec<Fe>) {
        MSMGate::layout_range_table(self)
    }
}

impl MSMGate {
    /// Lays out the multiplication of the assigned points by the scalars and
    /// returns the assigned result: the accumulator of the last round with
    /// the correction added. Fails where the correction is the neutral
    /// element.
    pub fn msm_var(
        &mut self,
        ctx: &mut RegionCtx,
        points: &[AssignedPoint],
        scalars: &[Option<Scalar>],
    ) -> (r: Result<AssignedPoint, Error>)
        requires
            old(self).wf(),
            old(self).cached(),
            old(ctx).wf(),
            points@.len() > 0,
            points@.len() == scalars@.len(),
        ensures
            final(self).wf(),
            final(self).cached(),
            final(ctx).wf(),
            final(self).window == old(self).window,
            final(self).aux_generator == old(self).aux_generator,
            old(ctx)@.is_prefix_of(final(ctx)@),
            r.is_ok() <==> correction(old(self).aux_generator, old(self).window as nat).is_some(),
            r matches Ok(p) ==> p.point() == bucket_msm(
                old(self).aux_generator,
                old(self).window as nat,
                point_values(points@),
                scalars@,
            ),
            grown_by(
                final(self).accesses(),
                old(self).accesses(),
                number_of_rounds(old(self).window as nat) * queries_of_round(
                    old(self).window as nat,
                    points@.len(),
                    1,
                ),
            ),
            forall|j: nat|
                j < number_of_rounds(old(self).window as nat) ==> #[trigger] recorded(
                    final(self).accesses(),
                    old(self).accesses().len(),
                    1,
                    old(self).aux_generator,
                    old(self).window as nat,
                    point_values(points@),
                    scalars@,
                    j,
                ),
    {
        <MSMGate as crate::msm_var::bucket::instructions::MSMGate>::msm(self, ctx, points, scalars)
    }
}

} // verus!
