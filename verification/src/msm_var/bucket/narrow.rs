//! The bucket method on five advice columns: a read and a write take a row
//! each.

use super::config::MSMGate;
use super::instructions::{grown_by, queries_of_round, recorded, Access, MSMHelper};
use super::rw::{carried, Query};
use super::layout::sorted_region;
use super::assignments::{read_add_ops, read_point_ops, read_value, rw_add_ops, write_point_ops};
use super::msm::{bucket_msm, correction, initial_bucket};
use crate::curve::Point;
use crate::error::Error;
use crate::field::Fe;
use crate::gate::{add_ops, all_zero_ops, assign_point_ops, double_ops};
use crate::region::{
    lemma_prefix, rows, Advice, AssignedPoint, AssignedValue, Fixed, Op, RegionCtx, Value,
};
use crate::scalar::Scalar;
use crate::windows::{number_of_rounds, point_values};
use vstd::prelude::*;

verus! {

/// What a query of the narrow layout shows: a read shows what it read, and
/// a write what it wrote.
pub open spec fn access_of(q: Query) -> Access {
    Access {
        address: q.address,
        read: if q.is_read {
            Some(carried(q))
        } else {
            None
        },
        wrote: if q.is_read {
            None
        } else {
            Some(carried(q))
        },
    }
}

impl MSMHelper for MSMGate {
    open spec fn accesses(&self) -> Seq<Access> {
        Seq::new(self.memory.trace().len(), |t: int| access_of(self.memory.trace()[t]))
    }

    open spec fn width(&self) -> nat {
        self.window as nat
    }

    open spec fn generator(&self) -> Point {
        self.aux_generator
    }

    open spec fn buckets(&self) -> Map<Fe, Option<Point>> {
        self.memory.state()
    }

    open spec fn ready(&self) -> bool {
        self.wf() && self.cached()
    }

    fn window(&self) -> (r: usize) {
        self.window
    }

    fn gen_initial_buckets(&mut self) -> (r: Vec<Point>) {
        MSMGate::gen_initial_buckets(self)
    }

    fn correction_point(&mut self, ctx: &mut RegionCtx) -> (r: Result<AssignedPoint, Error>) {
        MSMGate::correction_point(self, ctx)
    }

    fn initial_buckets(&mut self, ctx: &mut RegionCtx) -> (r: Vec<AssignedPoint>) {
        let buckets = MSMGate::gen_initial_buckets(self);
        let mut r: Vec<AssignedPoint> = Vec::new();
        let mut k: usize = 0;
        proof {
            lemma_prefix(ctx@, ctx@, ctx@);
        }
        while k < buckets.len()
            invariant
                k <= buckets@.len(),
                self.wf(),
                self.cached(),
                ctx.wf(),
                self.unchanged_but_caches(old(self)),
                self.memory == old(self).memory,
                old(ctx)@.is_prefix_of(ctx@),
                r@.len() == k,
                forall|i: int|
                    0 <= i < buckets@.len() ==> Some(#[trigger] buckets@[i]) == initial_bucket(
                        old(self).aux_generator,
                        i as nat,
                    ) && buckets@[i].on_curve(),
                forall|i: int|
                    0 <= i < k ==> (#[trigger] r@[i]).point() == initial_bucket(
                        old(self).aux_generator,
                        i as nat,
                    ),
            decreases buckets@.len() - k,
        {
            let ghost before = ctx@;
            let point = MSMGate::get_constant_point(self, ctx, &buckets[k]);
            proof {
                lemma_prefix(old(ctx)@, before, ctx@);
            }
            r.push(point);
            k = k + 1;
        }
        r
    }
}

impl super::instructions::MSMGate for MSMGate {
    open spec fn queries_of_update() -> nat {
        2
    }

    open spec fn advice_list(&self) -> Seq<Advice> {
        seq![
            self.columns.a0,
            self.columns.a1,
            self.columns.a2,
            self.columns.a3,
            self.columns.a4,
        ]
    }

    open spec fn fixed_list(&self) -> Seq<Fixed> {
        seq![self.columns.constant]
    }

    fn advice_columns(&self) -> (r: Vec<Advice>) {
        let mut r = Vec::new();
        r.push(self.columns.a0);
        r.push(self.columns.a1);
        r.push(self.columns.a2);
        r.push(self.columns.a3);
        r.push(self.columns.a4);
        assert(r@ =~= self.advice_list());
        r
    }

    fn fixed_colmns(&self) -> (r: Vec<Fixed>) {
        let mut r = Vec::new();
        r.push(self.columns.constant);
        assert(r@ =~= self.fixed_list());
        r
    }

    fn get_constant(&mut self, ctx: &mut RegionCtx, scalar: Fe) -> (r: AssignedValue) {
        MSMGate::get_constant(self, ctx, scalar)
    }

    fn assign_point(&mut self, ctx: &mut RegionCtx, point: &Option<Point>) -> (r: AssignedPoint) {
        let r = MSMGate::assign_point(self, ctx, point);
        proof {
            lemma_prefix(old(ctx)@, assign_point_ops(self.columns, *point), ctx@);
        }
        r
    }

    fn add(&mut self, ctx: &mut RegionCtx, a: &AssignedPoint, b: &AssignedPoint) -> (r:
        AssignedPoint) {
        let r = MSMGate::add(self, ctx, a, b);
        proof {
            lemma_prefix(old(ctx)@, add_ops(self.columns, *a, *b), ctx@);
        }
        r
    }

    fn rw_add(&mut self, ctx: &mut RegionCtx, address: &Value, b: &AssignedPoint) -> (r:
        AssignedPoint) {
        let r = MSMGate::rw_add(self, ctx, address, b);
        proof {
            lemma_prefix(old(ctx)@, rw_add_ops(
                self.columns,
                rows(old(ctx)@),
                old(self).memory.trace().len(),
                *address,
                read_value(old(self).memory.state(), *address),
                *b,
            ), ctx@);
        }
        r
    }

    fn read_add(&mut self, ctx: &mut RegionCtx, address: &AssignedValue, b: &AssignedPoint) -> (r:
        AssignedPoint) {
        let r = MSMGate::read_add(self, ctx, address, b);
        proof {
            lemma_prefix(old(ctx)@, read_add_ops(
                self.columns,
                old(self).memory.trace().len(),
                *address,
                read_value(old(self).memory.state(), address.value),
                *b,
            ), ctx@);
        }
        r
    }

    fn write_point(&mut self, ctx: &mut RegionCtx, address: &AssignedValue, point: &AssignedPoint) {
        MSMGate::write_point(self, ctx, address, point);
        proof {
            lemma_prefix(old(ctx)@, write_point_ops(
                self.columns,
                old(self).memory.trace().len(),
                *address,
                point.point(),
            ), ctx@);
        }
    }

    fn read_point(&mut self, ctx: &mut RegionCtx, address: &AssignedValue) -> (r: AssignedPoint) {
        let r = MSMGate::read_point(self, ctx, address);
        proof {
            lemma_prefix(old(ctx)@, read_point_ops(
                self.columns,
                old(self).memory.trace().len(),
                *address,
                r.point(),
            ), ctx@);
        }
        r
    }

    fn dbl(&mut self, ctx: &mut RegionCtx, point: &AssignedPoint) -> (r: AssignedPoint) {
        let r = MSMGate::double(self, ctx, point);
        proof {
            lemma_prefix(old(ctx)@, double_ops(self.columns, *point), ctx@);
        }
        r
    }

    fn assign_scalar(&mut self, ctx: &mut RegionCtx, scalar: &Option<Scalar>) -> (r: Vec<
        AssignedValue,
    >) {
        let ghost cache = old(self).constants@;
        let r = MSMGate::assign_scalar(self, ctx, scalar);
        proof {
            let (after, ops) = crate::gate::constant_step(
                self.columns,
                cache,
                old(ctx)@,
                crate::gate::zero(),
            );
            lemma_prefix(old(ctx)@, crate::gate::constant_ops(self.columns, crate::gate::zero()), ops);
            lemma_prefix(ops, super::layout::limb_rows(
                self.columns,
                *scalar,
                self.window as nat,
                after[crate::gate::zero()],
                (number_of_rounds(self.window as nat) + 4) / 5,
            ), ctx@);
            lemma_prefix(old(ctx)@, ops, ctx@);
        }
        r
    }

    fn all_zero(&self, ctx: &mut RegionCtx) {
        MSMGate::all_zero(self, ctx);
        proof {
            lemma_prefix(old(ctx)@, all_zero_ops(self.columns), ctx@);
        }
    }

    open spec fn sorted_layout(&self, ops: Option<Seq<Op>>) -> bool {
        sorted_region(self.columns, self.memory.trace(), ops)
    }

    fn layout_sorted_rw(&self) -> (r: Option<RegionCtx>) {
        MSMGate::layout_sorted_rw(self)
    }

    fn layout_range_table(&self) -> (r: Vec<Fe>) {
        MSMGate::layout_range_table(self)
    }
}

impl MSMGate {
    /// Lays out the multiplication of the assigned points by the scalars and
    /// returns the assigned result: the accumulator of the last round with
    /// the correction added. Fails where the correction is the neutral
    /// element. In every round the memory records a write of each initial
    /// bucket, a read and a write for each point, and a read of each bucket.
    pub fn msm_var(
        &mut self,
        ctx: &mut RegionCtx,
        points: &[AssignedPoint],
        scalars: &[Option<Scalar>],
    ) -> (r: Result<AssignedPoint, Error>)
        requires
            old(self).wf(),
            old(self).cached(),
            old(ctx).wf(),
            points@.len() > 0,
            points@.len() == scalars@.len(),
        ensures
            final(self).wf(),
            final(self).cached(),
            final(ctx).wf(),
            final(self).window == old(self).window,
            final(self).aux_generator == old(self).aux_generator,
            old(ctx)@.is_prefix_of(final(ctx)@),
            r.is_ok() <==> correction(old(self).aux_generator, old(self).window as nat).is_some(),
            r matches Ok(p) ==> p.point() == bucket_msm(
                old(self).aux_generator,
                old(self).window as nat,
                point_values(points@),
                scalars@,
            ),
            grown_by(
                final(self).accesses(),
                old(self).accesses(),
                number_of_rounds(old(self).window as nat) * queries_of_round(
                    old(self).window as nat,
                    points@.len(),
                    2,
                ),
            ),
            forall|j: nat|
                j < number_of_rounds(old(self).window as nat) ==> #[trigger] recorded(
                    final(self).accesses(),
                    old(self).accesses().len(),
                    2,
                    old(self).aux_generator,
                    old(self).window as nat,
                    point_values(points@),
                    scalars@,
                    j,
                ),
    {
        <MSMGate as super::instructions::MSMGate>::msm(self, ctx, points, scalars)
    }
}

} // verus!
