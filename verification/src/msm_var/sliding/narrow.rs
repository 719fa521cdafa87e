//! The sliding-window method on five advice columns: an addition takes two
//! rows.

use super::assignments::{read_add_ops, read_point_ops, write_point_ops};
use super::config::MSMGate;
use super::instructions::{read_value, MSMHelper};
use super::msm::{correction, correction_used, kept_for, sliding_msm, tabulated, writable};
use super::rw::Cell;
use crate::curve::Point;
use crate::error::Error;
use crate::field::Fe;
use crate::gate::{add_ops, all_zero_ops, assign_point_ops, double_ops};
use crate::region::{
    lemma_prefix, valid, Advice, AssignedPoint, AssignedValue, Fixed, RegionCtx, Value,
};
use crate::scalar::Scalar;
use vstd::arithmetic::power2::pow2;
use vstd::prelude::*;

verus! {

impl MSMHelper for MSMGate {
    open spec fn width(&self) -> nat {
        self.window as nat
    }

    open spec fn generator(&self) -> Point {
        self.aux_generator
    }

    open spec fn kept(&self) -> Option<Point> {
        self.correction_point
    }

    open spec fn cells(&self) -> Seq<Cell> {
        self.memory.cells()
    }

    open spec fn ready(&self) -> bool {
        self.wf()
    }

    fn window(&self) -> (r: usize) {
        self.window
    }

    fn aux_generator(&self) -> (r: Point) {
        self.aux_generator
    }

    fn correction_point(&mut self, ctx: &mut RegionCtx, number_of_points: usize) -> (r: Result<
        AssignedPoint,
        Error,
    >) {
        MSMGate::correction_point(self, ctx, number_of_points)
    }
}

impl super::instructions::MSMGate for MSMGate {
    open spec fn advice_list(&self) -> Seq<Advice> {
        seq![
            self.columns.a0,
            self.columns.a1,
            self.columns.a2,
            self.columns.a3,
            self.columns.a4,
        ]
    }

    open spec fn fixed_list(&self) -> Seq<Fixed> {
        seq![self.columns.constant]
    }

    fn advice_columns(&self) -> (r: Vec<Advice>) {
        let mut r = Vec::new();
        r.push(self.columns.a0);
        r.push(self.columns.a1);
        r.push(self.columns.a2);
        r.push(self.columns.a3);
        r.push(self.columns.a4);
        assert(r@ =~= self.advice_list());
        r
    }

    fn fixed_colmns(&self) -> (r: Vec<Fixed>) {
        let mut r = Vec::new();
        r.push(self.columns.constant);
        assert(r@ =~= self.fixed_list());
        r
    }

    fn get_constant(&mut self, ctx: &mut RegionCtx, scalar: Fe) -> (r: AssignedValue) {
        MSMGate::get_constant(self, ctx, scalar)
    }

    fn assign_point(&mut self, ctx: &mut RegionCtx, point: &Option<Point>) -> (r: AssignedPoint) {
        let r = MSMGate::assign_point(self, ctx, point);
        proof {
            lemma_prefix(old(ctx)@, assign_point_ops(self.columns, *point), ctx@);
        }
        r
    }

    fn add(&mut self, ctx: &mut RegionCtx, a: &AssignedPoint, b: &AssignedPoint) -> (r:
        AssignedPoint) {
        let r = MSMGate::add(self, ctx, a, b);
        proof {
            lemma_prefix(old(ctx)@, add_ops(self.columns, *a, *b), ctx@);
        }
        r
    }

    fn read_add(&mut self, ctx: &mut RegionCtx, address: &Value, offset: Fe, b: &AssignedPoint)
        -> (r: AssignedPoint) {
        let r = MSMGate::read_add(self, ctx, address, offset, b);
        proof {
            lemma_prefix(old(ctx)@, read_add_ops(
                self.columns,
                *address,
                offset,
                read_value(old(self).memory.cells(), *address, offset),
                *b,
            ), ctx@);
        }
        r
    }

    fn write_point(&mut self, ctx: &mut RegionCtx, address: Fe, offset: Fe, point: &AssignedPoint) {
        MSMGate::write_point(self, ctx, address, offset, point);
        proof {
            lemma_prefix(old(ctx)@, write_point_ops(self.columns, address, offset, point.point()), ctx@);
            assert forall|at: nat|
                super::rw::held(self.memory.cells(), at) == if at == super::rw::place(
                    address,
                    offset,
                ) {
                    Some(point.point())
                } else {
                    super::rw::held(old(self).memory.cells(), at)
                } by {
                assert(self.memory.at(at) == super::rw::held(self.memory.cells(), at));
            }
        }
    }

    fn read_point(&mut self, ctx: &mut RegionCtx, address: &Value, offset: Fe) -> (r:
        AssignedPoint) {
        let r = MSMGate::read_point(self, ctx, address, offset);
        proof {
            lemma_prefix(old(ctx)@, read_point_ops(self.columns, *address, offset, r.point()), ctx@);
        }
        r
    }

    fn dbl(&mut self, ctx: &mut RegionCtx, point: &AssignedPoint) -> (r: AssignedPoint) {
        let r = MSMGate::dbl(self, ctx, point);
        proof {
            lemma_prefix(old(ctx)@, double_ops(self.columns, *point), ctx@);
        }
        r
    }

    fn all_zero(&self, ctx: &mut RegionCtx) {
        MSMGate::all_zero(self, ctx);
        proof {
            lemma_prefix(old(ctx)@, all_zero_ops(self.columns), ctx@);
        }
    }

    fn layout_range_table(&self) -> (r: Vec<Fe>) {
        MSMGate::layout_range_table(self)
    }
}

impl MSMGate {
    /// Lays out the multiplication of the points by the scalars and returns
    /// the assigned result: the accumulator of the last round with the
    /// correction added. Fails where the correction is the neutral element.
    pub fn msm_var(
        &mut self,
        ctx: &mut RegionCtx,
        points: &[Option<Point>],
        scalars: &[Option<Scalar>],
    ) -> (r: Result<AssignedPoint, Error>)
        requires
            old(self).wf(),
            old(ctx).wf(),
            points@.len() > 0,
            points@.len() == scalars@.len(),
            forall|i: int| 0 <= i < points@.len() ==> valid(#[trigger] points@[i]),
            points@.len() * pow2(old(self).window as nat) < usize::MAX,
            writable(
                old(self).memory.cells(),
                old(self).aux_generator,
                old(self).window as nat,
                points@,
                points@.len() * pow2(old(self).window as nat),
            ),
            kept_for(
                old(self).correction_point,
                old(self).aux_generator,
                old(self).window as nat,
                points@.len(),
            ),
        ensures
            final(self).wf(),
            final(ctx).wf(),
            final(self).window == old(self).window,
            final(self).aux_generator == old(self).aux_generator,
            final(self).correction_point == correction(
                old(self).aux_generator,
                old(self).window as nat,
                points@.len(),
            ),
            tabulated(
                final(self).memory.cells(),
                old(self).memory.cells(),
                old(self).aux_generator,
                old(self).window as nat,
                points@,
                points@.len() * pow2(old(self).window as nat),
            ),
            old(ctx)@.is_prefix_of(final(ctx)@),
            r.is_ok() <==> correction_used(
                old(self).correction_point,
                old(self).aux_generator,
                old(self).window as nat,
                points@.len(),
            ).is_some(),
            r matches Ok(p) ==> p.point() == sliding_msm(
                old(self).aux_generator,
                old(self).correction_point,
                old(self).window as nat,
                points@,
                scalars@,
            ),
    {
        <MSMGate as super::instructions::MSMGate>::msm(self, ctx, points, scalars)
    }
}

} // verus!
