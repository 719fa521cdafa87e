//! The rows of the wide layout of the sliding-window method, and the
//! multiplication on it: every operation takes one row.

use super::config::MSMGate;
use crate::curve::Point;
use crate::error::Error;
use crate::field::{fadd, fe, lemma_fe_of_view, Fe};
use crate::gate::{
    wide_all_zero_ops, wide_constant_step, add_witness, compute_add, compute_double, coord_x,
    coord_y, double_witness, unzip, value_mul, vmul, zero, zero_advice, WideColumns,
};
use crate::msm_var::sliding::instructions::{read_value, MSMHelper};
use crate::msm_var::sliding::msm::{
    correction, correction_for, correction_used, kept_for, sliding_msm, tabulated, writable,
};
use crate::msm_var::sliding::rw::{held, place, Cell};
use crate::region::{
    lemma_prefix, rows, valid, Advice, AssignedPoint, AssignedValue, Column, Fixed, Op,
    RegionCtx, Selector, Value,
};
use crate::scalar::Scalar;
use crate::windows::{number_of_buckets, word};
use vstd::arithmetic::power2::pow2;
use vstd::prelude::*;

verus! {

/// The row that assigns a point: `x`, `y`, `x^2`, `x^3`.
pub open spec fn assign_point_ops(c: WideColumns, p: Option<Point>) -> Seq<Op> {
    let x = coord_x(p);
    let y = coord_y(p);
    seq![
        Op::Enable(Selector::Point),
        Op::Advice(c.a0, x),
        Op::Advice(c.a1, y),
        Op::Advice(c.a2, vmul(x, x)),
        Op::Advice(c.a3, vmul(vmul(x, x), x)),
        Op::Fixed(c.constant, zero()),
        Op::Next,
    ]
}

/// The row of an addition: the two summands, the sum, `t` and its inverse.
pub open spec fn add_ops(c: WideColumns, a: AssignedPoint, b: AssignedPoint) -> Seq<Op> {
    let w = add_witness(a.point(), b.point());
    seq![
        Op::Enable(Selector::Add),
        zero_advice(c.a0),
        Op::Copy(c.a1, a.cell_x().cell, a.cell_x().value),
        Op::Copy(c.a2, a.cell_y().cell, a.cell_y().value),
        Op::Copy(c.a3, b.cell_x().cell, b.cell_x().value),
        Op::Copy(c.a4, b.cell_y().cell, b.cell_y().value),
        Op::Advice(c.a5, coord_x(w.out)),
        Op::Advice(c.a6, coord_y(w.out)),
        Op::Advice(c.a7, w.t),
        Op::Advice(c.a8, w.inverse_t),
        Op::Fixed(c.constant, zero()),
        Op::Next,
    ]
}

/// The row of a doubling: the point, `x^2`, `x^4`, `y^2` and the double.
pub open spec fn double_ops(c: WideColumns, p: AssignedPoint) -> Seq<Op> {
    let w = double_witness(p.point());
    seq![
        Op::Enable(Selector::Double),
        Op::Copy(c.a0, p.cell_x().cell, p.cell_x().value),
        Op::Copy(c.a1, p.cell_y().cell, p.cell_y().value),
        Op::Advice(c.a2, w.x2),
        Op::Advice(c.a3, w.x4),
        Op::Advice(c.a4, w.y2),
        Op::Advice(c.a5, coord_x(w.out)),
        Op::Advice(c.a6, coord_y(w.out)),
        zero_advice(c.a7),
        zero_advice(c.a8),
        Op::Fixed(c.constant, zero()),
        Op::Next,
    ]
}

/// The row of a lookup with an addition: the address, the point found, the
/// summand `b`, their sum, `t` and its inverse, and the offset.
pub open spec fn read_add_ops(
    c: WideColumns,
    address: Value,
    offset: Fe,
    a: Option<Point>,
    b: AssignedPoint,
) -> Seq<Op> {
    let w = add_witness(a, b.point());
    seq![
        Op::Enable(Selector::Add),
        Op::Enable(Selector::Query),
        Op::Enable(Selector::Range),
        Op::Advice(c.a0, address),
        Op::Advice(c.a1, coord_x(a)),
        Op::Advice(c.a2, coord_y(a)),
        Op::Copy(c.a3, b.cell_x().cell, b.cell_x().value),
        Op::Copy(c.a4, b.cell_y().cell, b.cell_y().value),
        Op::Advice(c.a5, coord_x(w.out)),
        Op::Advice(c.a6, coord_y(w.out)),
        Op::Advice(c.a7, w.t),
        Op::Advice(c.a8, w.inverse_t),
        Op::Fixed(c.constant, offset),
        Op::Next,
    ]
}

/// The row of a lookup.
pub open spec fn read_point_ops(c: WideColumns, address: Value, offset: Fe, a: Option<Point>)
    -> Seq<Op> {
    seq![
        Op::Enable(Selector::Query),
        Op::Advice(c.a0, address),
        Op::Enable(Selector::Range),
        Op::Advice(c.a1, coord_x(a)),
        Op::Advice(c.a2, coord_y(a)),
        zero_advice(c.a3),
        zero_advice(c.a4),
        zero_advice(c.a5),
        zero_advice(c.a6),
        zero_advice(c.a7),
        zero_advice(c.a8),
        Op::Fixed(c.constant, offset),
        Op::Next,
    ]
}

/// The row of an entry of the table: its place and the point.
pub open spec fn write_point_ops(c: WideColumns, address: Fe, offset: Fe, point: Option<Point>)
    -> Seq<Op> {
    seq![
        Op::Fixed(c.constant, fe(fadd(address@, offset@))),
        Op::Enable(Selector::Table),
        zero_advice(c.a0),
        Op::Advice(c.a1, coord_x(point)),
        Op::Advice(c.a2, coord_y(point)),
        zero_advice(c.a3),
        zero_advice(c.a4),
        zero_advice(c.a5),
        zero_advice(c.a6),
        zero_advice(c.a7),
        zero_advice(c.a8),
        Op::Next,
    ]
}

impl MSMHelper for MSMGate {
    open spec fn width(&self) -> nat {
        self.window as nat
    }

    open spec fn generator(&self) -> Point {
        self.aux_generator
    }

    open spec fn kept(&self) -> Option<Point> {
        self.correction_point
    }

    open spec fn cells(&self) -> Seq<Cell> {
        self.memory.cells()
    }

    open spec fn ready(&self) -> bool {
        self.wf()
    }

    fn window(&self) -> (r: usize) {
        self.window
    }

    fn aux_generator(&self) -> (r: Point) {
        self.aux_generator
    }

    fn correction_point(&mut self, ctx: &mut RegionCtx, number_of_points: usize) -> (r: Result<
        AssignedPoint,
        Error,
    >) {
        proof {
            lemma_prefix(ctx@, ctx@, ctx@);
        }
        let correction = correction_for(
            &self.correction_point,
            &self.aux_generator,
            self.window,
            number_of_points,
        );
        self.correction_point = correction;
        match correction {
            Some(p) => {
                let x = self.constant(ctx, p.x);
                let ghost middle = ctx@;
                let y = self.constant(ctx, p.y);
                proof {
                    lemma_prefix(old(ctx)@, middle, ctx@);
                }
                Ok(AssignedPoint::new(x, y))
            },
            None => Err(Error::ConstantAtInfinity),
        }
    }
}

impl MSMGate {
    /// The cell of the constant `scalar`: the one in the cache, or that of a
    /// new row, which then goes into the cache.
    pub fn constant(&mut self, ctx: &mut RegionCtx, scalar: Fe) -> (r: AssignedValue)
        requires
            old(self).wf(),
            old(ctx).wf(),
        ensures
            final(self).wf(),
            final(ctx).wf(),
            final(self).same_setup(old(self)),
            final(self).memory == old(self).memory,
            (final(self).constants@, final(ctx)@) == wide_constant_step(
                old(self).columns,
                old(self).constants@,
                old(ctx)@,
                scalar,
            ),
            final(self).constants@.contains_key(scalar) && final(self).constants@[scalar] == r,
            r.value == Some(scalar),
            rows(old(ctx)@) <= rows(final(ctx)@) <= rows(old(ctx)@) + 1,
            old(ctx)@.is_prefix_of(final(ctx)@),
    {
        let columns = self.columns;
        self.constants.get_wide(&columns, ctx, scalar)
    }

    /// Lays out the multiplication of the points by the scalars and returns
    /// the assigned result: the accumulator of the last round with the
    /// correction added. Fails where the correction is the neutral element.
    pub fn msm_var(
        &mut self,
        ctx: &mut RegionCtx,
        points: &[Option<Point>],
        scalars: &[Option<Scalar>],
    ) -> (r: Result<AssignedPoint, Error>)
        requires
            old(self).wf(),
            old(ctx).wf(),
            points@.len() > 0,
            points@.len() == scalars@.len(),
            forall|i: int| 0 <= i < points@.len() ==> valid(#[trigger] points@[i]),
            points@.len() * pow2(old(self).window as nat) < usize::MAX,
            writable(
                old(self).memory.cells(),
                old(self).aux_generator,
                old(self).window as nat,
                points@,
                points@.len() * pow2(old(self).window as nat),
            ),
            kept_for(
                old(self).correction_point,
                old(self).aux_generator,
                old(self).window as nat,
                points@.len(),
            ),
        ensures
            final(self).wf(),
            final(ctx).wf(),
            final(self).window == old(self).window,
            final(self).aux_generator == old(self).aux_generator,
            final(self).correction_point == correction(
                old(self).aux_generator,
                old(self).window as nat,
                points@.len(),
            ),
            tabulated(
                final(self).memory.cells(),
                old(self).memory.cells(),
                old(self).aux_generator,
                old(self).window as nat,
                points@,
                points@.len() * pow2(old(self).window as nat),
            ),
            old(ctx)@.is_prefix_of(final(ctx)@),
            r.is_ok() <==> correction_used(
                old(self).correction_point,
                old(self).aux_generator,
                old(self).window as nat,
                points@.len(),
            ).is_some(),
            r matches Ok(p) ==> p.point() == sliding_msm(
                old(self).aux_generator,
                old(self).correction_point,
                old(self).window as nat,
                points@,
                scalars@,
            ),
    {
        <MSMGate as crate::msm_var::sliding::instructions::MSMGate>::msm(
            self,
            ctx,
            points,
            scalars,
        )
    }
}

impl crate::msm_var::sliding::instructions::MSMGate for MSMGate {
    open spec fn advice_list(&self) -> Seq<Advice> {
        seq![
            self.columns.a0,
            self.columns.a1,
            self.columns.a2,
            self.columns.a3,
            self.columns.a4,
            self.columns.a5,
            self.columns.a6,
            self.columns.a7,
            self.columns.a8,
        ]
    }

    open spec fn fixed_list(&self) -> Seq<Fixed> {
        seq![self.columns.constant]
    }

    fn advice_columns(&self) -> (r: Vec<Advice>) {
        let c = self.columns;
        let mut r = Vec::new();
        r.push(c.a0);
        r.push(c.a1);
        r.push(c.a2);
        r.push(c.a3);
        r.push(c.a4);
        r.push(c.a5);
        r.push(c.a6);
        r.push(c.a7);
        r.push(c.a8);
        assert(r@ =~= self.advice_list());
        r
    }

    fn fixed_colmns(&self) -> (r: Vec<Fixed>) {
        let mut r = Vec::new();
        r.push(self.columns.constant);
        assert(r@ =~= self.fixed_list());
        r
    }

    fn get_constant(&mut self, ctx: &mut RegionCtx, scalar: Fe) -> (r: AssignedValue) {
        self.constant(ctx, scalar)
    }

    fn assign_point(&mut self, ctx: &mut RegionCtx, point: &Option<Point>) -> (r: AssignedPoint)
        ensures
            final(ctx)@ == old(ctx)@ + assign_point_ops(old(self).columns, *point),
    {
        let c = self.columns;
        let (x, y) = unzip(point);
        let x_square = value_mul(&x, &x);
        let x_cube = value_mul(&x_square, &x);
        ctx.enable(Selector::Point);
        let x = ctx.advice(c.a0, x);
        let y = ctx.advice(c.a1, y);
        ctx.advice(c.a2, x_square);
        ctx.advice(c.a3, x_cube);
        ctx.fixed(c.constant, Fe::zero());
        ctx.next();
        proof {
            assert(ctx@ =~= old(ctx)@ + assign_point_ops(c, *point));
            lemma_prefix(old(ctx)@, assign_point_ops(c, *point), ctx@);
        }
        AssignedPoint::new(x, y)
    }

    fn add(&mut self, ctx: &mut RegionCtx, a: &AssignedPoint, b: &AssignedPoint) -> (r:
        AssignedPoint)
        ensures
            final(ctx)@ == old(ctx)@ + add_ops(old(self).columns, *a, *b),
    {
        let c = self.columns;
        let w = compute_add(&a.value(), &b.value());
        let (out_x, out_y) = unzip(&w.out);
        ctx.enable(Selector::Add);
        ctx.empty(Column::Advice(c.a0));
        ctx.copy(c.a1, a.x());
        ctx.copy(c.a2, a.y());
        ctx.copy(c.a3, b.x());
        ctx.copy(c.a4, b.y());
        let out_x = ctx.advice(c.a5, out_x);
        let out_y = ctx.advice(c.a6, out_y);
        ctx.advice(c.a7, w.t);
        ctx.advice(c.a8, w.inverse_t);
        ctx.fixed(c.constant, Fe::zero());
        ctx.next();
        proof {
            assert(ctx@ =~= old(ctx)@ + add_ops(c, *a, *b));
            lemma_prefix(old(ctx)@, add_ops(c, *a, *b), ctx@);
        }
        AssignedPoint::new(out_x, out_y)
    }

    fn read_add(&mut self, ctx: &mut RegionCtx, address: &Value, offset: Fe, b: &AssignedPoint)
        -> (r: AssignedPoint)
        ensures
            final(ctx)@ == old(ctx)@ + read_add_ops(
                old(self).columns,
                *address,
                offset,
                read_value(old(self).cells(), *address, offset),
                *b,
            ),
    {
        let c = self.columns;
        ctx.enable(Selector::Add);
        ctx.enable(Selector::Query);
        ctx.enable(Selector::Range);
        let address = ctx.advice(c.a0, *address);
        proof {
            if address.value.is_some() {
                assert(self.memory.at(place(address.value.unwrap(), offset)) == held(
                    self.memory.cells(),
                    place(address.value.unwrap(), offset),
                ));
            }
        }
        let a = self.memory.read(&address.value, offset);
        let w = compute_add(&a, &b.value());
        let (a_x, a_y) = unzip(&a);
        let (out_x, out_y) = unzip(&w.out);
        ctx.advice(c.a1, a_x);
        ctx.advice(c.a2, a_y);
        ctx.copy(c.a3, b.x());
        ctx.copy(c.a4, b.y());
        let out_x = ctx.advice(c.a5, out_x);
        let out_y = ctx.advice(c.a6, out_y);
        ctx.advice(c.a7, w.t);
        ctx.advice(c.a8, w.inverse_t);
        ctx.fixed(c.constant, offset);
        ctx.next();
        proof {
            assert(ctx@ =~= old(ctx)@ + read_add_ops(c, address.value, offset, a, *b));
            lemma_prefix(old(ctx)@, read_add_ops(c, address.value, offset, a, *b), ctx@);
        }
        AssignedPoint::new(out_x, out_y)
    }

    fn write_point(&mut self, ctx: &mut RegionCtx, address: Fe, offset: Fe, point: &AssignedPoint)
        ensures
            final(ctx)@ == old(ctx)@ + write_point_ops(
                old(self).columns,
                address,
                offset,
                point.point(),
            ),
    {
        let c = self.columns;
        let coords = point.value();
        self.memory.write(address, offset, &coords);
        let (x, y) = unzip(&coords);
        let at = address.add(&offset);
        proof {
            lemma_fe_of_view(at);
        }
        ctx.fixed(c.constant, at);
        ctx.enable(Selector::Table);
        ctx.empty(Column::Advice(c.a0));
        ctx.advice(c.a1, x);
        ctx.advice(c.a2, y);
        ctx.empty(Column::Advice(c.a3));
        ctx.empty(Column::Advice(c.a4));
        ctx.empty(Column::Advice(c.a5));
        ctx.empty(Column::Advice(c.a6));
        ctx.empty(Column::Advice(c.a7));
        ctx.empty(Column::Advice(c.a8));
        ctx.next();
        proof {
            assert(ctx@ =~= old(ctx)@ + write_point_ops(c, address, offset, point.point()));
            lemma_prefix(old(ctx)@, write_point_ops(c, address, offset, point.point()), ctx@);
            assert forall|at: nat|
                held(self.memory.cells(), at) == if at == place(address, offset) {
                    Some(point.point())
                } else {
                    held(old(self).memory.cells(), at)
                } by {
                assert(self.memory.at(at) == held(self.memory.cells(), at));
            }
        }
    }

    fn read_point(&mut self, ctx: &mut RegionCtx, address: &Value, offset: Fe) -> (r:
        AssignedPoint)
        ensures
            final(ctx)@ == old(ctx)@ + read_point_ops(
                old(self).columns,
                *address,
                offset,
                r.point(),
            ),
    {
        let c = self.columns;
        ctx.enable(Selector::Query);
        let address = ctx.advice(c.a0, *address);
        ctx.enable(Selector::Range);
        proof {
            if address.value.is_some() {
                assert(self.memory.at(place(address.value.unwrap(), offset)) == held(
                    self.memory.cells(),
                    place(address.value.unwrap(), offset),
                ));
            }
        }
        let a = self.memory.read(&address.value, offset);
        let (a_x, a_y) = unzip(&a);
        let x = ctx.advice(c.a1, a_x);
        let y = ctx.advice(c.a2, a_y);
        ctx.empty(Column::Advice(c.a3));
        ctx.empty(Column::Advice(c.a4));
        ctx.empty(Column::Advice(c.a5));
        ctx.empty(Column::Advice(c.a6));
        ctx.empty(Column::Advice(c.a7));
        ctx.empty(Column::Advice(c.a8));
        ctx.fixed(c.constant, offset);
        ctx.next();
        proof {
            assert(ctx@ =~= old(ctx)@ + read_point_ops(c, address.value, offset, a));
            lemma_prefix(old(ctx)@, read_point_ops(c, address.value, offset, a), ctx@);
        }
        AssignedPoint::new(x, y)
    }

    fn dbl(&mut self, ctx: &mut RegionCtx, point: &AssignedPoint) -> (r: AssignedPoint)
        ensures
            final(ctx)@ == old(ctx)@ + double_ops(old(self).columns, *point),
    {
        let c = self.columns;
        let w = compute_double(&point.value());
        let (out_x, out_y) = unzip(&w.out);
        ctx.enable(Selector::Double);
        ctx.copy(c.a0, point.x());
        ctx.copy(c.a1, point.y());
        ctx.advice(c.a2, w.x2);
        ctx.advice(c.a3, w.x4);
        ctx.advice(c.a4, w.y2);
        let out_x = ctx.advice(c.a5, out_x);
        let out_y = ctx.advice(c.a6, out_y);
        ctx.empty(Column::Advice(c.a7));
        ctx.empty(Column::Advice(c.a8));
        ctx.fixed(c.constant, Fe::zero());
        ctx.next();
        proof {
            assert(ctx@ =~= old(ctx)@ + double_ops(c, *point));
            lemma_prefix(old(ctx)@, double_ops(c, *point), ctx@);
        }
        AssignedPoint::new(out_x, out_y)
    }

    fn all_zero(&self, ctx: &mut RegionCtx)
        ensures
            final(ctx)@ == old(ctx)@ + wide_all_zero_ops(self.columns),
    {
        crate::gate::wide_all_zero(&self.columns, ctx)
    }

    fn layout_range_table(&self) -> (r: Vec<Fe>) {
        let max_limb = number_of_buckets(self.window);
        let mut r: Vec<Fe> = Vec::new();
        let mut i: u64 = 0;
        while i < max_limb
            invariant
                i <= max_limb,
                r@.len() == i,
                forall|k: int| 0 <= k < i ==> r@[k] == word(k as nat),
            decreases max_limb - i,
        {
            r.push(Fe::from_u64(i));
            i = i + 1;
        }
        r
    }
}

} // verus!
