//! The rows of the sliding-window method: the rows of the elliptic-curve
//! gate, and the rows that write and read the table.

use super::config::MSMGate;
use super::instructions::read_value;
use super::rw::place;
use crate::curve::Point;
use crate::field::{fadd, fe, lemma_fe_of_view, Fe};
use crate::gate::{
    add_ops, add_witness, advice_cell, all_zero_ops, assign_point_ops, constant_step, coord_x,
    coord_y, double_ops, equal_ops, incomplete_add, incomplete_double, unzip, zero, zero_advice,
    Columns,
};
use crate::region::{
    rows, valid, AssignedPoint, AssignedValue, Column, Op, RegionCtx, Selector, Value,
};
use crate::windows::{number_of_buckets, word};
use vstd::arithmetic::power2::pow2;
use vstd::prelude::*;

verus! {

/// The two rows of a lookup with an addition: the address, the point found
/// and the summand `b`, then their sum.
pub open spec fn read_add_ops(
    c: Columns,
    address: Value,
    offset: Fe,
    a: Option<Point>,
    b: AssignedPoint,
) -> Seq<Op> {
    let w = add_witness(a, b.point());
    seq![
        Op::Enable(Selector::Add),
        Op::Enable(Selector::Query),
        Op::Enable(Selector::Range),
        Op::Advice(c.a0, address),
        Op::Advice(c.a1, coord_x(a)),
        Op::Advice(c.a2, coord_y(a)),
        Op::Copy(c.a3, b.cell_x().cell, b.cell_x().value),
        Op::Copy(c.a4, b.cell_y().cell, b.cell_y().value),
        Op::Fixed(c.constant, offset),
        Op::Next,
        zero_advice(c.a0),
        Op::Advice(c.a1, coord_x(w.out)),
        Op::Advice(c.a2, coord_y(w.out)),
        Op::Advice(c.a3, w.t),
        Op::Advice(c.a4, w.inverse_t),
        Op::Fixed(c.constant, zero()),
        Op::Next,
    ]
}

/// The row of a lookup.
pub open spec fn read_point_ops(c: Columns, address: Value, offset: Fe, a: Option<Point>) -> Seq<
    Op,
> {
    seq![
        Op::Enable(Selector::Query),
        Op::Advice(c.a0, address),
        Op::Enable(Selector::Range),
        Op::Advice(c.a1, coord_x(a)),
        Op::Advice(c.a2, coord_y(a)),
        zero_advice(c.a3),
        zero_advice(c.a4),
        Op::Fixed(c.constant, offset),
        Op::Next,
    ]
}

/// The row of an entry of the table: its place and the point.
pub open spec fn write_point_ops(c: Columns, address: Fe, offset: Fe, point: Option<Point>) -> Seq<
    Op,
> {
    seq![
        Op::Fixed(c.constant, fe(fadd(address@, offset@))),
        Op::Enable(Selector::Table),
        zero_advice(c.a0),
        Op::Advice(c.a1, coord_x(point)),
        Op::Advice(c.a2, coord_y(point)),
        zero_advice(c.a3),
        zero_advice(c.a4),
        Op::Next,
    ]
}

impl MSMGate {
    /// The cell of the constant `scalar`: the one in the cache, or that of a
    /// new row, which then goes into the cache.
    pub fn get_constant(&mut self, ctx: &mut RegionCtx, scalar: Fe) -> (r: AssignedValue)
        requires
            old(self).wf(),
            old(ctx).wf(),
        ensures
            final(self).wf(),
            final(ctx).wf(),
            final(self).same_setup(old(self)),
            final(self).memory == old(self).memory,
            final(self).correction_point == old(self).correction_point,
            (final(self).constants@, final(ctx)@) == constant_step(
                old(self).columns,
                old(self).constants@,
                old(ctx)@,
                scalar,
            ),
            final(self).constants@.contains_key(scalar) && final(self).constants@[scalar] == r,
            r.value == Some(scalar),
            rows(old(ctx)@) <= rows(final(ctx)@) <= rows(old(ctx)@) + 1,
            old(ctx)@.is_prefix_of(final(ctx)@),
    {
        let columns = self.columns;
        self.constants.get(&columns, ctx, scalar)
    }

    /// The assigned point with the constant coordinates of `point`.
    pub fn get_constant_point(&mut self, ctx: &mut RegionCtx, point: &Point) -> (r: AssignedPoint)
        requires
            old(self).wf(),
            old(ctx).wf(),
            point.on_curve(),
        ensures
            final(self).wf(),
            final(ctx).wf(),
            final(self).same_setup(old(self)),
            final(self).memory == old(self).memory,
            final(self).correction_point == old(self).correction_point,
            ({
                let (cache, ops) = constant_step(
                    old(self).columns,
                    old(self).constants@,
                    old(ctx)@,
                    point.x,
                );
                (final(self).constants@, final(ctx)@) == constant_step(
                    old(self).columns,
                    cache,
                    ops,
                    point.y,
                )
            }),
            r.point() == Some(*point),
            rows(old(ctx)@) <= rows(final(ctx)@) <= rows(old(ctx)@) + 2,
            old(ctx)@.is_prefix_of(final(ctx)@),
    {
        let columns = self.columns;
        self.constants.get_point(&columns, ctx, point)
    }

    /// Lays out the row that assigns a point and constrains it to the curve.
    pub fn assign_point(&self, ctx: &mut RegionCtx, point: &Option<Point>) -> (r: AssignedPoint)
        requires
            old(ctx).wf(),
            valid(*point),
        ensures
            final(ctx).wf(),
            final(ctx)@ == old(ctx)@ + assign_point_ops(self.columns, *point),
            rows(final(ctx)@) == rows(old(ctx)@) + 1,
            r.cell_x() == advice_cell(self.columns.a0, rows(old(ctx)@), coord_x(*point)),
            r.cell_y() == advice_cell(self.columns.a1, rows(old(ctx)@), coord_y(*point)),
            r.point() == *point,
    {
        crate::gate::assign_point(&self.columns, ctx, point)
    }

    /// Constrains two assigned points to be equal.
    pub fn equal(&self, ctx: &mut RegionCtx, a: &AssignedPoint, b: &AssignedPoint)
        requires
            old(ctx).wf(),
        ensures
            final(ctx).wf(),
            final(ctx)@ == old(ctx)@ + equal_ops(*a, *b),
            rows(final(ctx)@) == rows(old(ctx)@),
    {
        crate::gate::equal(ctx, a, b)
    }

    /// Lays out the two rows of the incomplete addition of `a` and `b`.
    pub fn add(&self, ctx: &mut RegionCtx, a: &AssignedPoint, b: &AssignedPoint) -> (r:
        AssignedPoint)
        requires
            old(ctx).wf(),
        ensures
            final(ctx).wf(),
            final(ctx)@ == old(ctx)@ + add_ops(self.columns, *a, *b),
            rows(final(ctx)@) == rows(old(ctx)@) + 2,
            r.point() == incomplete_add(a.point(), b.point()),
            r.cell_x() == advice_cell(self.columns.a1, rows(old(ctx)@) + 1, coord_x(r.point())),
            r.cell_y() == advice_cell(self.columns.a2, rows(old(ctx)@) + 1, coord_y(r.point())),
    {
        crate::gate::add(&self.columns, ctx, a, b)
    }

    /// Lays out the two rows of the doubling of `point`.
    pub fn dbl(&self, ctx: &mut RegionCtx, point: &AssignedPoint) -> (r: AssignedPoint)
        requires
            old(ctx).wf(),
        ensures
            final(ctx).wf(),
            final(ctx)@ == old(ctx)@ + double_ops(self.columns, *point),
            rows(final(ctx)@) == rows(old(ctx)@) + 2,
            r.point() == incomplete_double(point.point()),
            r.cell_x() == advice_cell(self.columns.a2, rows(old(ctx)@) + 1, coord_x(r.point())),
            r.cell_y() == advice_cell(self.columns.a3, rows(old(ctx)@) + 1, coord_y(r.point())),
    {
        crate::gate::double(&self.columns, ctx, point)
    }

    /// Lays out the row of zeros.
    pub fn all_zero(&self, ctx: &mut RegionCtx)
        requires
            old(ctx).wf(),
        ensures
            final(ctx).wf(),
            final(ctx)@ == old(ctx)@ + all_zero_ops(self.columns),
            rows(final(ctx)@) == rows(old(ctx)@) + 1,
    {
        crate::gate::all_zero(&self.columns, ctx)
    }

    /// Looks the point at `address + offset` up and adds `b` to it, in two
    /// rows.
    pub fn read_add(&mut self, ctx: &mut RegionCtx, address: &Value, offset: Fe, b: &AssignedPoint)
        -> (r: AssignedPoint)
        requires
            old(self).wf(),
            old(ctx).wf(),
            *address matches Some(a) ==> old(self).memory.at(place(a, offset)).is_some(),
        ensures
            final(self).wf(),
            final(ctx).wf(),
            final(self).same_setup(old(self)),
            final(self).memory == old(self).memory,
            final(self).constants == old(self).constants,
            final(self).correction_point == old(self).correction_point,
            ({
                let a = read_value(old(self).memory.cells(), *address, offset);
                &&& r.point() == incomplete_add(a, b.point())
                &&& final(ctx)@ == old(ctx)@ + read_add_ops(
                    old(self).columns,
                    *address,
                    offset,
                    a,
                    *b,
                )
            }),
            rows(final(ctx)@) == rows(old(ctx)@) + 2,
            r.cell_x() == advice_cell(
                old(self).columns.a1,
                rows(old(ctx)@) + 1,
                coord_x(r.point()),
            ),
            r.cell_y() == advice_cell(
                old(self).columns.a2,
                rows(old(ctx)@) + 1,
                coord_y(r.point()),
            ),
    {
        let c = self.columns;
        ctx.enable(Selector::Add);
        ctx.enable(Selector::Query);
        ctx.enable(Selector::Range);
        let address = ctx.advice(c.a0, *address);
        let a = self.memory.read(&address.value, offset);
        let w = crate::gate::compute_add(&a, &b.value());
        let (a_x, a_y) = unzip(&a);
        let (out_x, out_y) = unzip(&w.out);
        ctx.advice(c.a1, a_x);
        ctx.advice(c.a2, a_y);
        ctx.copy(c.a3, b.x());
        ctx.copy(c.a4, b.y());
        ctx.fixed(c.constant, offset);
        ctx.next();
        ctx.empty(Column::Advice(c.a0));
        let out_x = ctx.advice(c.a1, out_x);
        let out_y = ctx.advice(c.a2, out_y);
        ctx.advice(c.a3, w.t);
        ctx.advice(c.a4, w.inverse_t);
        ctx.fixed(c.constant, Fe::zero());
        ctx.next();
        assert(ctx@ =~= old(ctx)@ + read_add_ops(c, address.value, offset, a, *b));
        AssignedPoint::new(out_x, out_y)
    }

    /// Looks the point at `address + offset` up, in one row.
    pub fn read_point(&mut self, ctx: &mut RegionCtx, address: &Value, offset: Fe) -> (r:
        AssignedPoint)
        requires
            old(self).wf(),
            old(ctx).wf(),
            *address matches Some(a) ==> old(self).memory.at(place(a, offset)).is_some(),
        ensures
            final(self).wf(),
            final(ctx).wf(),
            final(self).same_setup(old(self)),
            final(self).memory == old(self).memory,
            final(self).constants == old(self).constants,
            final(self).correction_point == old(self).correction_point,
            r.point() == read_value(old(self).memory.cells(), *address, offset),
            final(ctx)@ == old(ctx)@ + read_point_ops(
                old(self).columns,
                *address,
                offset,
                r.point(),
            ),
            rows(final(ctx)@) == rows(old(ctx)@) + 1,
            r.cell_x() == advice_cell(old(self).columns.a1, rows(old(ctx)@), coord_x(r.point())),
            r.cell_y() == advice_cell(old(self).columns.a2, rows(old(ctx)@), coord_y(r.point())),
    {
        let c = self.columns;
        ctx.enable(Selector::Query);
        let address = ctx.advice(c.a0, *address);
        ctx.enable(Selector::Range);
        let a = self.memory.read(&address.value, offset);
        let (a_x, a_y) = unzip(&a);
        let x = ctx.advice(c.a1, a_x);
        let y = ctx.advice(c.a2, a_y);
        ctx.empty(Column::Advice(c.a3));
        ctx.empty(Column::Advice(c.a4));
        ctx.fixed(c.constant, offset);
        ctx.next();
        assert(ctx@ =~= old(ctx)@ + read_point_ops(c, address.value, offset, a));
        AssignedPoint::new(x, y)
    }

    /// Writes `point` into the table at `address + offset`, in one row.
    pub fn write_point(
        &mut self,
        ctx: &mut RegionCtx,
        address: Fe,
        offset: Fe,
        point: &AssignedPoint,
    )
        requires
            old(self).wf(),
            old(ctx).wf(),
            place(address, offset) < usize::MAX,
            old(self).memory.at(place(address, offset)) matches Some(c) ==> c == point.point(),
        ensures
            final(self).wf(),
            final(ctx).wf(),
            final(self).same_setup(old(self)),
            final(self).constants == old(self).constants,
            final(self).correction_point == old(self).correction_point,
            final(ctx)@ == old(ctx)@ + write_point_ops(
                old(self).columns,
                address,
                offset,
                point.point(),
            ),
            forall|at: nat|
                final(self).memory.at(at) == if at == place(address, offset) {
                    Some(point.point())
                } else {
                    old(self).memory.at(at)
                },
            rows(final(ctx)@) == rows(old(ctx)@) + 1,
    {
        let c = self.columns;
        let coords = point.value();
        self.memory.write(address, offset, &coords);
        let (x, y) = unzip(&coords);
        let at = address.add(&offset);
        proof {
            lemma_fe_of_view(at);
        }
        ctx.fixed(c.constant, at);
        ctx.enable(Selector::Table);
        ctx.empty(Column::Advice(c.a0));
        ctx.advice(c.a1, x);
        ctx.advice(c.a2, y);
        ctx.empty(Column::Advice(c.a3));
        ctx.empty(Column::Advice(c.a4));
        ctx.next();
        assert(ctx@ =~= old(ctx)@ + write_point_ops(c, address, offset, point.point()));
    }

    /// The values of the range table: every window, from zero up.
    pub fn layout_range_table(&self) -> (r: Vec<Fe>)
        requires
            self.wf(),
        ensures
            r@.len() == pow2(self.window as nat),
            forall|i: int| 0 <= i < r@.len() ==> r@[i] == word(i as nat),
    {
        let max_limb = number_of_buckets(self.window);
        let mut r: Vec<Fe> = Vec::new();
        let mut i: u64 = 0;
        while i < max_limb
            invariant
                i <= max_limb,
                r@.len() == i,
                forall|k: int| 0 <= k < i ==> r@[k] == word(k as nat),
            decreases max_limb - i,
        {
            r.push(Fe::from_u64(i));
            i = i + 1;
        }
        r
    }
}

} // verus!
