//! The rows of the bucket method: the rows of the elliptic-curve gate, and
//! the rows that read and write the memory.

use super::config::MSMGate;
use super::rw::Query;
use crate::curve::Point;
use crate::field::Fe;
use crate::gate::{
    add_ops, add_witness, advice_cell, all_zero_ops, assign_point_ops, constant_step, coord_x,
    coord_y, double_ops, equal_ops, incomplete_add, incomplete_double, unzip, zero, zero_advice,
    Columns,
};
use crate::windows::word;
use crate::region::{
    rows, valid, AssignedPoint, AssignedValue, Column, Op, RegionCtx, Selector, Value,
};
use vstd::prelude::*;

verus! {

/// What the memory returns for a read at `address`.
pub open spec fn read_value(state: Map<Fe, Option<Point>>, address: Value) -> Option<Point> {
    match address {
        Some(a) => state[a],
        None => None,
    }
}

/// The state of the memory after a write.
pub open spec fn written(
    state: Map<Fe, Option<Point>>,
    address: Value,
    point: Option<Point>,
) -> Map<Fe, Option<Point>> {
    match address {
        Some(a) => state.insert(a, point),
        None => state,
    }
}

/// The query that reads `point` at `address`.
pub open spec fn read_query(address: Value, point: Option<Point>) -> Query {
    Query { is_read: true, address, x: coord_x(point), y: coord_y(point) }
}

/// The query that writes `point` at `address`.
pub open spec fn write_query(address: Value, point: Option<Point>) -> Query {
    Query { is_read: false, address, x: coord_x(point), y: coord_y(point) }
}

/// The two rows that read the point `a` at a witnessed address, add `b` to
/// it and write the sum back: a read query with the summands, then a write
/// query with the sum.
pub open spec fn rw_add_ops(
    c: Columns,
    row: nat,
    timestamp: nat,
    address: Value,
    a: Option<Point>,
    b: AssignedPoint,
) -> Seq<Op> {
    let w = add_witness(a, b.point());
    seq![
        Op::Enable(Selector::Add),
        Op::Enable(Selector::Query),
        Op::Enable(Selector::QueryRead),
        Op::Advice(c.a0, address),
        Op::Advice(c.a1, coord_x(a)),
        Op::Advice(c.a2, coord_y(a)),
        Op::Copy(c.a3, b.cell_x().cell, b.cell_x().value),
        Op::Copy(c.a4, b.cell_y().cell, b.cell_y().value),
        Op::Fixed(c.constant, word(timestamp)),
        Op::Next,
        Op::Enable(Selector::Query),
        Op::Copy(c.a0, advice_cell(c.a0, row, address).cell, address),
        Op::Advice(c.a1, coord_x(w.out)),
        Op::Advice(c.a2, coord_y(w.out)),
        Op::Advice(c.a3, w.t),
        Op::Advice(c.a4, w.inverse_t),
        Op::Fixed(c.constant, word(timestamp + 1)),
        Op::Next,
    ]
}

/// The two rows that read the point `a` at an assigned address and add `b`
/// to it: a read query with the summands, then the sum.
pub open spec fn read_add_ops(
    c: Columns,
    timestamp: nat,
    address: AssignedValue,
    a: Option<Point>,
    b: AssignedPoint,
) -> Seq<Op> {
    let w = add_witness(a, b.point());
    seq![
        Op::Enable(Selector::Add),
        Op::Enable(Selector::Query),
        Op::Enable(Selector::QueryRead),
        Op::Copy(c.a0, address.cell, address.value),
        Op::Advice(c.a1, coord_x(a)),
        Op::Advice(c.a2, coord_y(a)),
        Op::Copy(c.a3, b.cell_x().cell, b.cell_x().value),
        Op::Copy(c.a4, b.cell_y().cell, b.cell_y().value),
        Op::Fixed(c.constant, word(timestamp)),
        Op::Next,
        zero_advice(c.a0),
        Op::Advice(c.a1, coord_x(w.out)),
        Op::Advice(c.a2, coord_y(w.out)),
        Op::Advice(c.a3, w.t),
        Op::Advice(c.a4, w.inverse_t),
        Op::Fixed(c.constant, zero()),
        Op::Next,
    ]
}

/// The row of a write query.
pub open spec fn write_point_ops(
    c: Columns,
    timestamp: nat,
    address: AssignedValue,
    point: Option<Point>,
) -> Seq<Op> {
    seq![
        Op::Enable(Selector::Query),
        Op::Enable(Selector::Range),
        Op::Copy(c.a0, address.cell, address.value),
        Op::Advice(c.a1, coord_x(point)),
        Op::Advice(c.a2, coord_y(point)),
        zero_advice(c.a3),
        zero_advice(c.a4),
        Op::Fixed(c.constant, word(timestamp)),
        Op::Next,
    ]
}

/// The row of a read query.
pub open spec fn read_point_ops(
    c: Columns,
    timestamp: nat,
    address: AssignedValue,
    point: Option<Point>,
) -> Seq<Op> {
    seq![
        Op::Enable(Selector::Query),
        Op::Enable(Selector::QueryRead),
        Op::Copy(c.a0, address.cell, address.value),
        Op::Advice(c.a1, coord_x(point)),
        Op::Advice(c.a2, coord_y(point)),
        zero_advice(c.a3),
        zero_advice(c.a4),
        Op::Fixed(c.constant, word(timestamp)),
        Op::Next,
    ]
}

impl MSMGate {
    /// Columns, window, generator and what is kept of them stay as they are.
    pub open spec fn same_setup(&self, other: &MSMGate) -> bool {
        &&& self.columns == other.columns
        &&& self.range_table == other.range_table
        &&& self.window == other.window
        &&& self.aux_generator == other.aux_generator
        &&& self.initial_buckets == other.initial_buckets
        &&& self.correction_point == other.correction_point
    }

    /// The cell of the constant `scalar`: the one in the cache, or that of a
    /// new row, which then goes into the cache.
    pub fn get_constant(&mut self, ctx: &mut RegionCtx, scalar: Fe) -> (r: AssignedValue)
        requires
            old(self).wf(),
            old(ctx).wf(),
        ensures
            final(self).wf(),
            final(ctx).wf(),
            final(self).same_setup(old(self)),
            final(self).memory == old(self).memory,
            (final(self).constants@, final(ctx)@) == constant_step(
                old(self).columns,
                old(self).constants@,
                old(ctx)@,
                scalar,
            ),
            final(self).constants@.contains_key(scalar) && final(self).constants@[scalar] == r,
            r.value == Some(scalar),
            rows(old(ctx)@) <= rows(final(ctx)@) <= rows(old(ctx)@) + 1,
            old(ctx)@.is_prefix_of(final(ctx)@),
    {
        let columns = self.columns;
        self.constants.get(&columns, ctx, scalar)
    }

    /// The assigned point with the constant coordinates of `point`.
    pub fn get_constant_point(&mut self, ctx: &mut RegionCtx, point: &Point) -> (r: AssignedPoint)
        requires
            old(self).wf(),
            old(ctx).wf(),
            point.on_curve(),
        ensures
            final(self).wf(),
            final(ctx).wf(),
            final(self).same_setup(old(self)),
            final(self).memory == old(self).memory,
            ({
                let (cache, ops) = constant_step(
                    old(self).columns,
                    old(self).constants@,
                    old(ctx)@,
                    point.x,
                );
                (final(self).constants@, final(ctx)@) == constant_step(
                    old(self).columns,
                    cache,
                    ops,
                    point.y,
                )
            }),
            r.point() == Some(*point),
            rows(old(ctx)@) <= rows(final(ctx)@) <= rows(old(ctx)@) + 2,
            old(ctx)@.is_prefix_of(final(ctx)@),
    {
        let columns = self.columns;
        self.constants.get_point(&columns, ctx, point)
    }

    /// Lays out the row that assigns a point and constrains it to the curve.
    pub fn assign_point(&self, ctx: &mut RegionCtx, point: &Option<Point>) -> (r: AssignedPoint)
        requires
            old(ctx).wf(),
            valid(*point),
        ensures
            final(ctx).wf(),
            final(ctx)@ == old(ctx)@ + assign_point_ops(self.columns, *point),
            rows(final(ctx)@) == rows(old(ctx)@) + 1,
            r.cell_x() == advice_cell(self.columns.a0, rows(old(ctx)@), coord_x(*point)),
            r.cell_y() == advice_cell(self.columns.a1, rows(old(ctx)@), coord_y(*point)),
            r.point() == *point,
    {
        crate::gate::assign_point(&self.columns, ctx, point)
    }

    /// Constrains two assigned points to be equal.
    pub fn equal(&self, ctx: &mut RegionCtx, a: &AssignedPoint, b: &AssignedPoint)
        requires
            old(ctx).wf(),
        ensures
            final(ctx).wf(),
            final(ctx)@ == old(ctx)@ + equal_ops(*a, *b),
            rows(final(ctx)@) == rows(old(ctx)@),
    {
        crate::gate::equal(ctx, a, b)
    }

    /// Lays out the two rows of the incomplete addition of `a` and `b`.
    pub fn add(&self, ctx: &mut RegionCtx, a: &AssignedPoint, b: &AssignedPoint) -> (r:
        AssignedPoint)
        requires
            old(ctx).wf(),
        ensures
            final(ctx).wf(),
            final(ctx)@ == old(ctx)@ + add_ops(self.columns, *a, *b),
            rows(final(ctx)@) == rows(old(ctx)@) + 2,
            r.point() == incomplete_add(a.point(), b.point()),
            r.cell_x() == advice_cell(self.columns.a1, rows(old(ctx)@) + 1, coord_x(r.point())),
            r.cell_y() == advice_cell(self.columns.a2, rows(old(ctx)@) + 1, coord_y(r.point())),
    {
        crate::gate::add(&self.columns, ctx, a, b)
    }

    /// Lays out the two rows of the doubling of `point`.
    pub fn double(&self, ctx: &mut RegionCtx, point: &AssignedPoint) -> (r: AssignedPoint)
        requires
            old(ctx).wf(),
        ensures
            final(ctx).wf(),
            final(ctx)@ == old(ctx)@ + double_ops(self.columns, *point),
            rows(final(ctx)@) == rows(old(ctx)@) + 2,
            r.point() == incomplete_double(point.point()),
            r.cell_x() == advice_cell(self.columns.a2, rows(old(ctx)@) + 1, coord_x(r.point())),
            r.cell_y() == advice_cell(self.columns.a3, rows(old(ctx)@) + 1, coord_y(r.point())),
    {
        crate::gate::double(&self.columns, ctx, point)
    }

    /// Lays out the row of zeros.
    pub fn all_zero(&self, ctx: &mut RegionCtx)
        requires
            old(ctx).wf(),
        ensures
            final(ctx).wf(),
            final(ctx)@ == old(ctx)@ + all_zero_ops(self.columns),
            rows(final(ctx)@) == rows(old(ctx)@) + 1,
    {
        crate::gate::all_zero(&self.columns, ctx)
    }

    /// Reads the bucket at the witnessed `address`, adds `b` to it and writes
    /// the sum back: two queries, in two rows. The sum is what the bucket
    /// holds afterwards, and is returned.
    pub fn rw_add(&mut self, ctx: &mut RegionCtx, address: &Value, b: &AssignedPoint) -> (r:
        AssignedPoint)
        requires
            old(self).wf(),
            old(ctx).wf(),
            *address matches Some(a) ==> old(self).memory.state().contains_key(a),
        ensures
            final(self).wf(),
            final(ctx).wf(),
            final(self).same_setup(old(self)),
            final(self).constants == old(self).constants,
            ({
                let a = read_value(old(self).memory.state(), *address);
                let out = incomplete_add(a, b.point());
                &&& r.point() == out
                &&& final(ctx)@ == old(ctx)@ + rw_add_ops(
                    old(self).columns,
                    rows(old(ctx)@),
                    old(self).memory.trace().len(),
                    *address,
                    a,
                    *b,
                )
                &&& final(self).memory.trace() == old(self).memory.trace().push(
                    read_query(*address, a),
                ).push(write_query(*address, out))
                &&& final(self).memory.state() == written(
                    old(self).memory.state(),
                    *address,
                    out,
                )
            }),
            rows(final(ctx)@) == rows(old(ctx)@) + 2,
            r.cell_x() == advice_cell(old(self).columns.a1, rows(old(ctx)@) + 1, coord_x(r.point())),
            r.cell_y() == advice_cell(old(self).columns.a2, rows(old(ctx)@) + 1, coord_y(r.point())),
    {
        let c = self.columns;
        let timestamp = self.memory.timestamp();
        ctx.enable(Selector::Add);
        ctx.enable(Selector::Query);
        ctx.enable(Selector::QueryRead);
        let address = ctx.advice(c.a0, *address);
        let a = self.memory.read(&address.value);
        let w = crate::gate::compute_add(&a, &b.value());
        let (a_x, a_y) = unzip(&a);
        let (out_x, out_y) = unzip(&w.out);
        ctx.advice(c.a1, a_x);
        ctx.advice(c.a2, a_y);
        ctx.copy(c.a3, b.x());
        ctx.copy(c.a4, b.y());
        ctx.fixed(c.constant, Fe::from_u64(timestamp as u64));
        ctx.next();
        let written_at = self.memory.timestamp();
        self.memory.write(&address.value, &w.out);
        ctx.enable(Selector::Query);
        ctx.copy(c.a0, &address);
        let out_x = ctx.advice(c.a1, out_x);
        let out_y = ctx.advice(c.a2, out_y);
        ctx.advice(c.a3, w.t);
        ctx.advice(c.a4, w.inverse_t);
        ctx.fixed(c.constant, Fe::from_u64(written_at as u64));
        ctx.next();
        assert(ctx@ =~= old(ctx)@ + rw_add_ops(
            c,
            rows(old(ctx)@),
            old(self).memory.trace().len(),
            address.value,
            a,
            *b,
        ));
        AssignedPoint::new(out_x, out_y)
    }

    /// Reads the bucket at the assigned `address` and adds `b` to it: one
    /// query, in two rows. The memory stays as it is.
    pub fn read_add(&mut self, ctx: &mut RegionCtx, address: &AssignedValue, b: &AssignedPoint)
        -> (r: AssignedPoint)
        requires
            old(self).wf(),
            old(ctx).wf(),
            address.value matches Some(a) ==> old(self).memory.state().contains_key(a),
        ensures
            final(self).wf(),
            final(ctx).wf(),
            final(self).same_setup(old(self)),
            final(self).constants == old(self).constants,
            ({
                let a = read_value(old(self).memory.state(), address.value);
                &&& r.point() == incomplete_add(a, b.point())
                &&& final(ctx)@ == old(ctx)@ + read_add_ops(
                    old(self).columns,
                    old(self).memory.trace().len(),
                    *address,
                    a,
                    *b,
                )
                &&& final(self).memory.trace() == old(self).memory.trace().push(
                    read_query(address.value, a),
                )
            }),
            final(self).memory.state() == old(self).memory.state(),
            rows(final(ctx)@) == rows(old(ctx)@) + 2,
            r.cell_x() == advice_cell(old(self).columns.a1, rows(old(ctx)@) + 1, coord_x(r.point())),
            r.cell_y() == advice_cell(old(self).columns.a2, rows(old(ctx)@) + 1, coord_y(r.point())),
    {
        let c = self.columns;
        let timestamp = self.memory.timestamp();
        let a = self.memory.read(&address.value);
        let w = crate::gate::compute_add(&a, &b.value());
        let (a_x, a_y) = unzip(&a);
        let (out_x, out_y) = unzip(&w.out);
        ctx.enable(Selector::Add);
        ctx.enable(Selector::Query);
        ctx.enable(Selector::QueryRead);
        ctx.copy(c.a0, address);
        ctx.advice(c.a1, a_x);
        ctx.advice(c.a2, a_y);
        ctx.copy(c.a3, b.x());
        ctx.copy(c.a4, b.y());
        ctx.fixed(c.constant, Fe::from_u64(timestamp as u64));
        ctx.next();
        ctx.empty(Column::Advice(c.a0));
        let out_x = ctx.advice(c.a1, out_x);
        let out_y = ctx.advice(c.a2, out_y);
        ctx.advice(c.a3, w.t);
        ctx.advice(c.a4, w.inverse_t);
        ctx.fixed(c.constant, Fe::zero());
        ctx.next();
        assert(ctx@ =~= old(ctx)@ + read_add_ops(
            c,
            old(self).memory.trace().len(),
            *address,
            a,
            *b,
        ));
        AssignedPoint::new(out_x, out_y)
    }

    /// Writes `point` at the assigned `address`: one query, in one row.
    pub fn write_point(
        &mut self,
        ctx: &mut RegionCtx,
        address: &AssignedValue,
        point: &AssignedPoint,
    )
        requires
            old(self).wf(),
            old(ctx).wf(),
        ensures
            final(self).wf(),
            final(ctx).wf(),
            final(self).same_setup(old(self)),
            final(self).constants == old(self).constants,
            final(ctx)@ == old(ctx)@ + write_point_ops(
                old(self).columns,
                old(self).memory.trace().len(),
                *address,
                point.point(),
            ),
            final(self).memory.trace() == old(self).memory.trace().push(
                write_query(address.value, point.point()),
            ),
            final(self).memory.state() == written(
                old(self).memory.state(),
                address.value,
                point.point(),
            ),
            rows(final(ctx)@) == rows(old(ctx)@) + 1,
    {
        let c = self.columns;
        let timestamp = self.memory.timestamp();
        let coords = point.value();
        self.memory.write(&address.value, &coords);
        let (x, y) = unzip(&coords);
        ctx.enable(Selector::Query);
        ctx.enable(Selector::Range);
        ctx.copy(c.a0, address);
        ctx.advice(c.a1, x);
        ctx.advice(c.a2, y);
        ctx.empty(Column::Advice(c.a3));
        ctx.empty(Column::Advice(c.a4));
        ctx.fixed(c.constant, Fe::from_u64(timestamp as u64));
        ctx.next();
        assert(ctx@ =~= old(ctx)@ + write_point_ops(
            c,
            old(self).memory.trace().len(),
            *address,
            point.point(),
        ));
    }

    /// Reads the point at the assigned `address`: one query, in one row.
    pub fn read_point(&mut self, ctx: &mut RegionCtx, address: &AssignedValue) -> (r:
        AssignedPoint)
        requires
            old(self).wf(),
            old(ctx).wf(),
            address.value matches Some(a) ==> old(self).memory.state().contains_key(a),
        ensures
            final(self).wf(),
            final(ctx).wf(),
            final(self).same_setup(old(self)),
            final(self).constants == old(self).constants,
            r.point() == read_value(old(self).memory.state(), address.value),
            final(ctx)@ == old(ctx)@ + read_point_ops(
                old(self).columns,
                old(self).memory.trace().len(),
                *address,
                r.point(),
            ),
            final(self).memory.trace() == old(self).memory.trace().push(
                read_query(address.value, r.point()),
            ),
            final(self).memory.state() == old(self).memory.state(),
            rows(final(ctx)@) == rows(old(ctx)@) + 1,
            r.cell_x() == advice_cell(old(self).columns.a1, rows(old(ctx)@), coord_x(r.point())),
            r.cell_y() == advice_cell(old(self).columns.a2, rows(old(ctx)@), coord_y(r.point())),
    {
        let c = self.columns;
        let timestamp = self.memory.timestamp();
        let point = self.memory.read(&address.value);
        let (x, y) = unzip(&point);
        ctx.enable(Selector::Query);
        ctx.enable(Selector::QueryRead);
        ctx.copy(c.a0, address);
        let x = ctx.advice(c.a1, x);
        let y = ctx.advice(c.a2, y);
        ctx.empty(Column::Advice(c.a3));
        ctx.empty(Column::Advice(c.a4));
        ctx.fixed(c.constant, Fe::from_u64(timestamp as u64));
        ctx.next();
        assert(ctx@ =~= old(ctx)@ + read_point_ops(
            c,
            old(self).memory.trace().len(),
            *address,
            point,
        ));
        AssignedPoint::new(x, y)
    }
}

} // verus!
