//! The rows of the wide layout of the bucket method: every operation takes
//! one row.

use super::config::MSMGate;
use crate::gate::WideColumns;
use super::rw::{held, points_of, replaced, shown, Content};
use crate::curve::Point;
use crate::field::Fe;
use crate::gate::{
    wide_constant_step,
    add_witness, advice_cell, compute_add, compute_double, coord_x, coord_y, double_witness,
    incomplete_add, incomplete_double, unzip, vmul, value_mul, zero, zero_advice,
};
use crate::msm_var::bucket::assignments::{read_value, written};
use crate::region::{
    lemma_prefix, rows, valid, AssignedPoint, AssignedValue, Column, Op, RegionCtx, Selector,
    Value,
};
use crate::windows::{number_of_buckets, word};
use vstd::arithmetic::power2::pow2;
use vstd::prelude::*;

verus! {

/// The row that assigns a point: `x`, `y`, `x^2`, `x^3`.
pub open spec fn assign_point_ops(c: WideColumns, p: Option<Point>) -> Seq<Op> {
    let x = coord_x(p);
    let y = coord_y(p);
    seq![
        Op::Enable(Selector::Point),
        Op::Advice(c.a0, x),
        Op::Advice(c.a1, y),
        Op::Advice(c.a2, vmul(x, x)),
        Op::Advice(c.a3, vmul(vmul(x, x), x)),
        zero_advice(c.a4),
        zero_advice(c.a5),
        zero_advice(c.a6),
        zero_advice(c.a7),
        zero_advice(c.a8),
        Op::Fixed(c.constant, zero()),
        Op::Next,
    ]
}

/// The row of an addition: the first summand, the sum, the second summand,
/// `t` and its inverse.
pub open spec fn add_ops(c: WideColumns, a: AssignedPoint, b: AssignedPoint) -> Seq<Op> {
    let w = add_witness(a.point(), b.point());
    seq![
        Op::Enable(Selector::Add),
        zero_advice(c.a0),
        Op::Copy(c.a1, a.cell_x().cell, a.cell_x().value),
        Op::Copy(c.a2, a.cell_y().cell, a.cell_y().value),
        Op::Advice(c.a3, coord_x(w.out)),
        Op::Advice(c.a4, coord_y(w.out)),
        Op::Copy(c.a5, b.cell_x().cell, b.cell_x().value),
        Op::Copy(c.a6, b.cell_y().cell, b.cell_y().value),
        Op::Advice(c.a7, w.t),
        Op::Advice(c.a8, w.inverse_t),
        Op::Fixed(c.constant, zero()),
        Op::Next,
    ]
}

/// The row of a doubling: the point, `x^2`, `x^4`, `y^2` and the double.
pub open spec fn double_ops(c: WideColumns, p: AssignedPoint) -> Seq<Op> {
    let w = double_witness(p.point());
    seq![
        Op::Enable(Selector::Double),
        Op::Copy(c.a0, p.cell_x().cell, p.cell_x().value),
        Op::Copy(c.a1, p.cell_y().cell, p.cell_y().value),
        Op::Advice(c.a2, w.x2),
        Op::Advice(c.a3, w.x4),
        Op::Advice(c.a4, w.y2),
        Op::Advice(c.a5, coord_x(w.out)),
        Op::Advice(c.a6, coord_y(w.out)),
        zero_advice(c.a7),
        zero_advice(c.a8),
        Op::Fixed(c.constant, zero()),
        Op::Next,
    ]
}

/// The row of a query with an addition: the address, the point `a` read
/// there, the sum written in its place, the summand `b`, `t` and its
/// inverse, and the timestamp. The address is a witness, or a copy of an
/// assigned cell.
pub open spec fn query_add_ops(
    c: WideColumns,
    timestamp: nat,
    address: Op,
    a: Option<Point>,
    b: AssignedPoint,
) -> Seq<Op> {
    let w = add_witness(a, b.point());
    seq![
        Op::Enable(Selector::Add),
        Op::Enable(Selector::Query),
        address,
        Op::Advice(c.a1, coord_x(a)),
        Op::Advice(c.a2, coord_y(a)),
        Op::Advice(c.a3, coord_x(w.out)),
        Op::Advice(c.a4, coord_y(w.out)),
        Op::Copy(c.a5, b.cell_x().cell, b.cell_x().value),
        Op::Copy(c.a6, b.cell_y().cell, b.cell_y().value),
        Op::Advice(c.a7, w.t),
        Op::Advice(c.a8, w.inverse_t),
        Op::Fixed(c.constant, word(timestamp)),
        Op::Next,
    ]
}

/// The row of a query that writes or only reads: the address, what was
/// read, what was written, and the timestamp.
pub open spec fn query_ops(
    c: WideColumns,
    timestamp: nat,
    ranged: bool,
    address: AssignedValue,
    read: (Value, Value),
    wrote: (Value, Value),
) -> Seq<Op> {
    let head = if ranged {
        seq![Op::Enable(Selector::Query), Op::Enable(Selector::Range)]
    } else {
        seq![Op::Enable(Selector::Query)]
    };
    head + seq![
        Op::Copy(c.a0, address.cell, address.value),
        Op::Advice(c.a1, read.0),
        Op::Advice(c.a2, read.1),
        Op::Advice(c.a3, wrote.0),
        Op::Advice(c.a4, wrote.1),
        zero_advice(c.a5),
        zero_advice(c.a6),
        zero_advice(c.a7),
        zero_advice(c.a8),
        Op::Fixed(c.constant, word(timestamp)),
        Op::Next,
    ]
}

/// What the cells of a query show for what was read at an address.
pub open spec fn read_shown(state: Map<Fe, Content>, address: Value) -> (Value, Value) {
    match address {
        Some(a) => shown(held(state, a)),
        None => (None, None),
    }
}

/// The points after a write.
pub proof fn lemma_points_written(state: Map<Fe, Content>, a: Fe, p: Option<Point>)
    ensures
        points_of(state.insert(a, Content::Holds(p))) == points_of(state).insert(a, p),
        points_of(state.insert(a, Content::Zero)) == points_of(state).remove(a),
{
    assert(points_of(state.insert(a, Content::Holds(p))) =~= points_of(state).insert(a, p));
    assert(points_of(state.insert(a, Content::Zero)) =~= points_of(state).remove(a));
}

impl MSMGate {
    /// The buckets and the correction that are kept are those of the
    /// auxiliary generator and window.
    pub open spec fn cached(&self) -> bool {
        &&& self.initial_buckets matches Some(v) ==> v@.len() == pow2(self.window as nat)
            && forall|k: int|
            0 <= k < v@.len() ==> Some(#[trigger] v@[k])
                == crate::msm_var::bucket::msm::initial_bucket(self.aux_generator, k as nat)
                && v@[k].on_curve()
        &&& self.correction_point matches Some(p) ==> Some(p)
            == crate::msm_var::bucket::msm::correction(self.aux_generator, self.window as nat)
            && p.on_curve()
    }

    /// Columns, window, generator and what is kept of them stay as they are.
    pub open spec fn same_setup(&self, other: &MSMGate) -> bool {
        &&& self.columns == other.columns
        &&& self.range_table == other.range_table
        &&& self.window == other.window
        &&& self.aux_generator == other.aux_generator
        &&& self.initial_buckets == other.initial_buckets
        &&& self.correction_point == other.correction_point
    }

    /// The cell of the constant `scalar`: the one in the cache, or that of a
    /// new row, which then goes into the cache.
    pub fn get_constant(&mut self, ctx: &mut RegionCtx, scalar: Fe) -> (r: AssignedValue)
        requires
            old(self).wf(),
            old(ctx).wf(),
        ensures
            final(self).wf(),
            final(ctx).wf(),
            final(self).same_setup(old(self)),
            final(self).memory == old(self).memory,
            (final(self).constants@, final(ctx)@) == wide_constant_step(
                old(self).columns,
                old(self).constants@,
                old(ctx)@,
                scalar,
            ),
            final(self).constants@.contains_key(scalar) && final(self).constants@[scalar] == r,
            r.value == Some(scalar),
            rows(old(ctx)@) <= rows(final(ctx)@) <= rows(old(ctx)@) + 1,
            old(ctx)@.is_prefix_of(final(ctx)@),
    {
        let columns = self.columns;
        self.constants.get_wide(&columns, ctx, scalar)
    }

    /// The assigned point with the constant coordinates of `point`.
    pub fn get_constant_point(&mut self, ctx: &mut RegionCtx, point: &Point) -> (r: AssignedPoint)
        requires
            old(self).wf(),
            old(ctx).wf(),
            point.on_curve(),
        ensures
            final(self).wf(),
            final(ctx).wf(),
            final(self).same_setup(old(self)),
            final(self).memory == old(self).memory,
            r.point() == Some(*point),
            old(ctx)@.is_prefix_of(final(ctx)@),
    {
        let x = self.get_constant(ctx, point.x);
        let ghost middle = ctx@;
        let y = self.get_constant(ctx, point.y);
        proof {
            lemma_prefix(old(ctx)@, middle, ctx@);
        }
        AssignedPoint::new(x, y)
    }

    /// Lays out the row that assigns a point and constrains it to the curve.
    pub fn assign_point(&self, ctx: &mut RegionCtx, point: &Option<Point>) -> (r: AssignedPoint)
        requires
            old(ctx).wf(),
            valid(*point),
        ensures
            final(ctx).wf(),
            final(ctx)@ == old(ctx)@ + assign_point_ops(self.columns, *point),
            rows(final(ctx)@) == rows(old(ctx)@) + 1,
            r.cell_x() == advice_cell(self.columns.a0, rows(old(ctx)@), coord_x(*point)),
            r.cell_y() == advice_cell(self.columns.a1, rows(old(ctx)@), coord_y(*point)),
            r.point() == *point,
    {
        let c = self.columns;
        let (x, y) = unzip(point);
        let x_square = value_mul(&x, &x);
        let x_cube = value_mul(&x_square, &x);
        ctx.enable(Selector::Point);
        let x = ctx.advice(c.a0, x);
        let y = ctx.advice(c.a1, y);
        ctx.advice(c.a2, x_square);
        ctx.advice(c.a3, x_cube);
        ctx.empty(Column::Advice(c.a4));
        ctx.empty(Column::Advice(c.a5));
        ctx.empty(Column::Advice(c.a6));
        ctx.empty(Column::Advice(c.a7));
        ctx.empty(Column::Advice(c.a8));
        ctx.fixed(c.constant, Fe::zero());
        ctx.next();
        assert(ctx@ =~= old(ctx)@ + assign_point_ops(c, *point));
        AssignedPoint::new(x, y)
    }

    /// Lays out the row of the incomplete addition of `a` and `b`.
    pub fn add(&self, ctx: &mut RegionCtx, a: &AssignedPoint, b: &AssignedPoint) -> (r:
        AssignedPoint)
        requires
            old(ctx).wf(),
        ensures
            final(ctx).wf(),
            final(ctx)@ == old(ctx)@ + add_ops(self.columns, *a, *b),
            rows(final(ctx)@) == rows(old(ctx)@) + 1,
            r.point() == incomplete_add(a.point(), b.point()),
            r.cell_x() == advice_cell(self.columns.a3, rows(old(ctx)@), coord_x(r.point())),
            r.cell_y() == advice_cell(self.columns.a4, rows(old(ctx)@), coord_y(r.point())),
    {
        let c = self.columns;
        let w = compute_add(&a.value(), &b.value());
        let (out_x, out_y) = unzip(&w.out);
        ctx.enable(Selector::Add);
        ctx.empty(Column::Advice(c.a0));
        ctx.copy(c.a1, a.x());
        ctx.copy(c.a2, a.y());
        let out_x = ctx.advice(c.a3, out_x);
        let out_y = ctx.advice(c.a4, out_y);
        ctx.copy(c.a5, b.x());
        ctx.copy(c.a6, b.y());
        ctx.advice(c.a7, w.t);
        ctx.advice(c.a8, w.inverse_t);
        ctx.fixed(c.constant, Fe::zero());
        ctx.next();
        assert(ctx@ =~= old(ctx)@ + add_ops(c, *a, *b));
        AssignedPoint::new(out_x, out_y)
    }

    /// Lays out the row of the doubling of `point`.
    pub fn dbl(&self, ctx: &mut RegionCtx, point: &AssignedPoint) -> (r: AssignedPoint)
        requires
            old(ctx).wf(),
        ensures
            final(ctx).wf(),
            final(ctx)@ == old(ctx)@ + double_ops(self.columns, *point),
            rows(final(ctx)@) == rows(old(ctx)@) + 1,
            r.point() == incomplete_double(point.point()),
            r.cell_x() == advice_cell(self.columns.a5, rows(old(ctx)@), coord_x(r.point())),
            r.cell_y() == advice_cell(self.columns.a6, rows(old(ctx)@), coord_y(r.point())),
    {
        let c = self.columns;
        let w = compute_double(&point.value());
        let (out_x, out_y) = unzip(&w.out);
        ctx.enable(Selector::Double);
        ctx.copy(c.a0, point.x());
        ctx.copy(c.a1, point.y());
        ctx.advice(c.a2, w.x2);
        ctx.advice(c.a3, w.x4);
        ctx.advice(c.a4, w.y2);
        let out_x = ctx.advice(c.a5, out_x);
        let out_y = ctx.advice(c.a6, out_y);
        ctx.empty(Column::Advice(c.a7));
        ctx.empty(Column::Advice(c.a8));
        ctx.fixed(c.constant, Fe::zero());
        ctx.next();
        assert(ctx@ =~= old(ctx)@ + double_ops(c, *point));
        AssignedPoint::new(out_x, out_y)
    }

    /// Reads the bucket at the witnessed `address`, adds `b` to it and writes
    /// the sum in its place: one query, in one row.
    pub fn rw_add(&mut self, ctx: &mut RegionCtx, address: &Value, b: &AssignedPoint) -> (r:
        AssignedPoint)
        requires
            old(self).wf(),
            old(ctx).wf(),
            *address matches Some(a) ==> old(self).memory.points().contains_key(a),
        ensures
            final(self).wf(),
            final(ctx).wf(),
            final(self).same_setup(old(self)),
            final(self).constants == old(self).constants,
            ({
                let a = read_value(old(self).memory.points(), *address);
                &&& r.point() == incomplete_add(a, b.point())
                &&& final(ctx)@ == old(ctx)@ + query_add_ops(
                    old(self).columns,
                    old(self).memory.trace().len(),
                    Op::Advice(old(self).columns.a0, *address),
                    a,
                    *b,
                )
            }),
            final(self).memory.points() == written(
                old(self).memory.points(),
                *address,
                r.point(),
            ),
            final(self).memory.trace() == old(self).memory.trace().push(
                replaced(old(self).memory.state(), *address, Content::Holds(r.point())),
            ),
            rows(final(ctx)@) == rows(old(ctx)@) + 1,
            r.cell_x() == advice_cell(old(self).columns.a3, rows(old(ctx)@), coord_x(r.point())),
            r.cell_y() == advice_cell(old(self).columns.a4, rows(old(ctx)@), coord_y(r.point())),
    {
        let c = self.columns;
        let timestamp = self.memory.timestamp();
        ctx.enable(Selector::Add);
        ctx.enable(Selector::Query);
        let address = ctx.advice(c.a0, *address);
        let a = self.memory.point_at(&address.value);
        let w = compute_add(&a, &b.value());
        let (out_x, out_y) = unzip(&w.out);
        proof {
            if address.value.is_some() {
                lemma_points_written(self.memory.state(), address.value.unwrap(), w.out);
            }
        }
        self.memory.write(&address.value, &w.out);
        let (a_x, a_y) = unzip(&a);
        ctx.advice(c.a1, a_x);
        ctx.advice(c.a2, a_y);
        let out_x = ctx.advice(c.a3, out_x);
        let out_y = ctx.advice(c.a4, out_y);
        ctx.copy(c.a5, b.x());
        ctx.copy(c.a6, b.y());
        ctx.advice(c.a7, w.t);
        ctx.advice(c.a8, w.inverse_t);
        ctx.fixed(c.constant, Fe::from_u64(timestamp as u64));
        ctx.next();
        assert(ctx@ =~= old(ctx)@ + query_add_ops(
            c,
            old(self).memory.trace().len(),
            Op::Advice(c.a0, address.value),
            a,
            *b,
        ));
        AssignedPoint::new(out_x, out_y)
    }

    /// Reads the bucket at the assigned `address`, adds `b` to it and writes
    /// the sum in its place: one query, in one row.
    pub fn read_add(&mut self, ctx: &mut RegionCtx, address: &AssignedValue, b: &AssignedPoint)
        -> (r: AssignedPoint)
        requires
            old(self).wf(),
            old(ctx).wf(),
            address.value matches Some(a) ==> old(self).memory.points().contains_key(a),
        ensures
            final(self).wf(),
            final(ctx).wf(),
            final(self).same_setup(old(self)),
            final(self).constants == old(self).constants,
            ({
                let a = read_value(old(self).memory.points(), address.value);
                &&& r.point() == incomplete_add(a, b.point())
                &&& final(ctx)@ == old(ctx)@ + query_add_ops(
                    old(self).columns,
                    old(self).memory.trace().len(),
                    Op::Copy(old(self).columns.a0, address.cell, address.value),
                    a,
                    *b,
                )
            }),
            final(self).memory.points() == written(
                old(self).memory.points(),
                address.value,
                r.point(),
            ),
            final(self).memory.trace() == old(self).memory.trace().push(
                replaced(old(self).memory.state(), address.value, Content::Holds(r.point())),
            ),
            rows(final(ctx)@) == rows(old(ctx)@) + 1,
            r.cell_x() == advice_cell(old(self).columns.a3, rows(old(ctx)@), coord_x(r.point())),
            r.cell_y() == advice_cell(old(self).columns.a4, rows(old(ctx)@), coord_y(r.point())),
    {
        let c = self.columns;
        let timestamp = self.memory.timestamp();
        ctx.enable(Selector::Add);
        ctx.enable(Selector::Query);
        let copied = ctx.copy(c.a0, address);
        let a = self.memory.point_at(&copied.value);
        let w = compute_add(&a, &b.value());
        let (out_x, out_y) = unzip(&w.out);
        proof {
            if address.value.is_some() {
                lemma_points_written(self.memory.state(), address.value.unwrap(), w.out);
            }
        }
        self.memory.write(&copied.value, &w.out);
        let (a_x, a_y) = unzip(&a);
        ctx.advice(c.a1, a_x);
        ctx.advice(c.a2, a_y);
        let out_x = ctx.advice(c.a3, out_x);
        let out_y = ctx.advice(c.a4, out_y);
        ctx.copy(c.a5, b.x());
        ctx.copy(c.a6, b.y());
        ctx.advice(c.a7, w.t);
        ctx.advice(c.a8, w.inverse_t);
        ctx.fixed(c.constant, Fe::from_u64(timestamp as u64));
        ctx.next();
        assert(ctx@ =~= old(ctx)@ + query_add_ops(
            c,
            old(self).memory.trace().len(),
            Op::Copy(c.a0, address.cell, address.value),
            a,
            *b,
        ));
        AssignedPoint::new(out_x, out_y)
    }

    /// Writes `point` at the assigned `address`, in the place of what is
    /// held there: one query, in one row.
    pub fn write_point(
        &mut self,
        ctx: &mut RegionCtx,
        address: &AssignedValue,
        point: &AssignedPoint,
    )
        requires
            old(self).wf(),
            old(ctx).wf(),
        ensures
            final(self).wf(),
            final(ctx).wf(),
            final(self).same_setup(old(self)),
            final(self).constants == old(self).constants,
            final(ctx)@ == old(ctx)@ + query_ops(
                old(self).columns,
                old(self).memory.trace().len(),
                true,
                *address,
                read_shown(old(self).memory.state(), address.value),
                (coord_x(point.point()), coord_y(point.point())),
            ),
            final(self).memory.points() == written(
                old(self).memory.points(),
                address.value,
                point.point(),
            ),
            final(self).memory.trace() == old(self).memory.trace().push(
                replaced(old(self).memory.state(), address.value, Content::Holds(point.point())),
            ),
            rows(final(ctx)@) == rows(old(ctx)@) + 1,
    {
        let c = self.columns;
        let timestamp = self.memory.timestamp();
        let coords = point.value();
        let (x1, y1) = unzip(&coords);
        let (x0, y0) = self.memory.previous(&address.value);
        proof {
            if address.value.is_some() {
                lemma_points_written(self.memory.state(), address.value.unwrap(), coords);
            }
        }
        self.memory.write(&address.value, &coords);
        ctx.enable(Selector::Query);
        ctx.enable(Selector::Range);
        ctx.copy(c.a0, address);
        ctx.advice(c.a1, x0);
        ctx.advice(c.a2, y0);
        ctx.advice(c.a3, x1);
        ctx.advice(c.a4, y1);
        ctx.empty(Column::Advice(c.a5));
        ctx.empty(Column::Advice(c.a6));
        ctx.empty(Column::Advice(c.a7));
        ctx.empty(Column::Advice(c.a8));
        ctx.fixed(c.constant, Fe::from_u64(timestamp as u64));
        ctx.next();
        assert(ctx@ =~= old(ctx)@ + query_ops(
            c,
            old(self).memory.trace().len(),
            true,
            *address,
            (x0, y0),
            (x1, y1),
        ));
    }

    /// Reads the point at the assigned `address` and leaves nothing in its
    /// place: one query, in one row.
    pub fn read_point(&mut self, ctx: &mut RegionCtx, address: &AssignedValue) -> (r:
        AssignedPoint)
        requires
            old(self).wf(),
            old(ctx).wf(),
            address.value matches Some(a) ==> old(self).memory.points().contains_key(a),
        ensures
            final(self).wf(),
            final(ctx).wf(),
            final(self).same_setup(old(self)),
            final(self).constants == old(self).constants,
            r.point() == read_value(old(self).memory.points(), address.value),
            final(ctx)@ == old(ctx)@ + query_ops(
                old(self).columns,
                old(self).memory.trace().len(),
                false,
                *address,
                (coord_x(r.point()), coord_y(r.point())),
                (Some(zero()), Some(zero())),
            ),
            final(self).memory.points() == match address.value {
                Some(a) => old(self).memory.points().remove(a),
                None => old(self).memory.points(),
            },
            final(self).memory.trace() == old(self).memory.trace().push(
                replaced(old(self).memory.state(), address.value, Content::Zero),
            ),
            rows(final(ctx)@) == rows(old(ctx)@) + 1,
            r.cell_x() == advice_cell(old(self).columns.a1, rows(old(ctx)@), coord_x(r.point())),
            r.cell_y() == advice_cell(old(self).columns.a2, rows(old(ctx)@), coord_y(r.point())),
    {
        let c = self.columns;
        let timestamp = self.memory.timestamp();
        let point = self.memory.point_at(&address.value);
        proof {
            if address.value.is_some() {
                lemma_points_written(self.memory.state(), address.value.unwrap(), None);
            }
        }
        self.memory.dummy_write(&address.value);
        let (x, y) = unzip(&point);
        ctx.enable(Selector::Query);
        ctx.copy(c.a0, address);
        let x = ctx.advice(c.a1, x);
        let y = ctx.advice(c.a2, y);
        ctx.empty(Column::Advice(c.a3));
        ctx.empty(Column::Advice(c.a4));
        ctx.empty(Column::Advice(c.a5));
        ctx.empty(Column::Advice(c.a6));
        ctx.empty(Column::Advice(c.a7));
        ctx.empty(Column::Advice(c.a8));
        ctx.fixed(c.constant, Fe::from_u64(timestamp as u64));
        ctx.next();
        assert(ctx@ =~= old(ctx)@ + query_ops(
            c,
            old(self).memory.trace().len(),
            false,
            *address,
            (coord_x(point), coord_y(point)),
            (Some(zero()), Some(zero())),
        ));
        AssignedPoint::new(x, y)
    }

    /// The values of the range table: every window, from zero up.
    pub fn layout_range_table(&self) -> (r: Vec<Fe>)
        requires
            self.wf(),
        ensures
            r@.len() == pow2(self.window as nat),
            forall|i: int| 0 <= i < r@.len() ==> r@[i] == word(i as nat),
    {
        let max_limb = number_of_buckets(self.window);
        let mut r: Vec<Fe> = Vec::new();
        let mut i: u64 = 0;
        while i < max_limb
            invariant
                i <= max_limb,
                r@.len() == i,
                forall|k: int| 0 <= k < i ==> r@[k] == word(k as nat),
            decreases max_limb - i,
        {
            r.push(Fe::from_u64(i));
            i = i + 1;
        }
        r
    }
}

} // verus!
