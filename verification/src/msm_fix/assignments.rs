//! The rows of the fixed-base method and the multiplication.

use super::config::FixMSMGate;
use crate::curve::{group_neg, Point};
use crate::field::Fe;
use crate::gate::{
    add_ops, add_witness, advice_cell, assign_point_ops, constant_step, coord_x, coord_y,
    double_ops, equal_ops, incomplete_add, incomplete_double, unzip, zero, zero_advice, Columns,
};
use crate::region::{
    lemma_prefix, rows, valid, Advice, AssignedPoint, AssignedValue, Column, Fixed, Op, RegionCtx,
    Selector, Value,
};
use crate::scalar::{lemma_window_bound, Scalar};
use crate::windows::{
    column, decomposed, doubled, limb_at, number_of_buckets, number_of_rounds, rounds, word,
};
use vstd::arithmetic::power2::{lemma_pow2_pos, pow2};
use vstd::bits::lemma_u64_pow2_no_overflow;
use vstd::prelude::*;

verus! {

/// The place in the table of the entry of the `index`-th base at an
/// address.
pub open spec fn place(w: nat, index: nat, address: Fe) -> nat {
    pow2(w) * index + address@
}

/// What the table holds for the `index`-th base at a witnessed address.
pub open spec fn table_read(table: Seq<Point>, w: nat, index: nat, address: Value) -> Option<
    Point,
> {
    match address {
        Some(a) => Some(table[place(w, index, a) as int]),
        None => None,
    }
}

/// The cells of a lookup into the table, in a row that stays open: the
/// address within the table of the base, the base's offset plus one, and the
/// point found.
pub open spec fn read_in_place_ops(
    c: Columns,
    w: nat,
    index: nat,
    address: Value,
    point: Option<Point>,
) -> Seq<Op> {
    seq![
        Op::Enable(Selector::Query),
        Op::Enable(Selector::Range),
        Op::Advice(c.a0, address),
        Op::Fixed(c.constant, word(pow2(w) * index + 1)),
        Op::Advice(c.a1, coord_x(point)),
        Op::Advice(c.a2, coord_y(point)),
    ]
}

/// The row of a lookup.
pub open spec fn read_point_ops(
    c: Columns,
    w: nat,
    index: nat,
    address: Value,
    point: Option<Point>,
) -> Seq<Op> {
    read_in_place_ops(c, w, index, address, point) + seq![
        zero_advice(c.a3),
        zero_advice(c.a4),
        Op::Next,
    ]
}

/// The two rows of a lookup with an addition: the point found and the
/// summand `b`, then their sum.
pub open spec fn read_add_ops(
    c: Columns,
    w: nat,
    index: nat,
    address: Value,
    a: Option<Point>,
    b: AssignedPoint,
) -> Seq<Op> {
    let witness = add_witness(a, b.point());
    seq![Op::Enable(Selector::Add)] + read_in_place_ops(c, w, index, address, a) + seq![
        Op::Copy(c.a3, b.cell_x().cell, b.cell_x().value),
        Op::Copy(c.a4, b.cell_y().cell, b.cell_y().value),
        Op::Next,
        zero_advice(c.a0),
        Op::Advice(c.a1, coord_x(witness.out)),
        Op::Advice(c.a2, coord_y(witness.out)),
        Op::Advice(c.a3, witness.t),
        Op::Advice(c.a4, witness.inverse_t),
        Op::Fixed(c.constant, zero()),
        Op::Next,
    ]
}

/// The accumulator after the lookups of the first `i` scalars in round `j`:
/// each lookup adds the entry of the table that the window of the scalar
/// names; between rounds the accumulator is doubled `w` times.
pub open spec fn accumulator(
    table: Seq<Point>,
    w: nat,
    scalars: Seq<Option<Scalar>>,
    j: nat,
    i: nat,
) -> Option<Point>
    decreases j, i,
{
    if i == 0 {
        if j == 0 {
            None
        } else {
            doubled(accumulator(table, w, scalars, (j - 1) as nat, scalars.len()), w)
        }
    } else {
        let found = table_read(table, w, (i - 1) as nat, column(scalars, w, j as int)[i - 1]);
        if j == 0 && i == 1 {
            found
        } else {
            incomplete_add(found, accumulator(table, w, scalars, j, (i - 1) as nat))
        }
    }
}

/// The result of the multiplication: the accumulator of the last round,
/// with the inverse of the correction added.
pub open spec fn fixed_msm(
    table: Seq<Point>,
    correction: Point,
    w: nat,
    scalars: Seq<Option<Scalar>>,
) -> Option<Point> {
    incomplete_add(
        accumulator(table, w, scalars, (number_of_rounds(w) - 1) as nat, scalars.len()),
        group_neg(Some(correction)),
    )
}

impl FixMSMGate {
    /// The advice columns.
    pub fn advice_columns(&self) -> (r: Vec<Advice>)
        ensures
            r@ == seq![
                self.columns.a0,
                self.columns.a1,
                self.columns.a2,
                self.columns.a3,
                self.columns.a4,
            ],
    {
        let mut r = Vec::new();
        r.push(self.columns.a0);
        r.push(self.columns.a1);
        r.push(self.columns.a2);
        r.push(self.columns.a3);
        r.push(self.columns.a4);
        assert(r@ =~= seq![
            self.columns.a0,
            self.columns.a1,
            self.columns.a2,
            self.columns.a3,
            self.columns.a4,
        ]);
        r
    }

    /// The fixed columns.
    pub fn fixed_colmns(&self) -> (r: Vec<Fixed>)
        ensures
            r@ == seq![self.columns.constant],
    {
        let mut r = Vec::new();
        r.push(self.columns.constant);
        assert(r@ =~= seq![self.columns.constant]);
        r
    }

    /// The cell of the constant `scalar`: the one in the cache, or that of a
    /// new row, which then goes into the cache.
    pub fn get_constant(&mut self, ctx: &mut RegionCtx, scalar: Fe) -> (r: AssignedValue)
        requires
            old(self).wf(),
            old(ctx).wf(),
        ensures
            final(self).wf(),
            final(ctx).wf(),
            final(self).same_setup(old(self)),
            (final(self).constants@, final(ctx)@) == constant_step(
                old(self).columns,
                old(self).constants@,
                old(ctx)@,
                scalar,
            ),
            final(self).constants@.contains_key(scalar) && final(self).constants@[scalar] == r,
            r.value == Some(scalar),
            rows(old(ctx)@) <= rows(final(ctx)@) <= rows(old(ctx)@) + 1,
            old(ctx)@.is_prefix_of(final(ctx)@),
    {
        let columns = self.columns;
        self.constants.get(&columns, ctx, scalar)
    }

    /// The assigned point with the constant coordinates of `point`.
    pub fn get_constant_point(&mut self, ctx: &mut RegionCtx, point: &Point) -> (r: AssignedPoint)
        requires
            old(self).wf(),
            old(ctx).wf(),
            point.on_curve(),
        ensures
            final(self).wf(),
            final(ctx).wf(),
            final(self).same_setup(old(self)),
            ({
                let (cache, ops) = constant_step(
                    old(self).columns,
                    old(self).constants@,
                    old(ctx)@,
                    point.x,
                );
                (final(self).constants@, final(ctx)@) == constant_step(
                    old(self).columns,
                    cache,
                    ops,
                    point.y,
                )
            }),
            r.point() == Some(*point),
            rows(old(ctx)@) <= rows(final(ctx)@) <= rows(old(ctx)@) + 2,
            old(ctx)@.is_prefix_of(final(ctx)@),
    {
        let columns = self.columns;
        self.constants.get_point(&columns, ctx, point)
    }

    /// The inverse of the correction as an assigned constant.
    pub fn correction_point(&mut self, ctx: &mut RegionCtx, _number_of_points: usize) -> (r:
        AssignedPoint)
        requires
            old(self).wf(),
            old(ctx).wf(),
        ensures
            final(self).wf(),
            final(ctx).wf(),
            final(self).same_setup(old(self)),
            r.point() == group_neg(Some(old(self).correction)),
            rows(old(ctx)@) <= rows(final(ctx)@) <= rows(old(ctx)@) + 2,
            old(ctx)@.is_prefix_of(final(ctx)@),
    {
        let point = self.correction.neg();
        self.get_constant_point(ctx, &point)
    }

    /// The windows of the scalars, round by round, the most significant
    /// first.
    pub fn decompose_scalars(&self, scalars: &[Option<Scalar>]) -> (r: Vec<Vec<Value>>)
        requires
            1 <= self.window < 64,
        ensures
            decomposed(r@, scalars@, self.window as nat),
    {
        crate::windows::decompose_scalars(self.window, scalars)
    }

    /// Lays out the row that assigns a point and constrains it to the curve.
    pub fn assign_point(&self, ctx: &mut RegionCtx, point: &Option<Point>) -> (r: AssignedPoint)
        requires
            old(ctx).wf(),
            valid(*point),
        ensures
            final(ctx).wf(),
            final(ctx)@ == old(ctx)@ + assign_point_ops(self.columns, *point),
            rows(final(ctx)@) == rows(old(ctx)@) + 1,
            r.cell_x() == advice_cell(self.columns.a0, rows(old(ctx)@), coord_x(*point)),
            r.cell_y() == advice_cell(self.columns.a1, rows(old(ctx)@), coord_y(*point)),
            r.point() == *point,
    {
        crate::gate::assign_point(&self.columns, ctx, point)
    }

    /// Looks the entry of the `point_idx`-th base at `address` up, in a row
    /// that stays open.
    pub fn read_point_in_place(&self, ctx: &mut RegionCtx, point_idx: usize, address: &Value) -> (r:
        AssignedPoint)
        requires
            self.wf(),
            old(ctx).wf(),
            pow2(self.window as nat) * (point_idx + 1) <= self.memory@.len(),
            *address matches Some(a) ==> a@ < pow2(self.window as nat),
        ensures
            final(ctx).wf(),
            r.point() == table_read(self.memory@, self.window as nat, point_idx as nat, *address),
            final(ctx)@ == old(ctx)@ + read_in_place_ops(
                self.columns,
                self.window as nat,
                point_idx as nat,
                *address,
                r.point(),
            ),
            rows(final(ctx)@) == rows(old(ctx)@),
            r.cell_x() == advice_cell(self.columns.a1, rows(old(ctx)@), coord_x(r.point())),
            r.cell_y() == advice_cell(self.columns.a2, rows(old(ctx)@), coord_y(r.point())),
    {
        let c = self.columns;
        ctx.enable(Selector::Query);
        ctx.enable(Selector::Range);
        let size = number_of_buckets(self.window);
        let ghost w = self.window as nat;
        let total = self.memory.len();
        proof {
            lemma_pow2_pos(w);
            assert(pow2(w) * (point_idx + 1) == pow2(w) * point_idx + pow2(w)) by (nonlinear_arith);
            assert(0 <= pow2(w) * point_idx) by (nonlinear_arith);
            assert(size * point_idx + size <= total);
        }
        let base = size * (point_idx as u64);
        let point = match address {
            Some(a) => {
                let offset = a.to_u64().unwrap();
                Some(self.memory[(base + offset) as usize])
            },
            None => None,
        };
        let (x, y) = unzip(&point);
        ctx.advice(c.a0, *address);
        ctx.fixed(c.constant, Fe::from_u64(base + 1));
        let x = ctx.advice(c.a1, x);
        let y = ctx.advice(c.a2, y);
        assert(ctx@ =~= old(ctx)@ + read_in_place_ops(c, w, point_idx as nat, *address, point));
        proof {
            if point.is_some() {
                assert(self.memory@[place(w, point_idx as nat, address.unwrap()) as int].on_curve());
            }
        }
        AssignedPoint::new(x, y)
    }

    /// Looks the entry of the `point_idx`-th base at `address` up, in a row
    /// of its own.
    pub fn read_point(&self, ctx: &mut RegionCtx, point_idx: usize, address: &Value) -> (r:
        AssignedPoint)
        requires
            self.wf(),
            old(ctx).wf(),
            pow2(self.window as nat) * (point_idx + 1) <= self.memory@.len(),
            *address matches Some(a) ==> a@ < pow2(self.window as nat),
        ensures
            final(ctx).wf(),
            r.point() == table_read(self.memory@, self.window as nat, point_idx as nat, *address),
            final(ctx)@ == old(ctx)@ + read_point_ops(
                self.columns,
                self.window as nat,
                point_idx as nat,
                *address,
                r.point(),
            ),
            rows(final(ctx)@) == rows(old(ctx)@) + 1,
            r.cell_x() == advice_cell(self.columns.a1, rows(old(ctx)@), coord_x(r.point())),
            r.cell_y() == advice_cell(self.columns.a2, rows(old(ctx)@), coord_y(r.point())),
    {
        let c = self.columns;
        let point = self.read_point_in_place(ctx, point_idx, address);
        ctx.empty(Column::Advice(c.a3));
        ctx.empty(Column::Advice(c.a4));
        ctx.next();
        assert(ctx@ =~= old(ctx)@ + read_point_ops(
            c,
            self.window as nat,
            point_idx as nat,
            *address,
            point.point(),
        ));
        point
    }

    /// Looks the entry of the `point_idx`-th base at `address` up and adds
    /// `b` to it, in two rows.
    pub fn read_add(
        &self,
        ctx: &mut RegionCtx,
        point_idx: usize,
        address: &Value,
        b: &AssignedPoint,
    ) -> (r: AssignedPoint)
        requires
            self.wf(),
            old(ctx).wf(),
            pow2(self.window as nat) * (point_idx + 1) <= self.memory@.len(),
            *address matches Some(a) ==> a@ < pow2(self.window as nat),
        ensures
            final(ctx).wf(),
            ({
                let a = table_read(self.memory@, self.window as nat, point_idx as nat, *address);
                &&& r.point() == incomplete_add(a, b.point())
                &&& final(ctx)@ == old(ctx)@ + read_add_ops(
                    self.columns,
                    self.window as nat,
                    point_idx as nat,
                    *address,
                    a,
                    *b,
                )
            }),
            rows(final(ctx)@) == rows(old(ctx)@) + 2,
            r.cell_x() == advice_cell(self.columns.a1, rows(old(ctx)@) + 1, coord_x(r.point())),
            r.cell_y() == advice_cell(self.columns.a2, rows(old(ctx)@) + 1, coord_y(r.point())),
    {
        let c = self.columns;
        ctx.enable(Selector::Add);
        let a = self.read_point_in_place(ctx, point_idx, address);
        let w = crate::gate::compute_add(&a.value(), &b.value());
        let (out_x, out_y) = unzip(&w.out);
        ctx.copy(c.a3, b.x());
        ctx.copy(c.a4, b.y());
        ctx.next();
        ctx.empty(Column::Advice(c.a0));
        let out_x = ctx.advice(c.a1, out_x);
        let out_y = ctx.advice(c.a2, out_y);
        ctx.advice(c.a3, w.t);
        ctx.advice(c.a4, w.inverse_t);
        ctx.fixed(c.constant, Fe::zero());
        ctx.next();
        assert(ctx@ =~= old(ctx)@ + read_add_ops(
            c,
            self.window as nat,
            point_idx as nat,
            *address,
            a.point(),
            *b,
        ));
        AssignedPoint::new(out_x, out_y)
    }

    /// Lays out the two rows of the incomplete addition of `a` and `b`.
    pub fn add(&self, ctx: &mut RegionCtx, a: &AssignedPoint, b: &AssignedPoint) -> (r:
        AssignedPoint)
        requires
            old(ctx).wf(),
        ensures
            final(ctx).wf(),
            final(ctx)@ == old(ctx)@ + add_ops(self.columns, *a, *b),
            rows(final(ctx)@) == rows(old(ctx)@) + 2,
            r.point() == incomplete_add(a.point(), b.point()),
            r.cell_x() == advice_cell(self.columns.a1, rows(old(ctx)@) + 1, coord_x(r.point())),
            r.cell_y() == advice_cell(self.columns.a2, rows(old(ctx)@) + 1, coord_y(r.point())),
    {
        crate::gate::add(&self.columns, ctx, a, b)
    }

    /// Lays out the two rows of the doubling of `point`.
    pub fn dbl(&self, ctx: &mut RegionCtx, point: &AssignedPoint) -> (r: AssignedPoint)
        requires
            old(ctx).wf(),
        ensures
            final(ctx).wf(),
            final(ctx)@ == old(ctx)@ + double_ops(self.columns, *point),
            rows(final(ctx)@) == rows(old(ctx)@) + 2,
            r.point() == incomplete_double(point.point()),
            r.cell_x() == advice_cell(self.columns.a2, rows(old(ctx)@) + 1, coord_x(r.point())),
            r.cell_y() == advice_cell(self.columns.a3, rows(old(ctx)@) + 1, coord_y(r.point())),
    {
        crate::gate::double(&self.columns, ctx, point)
    }

    /// Constrains two assigned points to be equal.
    pub fn equal(&self, ctx: &mut RegionCtx, a: &AssignedPoint, b: &AssignedPoint)
        requires
            old(ctx).wf(),
        ensures
            final(ctx).wf(),
            final(ctx)@ == old(ctx)@ + equal_ops(*a, *b),
            rows(final(ctx)@) == rows(old(ctx)@),
    {
        crate::gate::equal(ctx, a, b)
    }

    /// The values of the range table: every window, from zero up.
    pub fn layout_range_table(&self) -> (r: Vec<Fe>)
        requires
            self.wf(),
        ensures
            r@.len() == pow2(self.window as nat),
            forall|i: int| 0 <= i < r@.len() ==> r@[i] == word(i as nat),
    {
        let max_limb = number_of_buckets(self.window);
        let mut r: Vec<Fe> = Vec::new();
        let mut i: u64 = 0;
        while i < max_limb
            invariant
                i <= max_limb,
                r@.len() == i,
                forall|k: int| 0 <= k < i ==> r@[k] == word(k as nat),
            decreases max_limb - i,
        {
            r.push(Fe::from_u64(i));
            i = i + 1;
        }
        r
    }

    /// The rows of the table of points, each an address with the two
    /// coordinates found there: a row of zeros, then the entries of the
    /// table with their places counted from one.
    pub fn layout_point_table(&self) -> (r: Vec<(Fe, Fe, Fe)>)
        requires
            self.wf(),
        ensures
            r@.len() == self.memory@.len() + 1,
            r@[0] == (zero(), zero(), zero()),
            forall|a: int|
                0 <= a < self.memory@.len() ==> r@[a + 1] == (
                    word((a + 1) as nat),
                    self.memory@[a].x,
                    self.memory@[a].y,
                ),
    {
        let mut r: Vec<(Fe, Fe, Fe)> = Vec::new();
        r.push((Fe::zero(), Fe::zero(), Fe::zero()));
        let mut a: usize = 0;
        while a < self.memory.len()
            invariant
                a <= self.memory@.len(),
                r@.len() == a + 1,
                r@[0] == (zero(), zero(), zero()),
                forall|k: int|
                    0 <= k < a ==> r@[k + 1] == (
                        word((k + 1) as nat),
                        self.memory@[k].x,
                        self.memory@[k].y,
                    ),
            decreases self.memory@.len() - a,
        {
            let point = self.memory[a];
            r.push((Fe::from_u64((a + 1) as u64), point.x, point.y));
            a = a + 1;
        }
        r
    }

    /// One lookup of a round: the entry found starts the accumulator, or is
    /// added to it.
    fn lookup_step(
        &self,
        ctx: &mut RegionCtx,
        acc: &Option<AssignedPoint>,
        point_idx: usize,
        address: &Value,
    ) -> (r: AssignedPoint)
        requires
            self.wf(),
            old(ctx).wf(),
            pow2(self.window as nat) * (point_idx + 1) <= self.memory@.len(),
            *address matches Some(a) ==> a@ < pow2(self.window as nat),
        ensures
            final(ctx).wf(),
            old(ctx)@.is_prefix_of(final(ctx)@),
            r.point() == match *acc {
                Some(p) => incomplete_add(
                    table_read(self.memory@, self.window as nat, point_idx as nat, *address),
                    p.point(),
                ),
                None => table_read(self.memory@, self.window as nat, point_idx as nat, *address),
            },
    {
        let ghost c = ctx@;
        let ghost w = self.window as nat;
        match acc {
            Some(p) => {
                let sum = self.read_add(ctx, point_idx, address, p);
                proof {
                    lemma_prefix(c, read_add_ops(
                        self.columns,
                        w,
                        point_idx as nat,
                        *address,
                        table_read(self.memory@, w, point_idx as nat, *address),
                        *p,
                    ), ctx@);
                }
                sum
            },
            None => {
                let found = self.read_point(ctx, point_idx, address);
                proof {
                    lemma_prefix(c, read_point_ops(
                        self.columns,
                        w,
                        point_idx as nat,
                        *address,
                        found.point(),
                    ), ctx@);
                }
                found
            },
        }
    }

    /// Lays out the multiplication of the bases of the table by the scalars
    /// and returns the assigned result: the accumulator of the last round
    /// with the inverse of the correction added.
    pub fn msm(&mut self, ctx: &mut RegionCtx, scalars: &[Option<Scalar>]) -> (r: AssignedPoint)
        requires
            old(self).wf(),
            old(ctx).wf(),
            scalars@.len() > 0,
            old(self).memory@.len() == scalars@.len() * pow2(old(self).window as nat),
        ensures
            final(self).wf(),
            final(ctx).wf(),
            final(self).same_setup(old(self)),
            old(ctx)@.is_prefix_of(final(ctx)@),
            r.point() == fixed_msm(
                old(self).memory@,
                old(self).correction,
                old(self).window as nat,
                scalars@,
            ),
    {
        let ghost w = self.window as nat;
        let ghost table = self.memory@;
        let ghost n = scalars@.len();
        let limbs = self.decompose_scalars(scalars);
        let count = rounds(self.window);
        let window = self.window;
        let mut acc: Option<AssignedPoint> = None;
        let mut round: usize = 0;
        proof {
            lemma_prefix(ctx@, ctx@, ctx@);
            lemma_pow2_pos(w);
        }
        while round < count
            invariant
                round <= count,
                count == number_of_rounds(w),
                1 <= count,
                n == scalars@.len(),
                n > 0,
                table == self.memory@,
                table.len() == n * pow2(w),
                w == self.window,
                window == self.window,
                decomposed(limbs@, scalars@, w),
                self.wf(),
                ctx.wf(),
                self.same_setup(old(self)),
                old(ctx)@.is_prefix_of(ctx@),
                round > 0 ==> acc.is_some() && acc.unwrap().point() == accumulator(
                    table,
                    w,
                    scalars@,
                    (round - 1) as nat,
                    n,
                ),
                round == 0 ==> acc.is_none(),
            decreases count - round,
        {
            if round != 0 {
                let ghost c0 = ctx@;
                let mut point = acc.unwrap();
                let mut k: usize = 0;
                while k < window
                    invariant
                        k <= window,
                        ctx.wf(),
                        c0.is_prefix_of(ctx@),
                        acc.is_some(),
                        point.point() == doubled(acc.unwrap().point(), k as nat),
                    decreases window - k,
                {
                    let ghost c = ctx@;
                    let ghost p = point;
                    point = self.dbl(ctx, &point);
                    proof {
                        lemma_prefix(c, double_ops(self.columns, p), ctx@);
                        lemma_prefix(c0, c, ctx@);
                    }
                    k = k + 1;
                }
                proof {
                    lemma_prefix(old(ctx)@, c0, ctx@);
                }
                acc = Some(point);
            }
            let mut point_idx: usize = 0;
            while point_idx < scalars.len()
                invariant
                    point_idx <= n,
                    n == scalars@.len(),
                    n > 0,
                    round < count,
                    count == number_of_rounds(w),
                    table == self.memory@,
                    table.len() == n * pow2(w),
                    w == self.window,
                    decomposed(limbs@, scalars@, w),
                    self.wf(),
                    ctx.wf(),
                    old(ctx)@.is_prefix_of(ctx@),
                    acc.is_some() <==> !(round == 0 && point_idx == 0),
                    acc matches Some(p) ==> p.point() == accumulator(
                        table,
                        w,
                        scalars@,
                        round as nat,
                        point_idx as nat,
                    ),
                decreases n - point_idx,
            {
                let ghost c = ctx@;
                let limb = limbs[point_idx][round];
                proof {
                    assert(limbs@[point_idx as int]@[round as int] == limb_at(
                        scalars@[point_idx as int],
                        w,
                        number_of_rounds(w),
                        round as nat,
                    ));
                    assert(limb == column(scalars@, w, round as int)[point_idx as int]);
                    if let Some(s) = scalars@[point_idx as int] {
                        lemma_window_bound(s@, w, (number_of_rounds(w) - 1 - round) as nat);
                        lemma_u64_pow2_no_overflow(w);
                    }
                    assert(pow2(w) * (point_idx + 1) <= n * pow2(w)) by (nonlinear_arith)
                        requires
                            point_idx + 1 <= n,
                            pow2(w) >= 0,
                    ;
                }
                let ghost earlier = acc;
                let next = self.lookup_step(ctx, &acc, point_idx, &limb);
                acc = Some(next);
                proof {
                    let found = table_read(table, w, point_idx as nat, limb);
                    let i = (point_idx + 1) as nat;
                    assert(column(scalars@, w, (round as nat) as int)[i - 1] == limb);
                    assert(accumulator(table, w, scalars@, round as nat, i) == if round == 0
                        && point_idx == 0 {
                        found
                    } else {
                        incomplete_add(
                            found,
                            accumulator(table, w, scalars@, round as nat, (i - 1) as nat),
                        )
                    });
                    if earlier.is_none() {
                        assert(round == 0 && point_idx == 0);
                    }
                }
                proof {
                    lemma_prefix(old(ctx)@, c, ctx@);
                }
                point_idx = point_idx + 1;
            }
            round = round + 1;
        }
        let ghost c0 = ctx@;
        let correction_point = self.correction_point(ctx, scalars.len());
        let ghost c1 = ctx@;
        let r = self.add(ctx, &acc.unwrap(), &correction_point);
        proof {
            lemma_prefix(c1, add_ops(self.columns, acc.unwrap(), correction_point), ctx@);
            lemma_prefix(c0, c1, ctx@);
            lemma_prefix(old(ctx)@, c0, ctx@);
        }
        r
    }
}

} // verus!
