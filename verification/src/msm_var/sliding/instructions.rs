//! What a layout of the sliding-window method has to offer, and the method
//! itself on top of it: the table of the multiples and the rounds of
//! lookups are the same for every layout of the rows.

use super::msm::{
    accumulator, correction, correction_used, entry, found, kept_for, sliding_msm, table,
    tabulated, writable,
};
use super::rw::{held, place, Cell};
use crate::curve::Point;
use crate::error::Error;
use crate::field::Fe;
use crate::gate::{incomplete_add, incomplete_double};
use crate::region::{
    lemma_prefix, rows, valid, Advice, AssignedPoint, AssignedValue, Fixed, RegionCtx, Value,
};
use crate::scalar::{lemma_window_bound, Scalar};
use crate::windows::{
    column, decomposed, doubled, limb_at, number_of_buckets, number_of_rounds, point_values,
    rounds, word,
};
use vstd::arithmetic::div_mod::lemma_fundamental_div_mod_converse;
use vstd::arithmetic::power2::{lemma_pow2_pos, pow2};
use vstd::bits::lemma_u64_pow2_no_overflow;
use vstd::prelude::*;

verus! {

/// What a read of the table at `address + offset` returns.
pub open spec fn read_value(cells: Seq<Cell>, address: Value, offset: Fe) -> Option<Point> {
    match address {
        Some(a) => held(cells, place(a, offset)).unwrap(),
        None => None,
    }
}

/// What the method rests on: the window, the auxiliary generator, the
/// table, and the correction.
pub trait MSMHelper {
    /// The number of bits of a window.
    spec fn width(&self) -> nat;

    /// The auxiliary generator.
    spec fn generator(&self) -> Point;

    /// The correction that is kept from an earlier multiplication.
    spec fn kept(&self) -> Option<Point>;

    /// What the table holds, by place.
    spec fn cells(&self) -> Seq<Cell>;

    /// The layout is well formed.
    spec fn ready(&self) -> bool;

    fn window(&self) -> (r: usize)
        requires
            self.ready(),
        ensures
            r == self.width(),
            1 <= r < 64,
    ;

    fn aux_generator(&self) -> (r: Point)
        requires
            self.ready(),
        ensures
            r == self.generator(),
            r.on_curve(),
    ;

    /// The correction as an assigned constant: the one that is kept, or else
    /// the one for `number_of_points` points, which is then kept. An error,
    /// with nothing laid out, where it is the neutral element.
    fn correction_point(&mut self, ctx: &mut RegionCtx, number_of_points: usize) -> (r: Result<
        AssignedPoint,
        Error,
    >)
        requires
            old(self).ready(),
            old(ctx).wf(),
        ensures
            final(self).ready(),
            final(ctx).wf(),
            final(self).width() == old(self).width(),
            final(self).generator() == old(self).generator(),
            final(self).cells() == old(self).cells(),
            final(self).kept() == correction_used(
                old(self).kept(),
                old(self).generator(),
                old(self).width(),
                number_of_points as nat,
            ),
            old(ctx)@.is_prefix_of(final(ctx)@),
            match r {
                Ok(p) => p.point() == correction_used(
                    old(self).kept(),
                    old(self).generator(),
                    old(self).width(),
                    number_of_points as nat,
                ) && p.point().is_some(),
                Err(e) => e == Error::ConstantAtInfinity && correction_used(
                    old(self).kept(),
                    old(self).generator(),
                    old(self).width(),
                    number_of_points as nat,
                ).is_none() && final(ctx)@ == old(ctx)@,
            },
    ;

    /// The windows of the scalars, round by round, the most significant
    /// first.
    fn decompose_scalars(&self, scalars: &[Option<Scalar>]) -> (r: Vec<Vec<Value>>)
        requires
            self.ready(),
        ensures
            decomposed(r@, scalars@, self.width()),
    {
        crate::windows::decompose_scalars(self.window(), scalars)
    }
}

/// The rows of a layout of the sliding-window method, and the method.
pub trait MSMGate: MSMHelper {
    /// The advice columns that the layout works on, in their order.
    spec fn advice_list(&self) -> Seq<Advice>;

    /// The fixed columns that the layout works on, in their order.
    spec fn fixed_list(&self) -> Seq<Fixed>;

    /// The advice columns of the layout.
    fn advice_columns(&self) -> (r: Vec<Advice>)
        requires
            self.ready(),
        ensures
            r@ == self.advice_list(),
    ;

    /// The fixed columns of the layout.
    fn fixed_colmns(&self) -> (r: Vec<Fixed>)
        requires
            self.ready(),
        ensures
            r@ == self.fixed_list(),
    ;

    /// The cell of a constant, assigned once.
    fn get_constant(&mut self, ctx: &mut RegionCtx, scalar: Fe) -> (r: AssignedValue)
        requires
            old(self).ready(),
            old(ctx).wf(),
        ensures
            final(self).ready(),
            final(ctx).wf(),
            final(self).width() == old(self).width(),
            final(self).generator() == old(self).generator(),
            final(self).kept() == old(self).kept(),
            final(self).cells() == old(self).cells(),
            old(ctx)@.is_prefix_of(final(ctx)@),
            r.value == Some(scalar),
    ;

    /// The assigned point with the constant coordinates of `point`.
    fn get_constant_point(&mut self, ctx: &mut RegionCtx, point: &Point) -> (r: AssignedPoint)
        requires
            old(self).ready(),
            old(ctx).wf(),
            point.on_curve(),
        ensures
            final(self).ready(),
            final(ctx).wf(),
            final(self).width() == old(self).width(),
            final(self).generator() == old(self).generator(),
            final(self).kept() == old(self).kept(),
            final(self).cells() == old(self).cells(),
            old(ctx)@.is_prefix_of(final(ctx)@),
            r.point() == Some(*point),
    {
        let ghost before = ctx@;
        let x = self.get_constant(ctx, point.x);
        let ghost middle = ctx@;
        let y = self.get_constant(ctx, point.y);
        proof {
            lemma_prefix(before, middle, ctx@);
        }
        AssignedPoint::new(x, y)
    }

    /// Lays out the rows that assign a point and constrain it to the curve.
    fn assign_point(&mut self, ctx: &mut RegionCtx, point: &Option<Point>) -> (r: AssignedPoint)
        requires
            old(self).ready(),
            old(ctx).wf(),
            valid(*point),
        ensures
            final(self).ready(),
            final(ctx).wf(),
            final(self).width() == old(self).width(),
            final(self).generator() == old(self).generator(),
            final(self).kept() == old(self).kept(),
            final(self).cells() == old(self).cells(),
            old(ctx)@.is_prefix_of(final(ctx)@),
            r.point() == *point,
    ;

    /// Constrains two assigned points to be equal.
    fn equal(&self, ctx: &mut RegionCtx, a: &AssignedPoint, b: &AssignedPoint)
        requires
            old(ctx).wf(),
        ensures
            final(ctx).wf(),
            final(ctx)@ == old(ctx)@ + crate::gate::equal_ops(*a, *b),
    {
        crate::gate::equal(ctx, a, b)
    }

    /// Lays out the rows of the incomplete addition of `a` and `b`.
    fn add(&mut self, ctx: &mut RegionCtx, a: &AssignedPoint, b: &AssignedPoint) -> (r:
        AssignedPoint)
        requires
            old(self).ready(),
            old(ctx).wf(),
        ensures
            final(self).ready(),
            final(ctx).wf(),
            final(self).width() == old(self).width(),
            final(self).generator() == old(self).generator(),
            final(self).kept() == old(self).kept(),
            final(self).cells() == old(self).cells(),
            old(ctx)@.is_prefix_of(final(ctx)@),
            r.point() == incomplete_add(a.point(), b.point()),
    ;

    /// Looks the point at `address + offset` up and adds `b` to it.
    fn read_add(&mut self, ctx: &mut RegionCtx, address: &Value, offset: Fe, b: &AssignedPoint)
        -> (r: AssignedPoint)
        requires
            old(self).ready(),
            old(ctx).wf(),
            *address matches Some(a) ==> held(old(self).cells(), place(a, offset)).is_some(),
        ensures
            final(self).ready(),
            final(ctx).wf(),
            final(self).width() == old(self).width(),
            final(self).generator() == old(self).generator(),
            final(self).kept() == old(self).kept(),
            final(self).cells() == old(self).cells(),
            old(ctx)@.is_prefix_of(final(ctx)@),
            r.point() == incomplete_add(
                read_value(old(self).cells(), *address, offset),
                b.point(),
            ),
    ;

    /// Writes `point` into the table at `address + offset`. An entry of the
    /// table never changes: the place must hold nothing, or the point.
    fn write_point(&mut self, ctx: &mut RegionCtx, address: Fe, offset: Fe, point: &AssignedPoint)
        requires
            old(self).ready(),
            old(ctx).wf(),
            place(address, offset) < usize::MAX,
            held(old(self).cells(), place(address, offset)) matches Some(c) ==> c == point.point(),
        ensures
            final(self).ready(),
            final(ctx).wf(),
            final(self).width() == old(self).width(),
            final(self).generator() == old(self).generator(),
            final(self).kept() == old(self).kept(),
            old(ctx)@.is_prefix_of(final(ctx)@),
            forall|at: nat|
                held(final(self).cells(), at) == if at == place(address, offset) {
                    Some(point.point())
                } else {
                    held(old(self).cells(), at)
                },
    ;

    /// Looks the point at `address + offset` up.
    fn read_point(&mut self, ctx: &mut RegionCtx, address: &Value, offset: Fe) -> (r:
        AssignedPoint)
        requires
            old(self).ready(),
            old(ctx).wf(),
            *address matches Some(a) ==> held(old(self).cells(), place(a, offset)).is_some(),
        ensures
            final(self).ready(),
            final(ctx).wf(),
            final(self).width() == old(self).width(),
            final(self).generator() == old(self).generator(),
            final(self).kept() == old(self).kept(),
            final(self).cells() == old(self).cells(),
            old(ctx)@.is_prefix_of(final(ctx)@),
            r.point() == read_value(old(self).cells(), *address, offset),
    ;

    /// Lays out the rows of the doubling of `point`.
    fn dbl(&mut self, ctx: &mut RegionCtx, point: &AssignedPoint) -> (r: AssignedPoint)
        requires
            old(self).ready(),
            old(ctx).wf(),
        ensures
            final(self).ready(),
            final(ctx).wf(),
            final(self).width() == old(self).width(),
            final(self).generator() == old(self).generator(),
            final(self).kept() == old(self).kept(),
            final(self).cells() == old(self).cells(),
            old(ctx)@.is_prefix_of(final(ctx)@),
            r.point() == incomplete_double(point.point()),
    ;

    /// Lays out a row of zeros in every column.
    fn all_zero(&self, ctx: &mut RegionCtx)
        requires
            self.ready(),
            old(ctx).wf(),
        ensures
            final(ctx).wf(),
            old(ctx)@.is_prefix_of(final(ctx)@),
            rows(final(ctx)@) == rows(old(ctx)@) + 1,
    ;

    /// The values of the range table: every window, from zero up.
    fn layout_range_table(&self) -> (r: Vec<Fe>)
        requires
            self.ready(),
        ensures
            r@.len() == pow2(self.width()),
            forall|i: int| 0 <= i < r@.len() ==> r@[i] == word(i as nat),
    ;

    /// Assigns the points and writes the table of each: the auxiliary point,
    /// then the point added to it again and again. The auxiliary point of
    /// the first table is the auxiliary generator, and it is doubled from
    /// table to table.
    fn assign_table(&mut self, ctx: &mut RegionCtx, points: &[Option<Point>]) -> (r: Vec<
        AssignedPoint,
    >)
        requires
            old(self).ready(),
            old(ctx).wf(),
            forall|i: int| 0 <= i < points@.len() ==> valid(#[trigger] points@[i]),
            points@.len() * pow2(old(self).width()) < usize::MAX,
            writable(
                old(self).cells(),
                old(self).generator(),
                old(self).width(),
                points@,
                points@.len() * pow2(old(self).width()),
            ),
        ensures
            final(self).ready(),
            final(ctx).wf(),
            final(self).width() == old(self).width(),
            final(self).generator() == old(self).generator(),
            final(self).kept() == old(self).kept(),
            old(ctx)@.is_prefix_of(final(ctx)@),
            r@.len() == points@.len(),
            point_values(r@) == points@,
            tabulated(
                final(self).cells(),
                old(self).cells(),
                old(self).generator(),
                old(self).width(),
                points@,
                points@.len() * pow2(old(self).width()),
            ),
    {
        let ghost w = self.width();
        let ghost m = pow2(w);
        let ghost aux = self.generator();
        let ghost start = self.cells();
        let ghost kept = self.kept();
        let table_size = number_of_buckets(self.window());
        let n = points.len();
        proof {
            lemma_prefix(ctx@, ctx@, ctx@);
            lemma_pow2_pos(w);
        }
        let mut assigned: Vec<AssignedPoint> = Vec::new();
        let mut i: usize = 0;
        while i < n
            invariant
                i <= n,
                n == points@.len(),
                forall|k: int| 0 <= k < points@.len() ==> valid(#[trigger] points@[k]),
                self.ready(),
                ctx.wf(),
                w == self.width(),
                aux == self.generator(),
                kept == self.kept(),
                start == self.cells(),
                old(ctx)@.is_prefix_of(ctx@),
                assigned@.len() == i,
                forall|k: int| 0 <= k < i ==> (#[trigger] assigned@[k]).point() == points@[k],
            decreases n - i,
        {
            let ghost c = ctx@;
            let point = self.assign_point(ctx, &points[i]);
            proof {
                lemma_prefix(old(ctx)@, c, ctx@);
            }
            assigned.push(point);
            i = i + 1;
        }
        assert(point_values(assigned@) =~= points@);
        let mut running_aux = self.aux_generator();
        let mut i: usize = 0;
        while i < n
            invariant
                i <= n,
                n == points@.len(),
                assigned@.len() == n,
                point_values(assigned@) == points@,
                w == self.width(),
                m == pow2(w),
                table_size == m,
                m >= 1,
                n * m < usize::MAX,
                aux == self.generator(),
                kept == self.kept(),
                self.ready(),
                ctx.wf(),
                old(ctx)@.is_prefix_of(ctx@),
                running_aux.on_curve(),
                Some(running_aux) == doubled(Some(aux), i as nat),
                writable(start, aux, w, points@, (n * m) as nat),
                tabulated(self.cells(), start, aux, w, points@, (i * m) as nat),
            decreases n - i,
        {
            let ghost c0 = ctx@;
            let mut acc = self.get_constant_point(ctx, &running_aux);
            proof {
                lemma_prefix(old(ctx)@, c0, ctx@);
                assert(i * m + m <= n * m) by (nonlinear_arith)
                    requires
                        i + 1 <= n,
                        m >= 0,
                ;
                assert(0 <= i * m) by (nonlinear_arith)
                    requires
                        m >= 0,
                ;
            }
            let offset = (i as u64) * table_size;
            let mut j: u64 = 0;
            while j < table_size
                invariant
                    j <= table_size,
                    i < n,
                    n == points@.len(),
                    assigned@.len() == n,
                    point_values(assigned@) == points@,
                    w == self.width(),
                    m == pow2(w),
                    table_size == m,
                    m >= 1,
                    offset == i * m,
                    i * m + m <= n * m,
                    n * m < usize::MAX,
                    aux == self.generator(),
                    kept == self.kept(),
                    self.ready(),
                    ctx.wf(),
                    old(ctx)@.is_prefix_of(ctx@),
                    Some(running_aux) == doubled(Some(aux), i as nat),
                    j < table_size ==> acc.point() == entry(
                        Some(running_aux),
                        points@[i as int],
                        j as nat,
                    ),
                    writable(start, aux, w, points@, (n * m) as nat),
                    tabulated(self.cells(), start, aux, w, points@, (i * m + j) as nat),
                decreases table_size - j,
            {
                let ghost c1 = ctx@;
                let ghost cells = self.cells();
                let address = Fe::from_u64(j);
                let shift = Fe::from_u64(offset);
                proof {
                    let at = (i * m + j) as nat;
                    lemma_fundamental_div_mod_converse(at as int, m as int, i as int, j as int);
                    assert(table(aux, w, points@, at) == acc.point());
                    assert(held(cells, at) == held(start, at));
                    assert(place(address, shift) == at);
                }
                self.write_point(ctx, address, shift, &acc);
                proof {
                    lemma_prefix(old(ctx)@, c1, ctx@);
                    let at = (i * m + j) as nat;
                    lemma_fundamental_div_mod_converse(at as int, m as int, i as int, j as int);
                    assert(table(aux, w, points@, at) == acc.point());
                    assert forall|k: nat| #[trigger]
                        held(self.cells(), k) == if k < at + 1 {
                            Some(table(aux, w, points@, k))
                        } else {
                            held(start, k)
                        } by {
                        assert(held(self.cells(), k) == if k == at {
                            Some(acc.point())
                        } else {
                            held(cells, k)
                        });
                    }
                }
                if j != table_size - 1 {
                    let ghost c2 = ctx@;
                    acc = self.add(ctx, &acc, &assigned[i]);
                    proof {
                        lemma_prefix(old(ctx)@, c2, ctx@);
                        assert(assigned@[i as int].point() == points@[i as int]);
                    }
                }
                j = j + 1;
            }
            proof {
                assert((i * m + m) as nat == ((i + 1) * m) as nat) by (nonlinear_arith);
            }
            running_aux = crate::gate::compute_double(&Some(running_aux)).out.unwrap();
            i = i + 1;
        }
        assigned
    }

    /// One lookup of a round: the point found starts the accumulator, or is
    /// added to it.
    fn lookup_step(
        &mut self,
        ctx: &mut RegionCtx,
        acc: &Option<AssignedPoint>,
        address: &Value,
        offset: Fe,
    ) -> (r: AssignedPoint)
        requires
            old(self).ready(),
            old(ctx).wf(),
            *address matches Some(a) ==> held(old(self).cells(), place(a, offset)).is_some(),
        ensures
            final(self).ready(),
            final(ctx).wf(),
            final(self).width() == old(self).width(),
            final(self).generator() == old(self).generator(),
            final(self).kept() == old(self).kept(),
            final(self).cells() == old(self).cells(),
            old(ctx)@.is_prefix_of(final(ctx)@),
            r.point() == match *acc {
                Some(p) => incomplete_add(
                    read_value(old(self).cells(), *address, offset),
                    p.point(),
                ),
                None => read_value(old(self).cells(), *address, offset),
            },
    {
        match acc {
            Some(p) => self.read_add(ctx, address, offset, p),
            None => self.read_point(ctx, address, offset),
        }
    }

    /// Lays out the multiplication of the points by the scalars and returns
    /// the assigned result: the accumulator of the last round with the
    /// correction added. Fails where the correction is the neutral element.
    fn msm(&mut self, ctx: &mut RegionCtx, points: &[Option<Point>], scalars: &[Option<Scalar>])
        -> (r: Result<AssignedPoint, Error>)
        requires
            old(self).ready(),
            old(ctx).wf(),
            points@.len() > 0,
            points@.len() == scalars@.len(),
            forall|i: int| 0 <= i < points@.len() ==> valid(#[trigger] points@[i]),
            points@.len() * pow2(old(self).width()) < usize::MAX,
            writable(
                old(self).cells(),
                old(self).generator(),
                old(self).width(),
                points@,
                points@.len() * pow2(old(self).width()),
            ),
            kept_for(old(self).kept(), old(self).generator(), old(self).width(), points@.len()),
        ensures
            final(self).ready(),
            final(ctx).wf(),
            final(self).width() == old(self).width(),
            final(self).generator() == old(self).generator(),
            final(self).kept() == correction(
                old(self).generator(),
                old(self).width(),
                points@.len(),
            ),
            tabulated(
                final(self).cells(),
                old(self).cells(),
                old(self).generator(),
                old(self).width(),
                points@,
                points@.len() * pow2(old(self).width()),
            ),
            old(ctx)@.is_prefix_of(final(ctx)@),
            r.is_ok() <==> correction_used(
                old(self).kept(),
                old(self).generator(),
                old(self).width(),
                points@.len(),
            ).is_some(),
            r matches Ok(p) ==> p.point() == sliding_msm(
                old(self).generator(),
                old(self).kept(),
                old(self).width(),
                points@,
                scalars@,
            ),
    {
        let ghost w = self.width();
        let ghost m = pow2(w);
        let ghost aux = self.generator();
        let ghost kept = self.kept();
        let ghost n = points@.len();
        proof {
            lemma_prefix(ctx@, ctx@, ctx@);
            lemma_pow2_pos(w);
        }
        let ghost c0 = ctx@;
        let _ = self.assign_table(ctx, points);
        let ghost tabled = self.cells();
        let limbs = self.decompose_scalars(scalars);
        let window = self.window();
        let count = rounds(window);
        let table_size = number_of_buckets(window);
        let mut acc: Option<AssignedPoint> = None;
        let mut round: usize = 0;
        while round < count
            invariant
                round <= count,
                count == number_of_rounds(w),
                1 <= count,
                n == points@.len(),
                n == scalars@.len(),
                n > 0,
                m == pow2(w),
                m >= 1,
                table_size == m,
                n * m < usize::MAX,
                1 <= w < 64,
                w == self.width(),
                window == w,
                aux == self.generator(),
                kept == self.kept(),
                decomposed(limbs@, scalars@, w),
                self.ready(),
                ctx.wf(),
                old(ctx)@.is_prefix_of(ctx@),
                self.cells() == tabled,
                forall|at: nat|
                    at < n * m ==> #[trigger] held(self.cells(), at) == Some(
                        table(aux, w, points@, at),
                    ),
                round > 0 ==> acc.is_some() && acc.unwrap().point() == accumulator(
                    aux,
                    w,
                    points@,
                    scalars@,
                    (round - 1) as nat,
                    n,
                ),
                round == 0 ==> acc.is_none(),
            decreases count - round,
        {
            if round != 0 {
                let ghost c1 = ctx@;
                let mut point = acc.unwrap();
                let mut k: usize = 0;
                while k < window
                    invariant
                        k <= window,
                        w == self.width(),
                        aux == self.generator(),
                        kept == self.kept(),
                        self.ready(),
                        ctx.wf(),
                        c1.is_prefix_of(ctx@),
                        n * m < usize::MAX,
                        self.cells() == tabled,
                        forall|at: nat|
                            at < n * m ==> #[trigger] held(self.cells(), at) == Some(
                                table(aux, w, points@, at),
                            ),
                        acc.is_some(),
                        point.point() == doubled(acc.unwrap().point(), k as nat),
                    decreases window - k,
                {
                    let ghost c = ctx@;
                    point = self.dbl(ctx, &point);
                    proof {
                        lemma_prefix(c1, c, ctx@);
                    }
                    k = k + 1;
                }
                proof {
                    lemma_prefix(old(ctx)@, c1, ctx@);
                }
                acc = Some(point);
            }
            let mut i: usize = 0;
            while i < scalars.len()
                invariant
                    i <= n,
                    n == points@.len(),
                    n == scalars@.len(),
                    n > 0,
                    round < count,
                    count == number_of_rounds(w),
                    m == pow2(w),
                    m >= 1,
                    table_size == m,
                    n * m < usize::MAX,
                    1 <= w < 64,
                    w == self.width(),
                    aux == self.generator(),
                    kept == self.kept(),
                    decomposed(limbs@, scalars@, w),
                    self.ready(),
                    ctx.wf(),
                    old(ctx)@.is_prefix_of(ctx@),
                    self.cells() == tabled,
                    forall|at: nat|
                        at < n * m ==> #[trigger] held(self.cells(), at) == Some(
                            table(aux, w, points@, at),
                        ),
                    acc.is_some() <==> !(round == 0 && i == 0),
                    acc matches Some(p) ==> p.point() == accumulator(
                        aux,
                        w,
                        points@,
                        scalars@,
                        round as nat,
                        i as nat,
                    ),
                decreases n - i,
            {
                let ghost c = ctx@;
                let limb = limbs[i][round];
                proof {
                    assert(limbs@[i as int]@[round as int] == limb_at(
                        scalars@[i as int],
                        w,
                        number_of_rounds(w),
                        round as nat,
                    ));
                    assert(limb == column(scalars@, w, (round as nat) as int)[i as int]);
                    assert(i * m + m <= n * m) by (nonlinear_arith)
                        requires
                            i + 1 <= n,
                            m >= 0,
                    ;
                    assert(0 <= i * m) by (nonlinear_arith)
                        requires
                            m >= 0,
                    ;
                    assert(m * i == i * m) by (nonlinear_arith);
                    if let Some(s) = scalars@[i as int] {
                        lemma_window_bound(s@, w, (number_of_rounds(w) - 1 - round) as nat);
                        lemma_u64_pow2_no_overflow(w);
                        let at = (m * i + limb.unwrap()@) as nat;
                        assert(held(self.cells(), at) == Some(table(aux, w, points@, at)));
                    }
                }
                let offset = Fe::from_u64((i as u64) * table_size);
                let next = self.lookup_step(ctx, &acc, &limb, offset);
                acc = Some(next);
                proof {
                    lemma_prefix(old(ctx)@, c, ctx@);
                    let point = found(aux, w, points@, i as nat, limb);
                    let k = (i + 1) as nat;
                    assert(accumulator(aux, w, points@, scalars@, round as nat, k) == if round
                        == 0 && i == 0 {
                        point
                    } else {
                        incomplete_add(
                            point,
                            accumulator(aux, w, points@, scalars@, round as nat, (k - 1) as nat),
                        )
                    });
                }
                i = i + 1;
            }
            round = round + 1;
        }
        let ghost c2 = ctx@;
        match self.correction_point(ctx, points.len()) {
            Ok(correction_point) => {
                let ghost c3 = ctx@;
                let r = self.add(ctx, &acc.unwrap(), &correction_point);
                proof {
                    lemma_prefix(c2, c3, ctx@);
                    lemma_prefix(old(ctx)@, c2, ctx@);
                }
                Ok(r)
            },
            Err(e) => Err(e),
        }
    }
}

} // verus!
