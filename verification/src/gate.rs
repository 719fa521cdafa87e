//! The elliptic-curve gate on five advice columns and one fixed column: the
//! identities of its three row shapes, the witnesses that satisfy them, and
//! the rows that carry the witnesses.

use crate::curve::{chord, ec_add, point_add, tangent, Point};
use crate::field::{
    fadd, fe, finv, fmul, fsub, lemma_fe_of_view, lemma_fmul_regroup, lemma_view_of_fe, modulus, Fe,
};
use crate::fe_map::FeMap;
use crate::region::{
    lemma_prefix, lemma_rows_concat, point_of, rows, valid, Advice, AssignedPoint, AssignedValue,
    Cell, Column, Fixed, Op, RegionCtx, Selector, Value,
};
use vstd::prelude::*;

verus! {

/// The five advice columns and the fixed column.
#[derive(Clone, Copy, Debug, PartialEq, Eq, Structural)]
pub struct Columns {
    pub a0: Advice,
    pub a1: Advice,
    pub a2: Advice,
    pub a3: Advice,
    pub a4: Advice,
    pub constant: Fixed,
}

/// The nine advice columns and the fixed column of the wide layouts.
#[derive(Clone, Copy, Debug, PartialEq, Eq, Structural)]
pub struct WideColumns {
    pub a0: Advice,
    pub a1: Advice,
    pub a2: Advice,
    pub a3: Advice,
    pub a4: Advice,
    pub a5: Advice,
    pub a6: Advice,
    pub a7: Advice,
    pub a8: Advice,
    pub constant: Fixed,
}

/// The field's zero.
pub open spec fn zero() -> Fe {
    Fe { l0: 0, l1: 0, l2: 0, l3: 0 }
}

/// The first coordinate of a point, where the point is known.
pub open spec fn coord_x(p: Option<Point>) -> Value {
    match p {
        Some(p) => Some(p.x),
        None => None,
    }
}

/// The second coordinate of a point, where the point is known.
pub open spec fn coord_y(p: Option<Point>) -> Value {
    match p {
        Some(p) => Some(p.y),
        None => None,
    }
}

/// The product of two witnesses, known where both are.
pub open spec fn vmul(a: Value, b: Value) -> Value {
    match (a, b) {
        (Some(a), Some(b)) => Some(fe(fmul(a@, b@))),
        _ => None,
    }
}

/// The difference of two witnesses, known where both are.
pub open spec fn vsub(a: Value, b: Value) -> Value {
    match (a, b) {
        (Some(a), Some(b)) => Some(fe(fsub(a@, b@))),
        _ => None,
    }
}

/// The inverse of a witness, known where the witness is and is not zero.
pub open spec fn vinv(a: Value) -> Value {
    match a {
        Some(a) => if a@ % modulus() == 0 {
            None
        } else {
            Some(fe(finv(a@)))
        },
        None => None,
    }
}

/// The sum of two points by the chord through them: unknown where a point is
/// unknown or the two have one `x`.
pub open spec fn incomplete_add(a: Option<Point>, b: Option<Point>) -> Option<Point> {
    match (a, b) {
        (Some(p), Some(q)) => if p.x != q.x {
            ec_add(p, q)
        } else {
            None
        },
        _ => None,
    }
}

/// The double of a point by its tangent, unknown where the point is.
pub open spec fn incomplete_double(a: Option<Point>) -> Option<Point> {
    match a {
        Some(p) => ec_add(p, p),
        None => None,
    }
}

/// The identities of the row that assigns a point:
/// `x2 = x^2`, `x3 = x2 * x`, `y^2 = x3 + 5`.
pub open spec fn point_gate(x: nat, y: nat, x2: nat, x3: nat) -> bool {
    &&& fmul(x, x) == x2
    &&& fmul(x2, x) == x3
    &&& fadd(x3, 5) == fmul(y, y)
}

/// The identities of the rows of an incomplete addition `a + b = out`:
/// `t = (b.x - a.x)^2`, `t * inverse_t = 1`,
/// `(out.x + a.x + b.x) * t = (b.y - a.y)^2`,
/// `(out.y + a.y) * (b.x - a.x) = (b.y - a.y) * (a.x - out.x)`.
#[verifier::opaque]
pub open spec fn add_gate(a: Point, b: Point, out: Point, t: nat, inverse_t: nat) -> bool {
    let dx = fsub(b.x@, a.x@);
    let dy = fsub(b.y@, a.y@);
    &&& fmul(dx, dx) == t
    &&& fmul(t, inverse_t) == 1
    &&& fmul(fadd(fadd(out.x@, a.x@), b.x@), t) == fmul(dy, dy)
    &&& fmul(fadd(out.y@, a.y@), dx) == fmul(dy, fsub(a.x@, out.x@))
}

/// The identities of the rows of a doubling `2 p = out`:
/// `x2 = x^2`, `x4 = x2^2`, `y2 = y^2`,
/// `4 y2 (out.x + 2 x) = 9 x4`, `2 y (out.y + y) = 3 x2 (x - out.x)`.
#[verifier::opaque]
pub open spec fn double_gate(p: Point, out: Point, x2: nat, x4: nat, y2: nat) -> bool {
    &&& fmul(p.x@, p.x@) == x2
    &&& fmul(x2, x2) == x4
    &&& fmul(p.y@, p.y@) == y2
    &&& fmul(fmul(y2, 4), fadd(out.x@, fmul(p.x@, 2))) == fmul(x4, 9)
    &&& fmul(fmul(p.y@, 2), fadd(out.y@, p.y@)) == fmul(fmul(x2, 3), fsub(p.x@, out.x@))
}

/// The identity of the row that assigns a constant: the advice cell holds
/// the fixed cell's value.
pub open spec fn constant_gate(advice: Fe, constant: Fe) -> bool {
    advice == constant
}

/// A point of the curve with the square and the cube of its `x` satisfies
/// the identities of the row that assigns it.
pub proof fn lemma_point_gate(p: Point)
    requires
        p.on_curve(),
    ensures
        point_gate(p.x@, p.y@, fmul(p.x@, p.x@), fmul(fmul(p.x@, p.x@), p.x@)),
{
}

/// Tests `point_gate` on the cells of a row.
pub fn check_point_gate(x: &Fe, y: &Fe, x2: &Fe, x3: &Fe) -> (r: bool)
    ensures
        r == point_gate(x@, y@, x2@, x3@),
{
    let a = x.mul(x);
    let b = x2.mul(x);
    let c = x3.add(&Fe::from_u64(5));
    let d = y.mul(y);
    proof {
        lemma_fe_of_view(a);
        lemma_fe_of_view(b);
        lemma_fe_of_view(c);
        lemma_fe_of_view(d);
        lemma_fe_of_view(*x2);
        lemma_fe_of_view(*x3);
    }
    a == *x2 && b == *x3 && c == d
}

/// Tests `add_gate` on the cells of two rows.
pub fn check_add_gate(a: &Point, b: &Point, out: &Point, t: &Fe, inverse_t: &Fe) -> (r: bool)
    ensures
        r == add_gate(*a, *b, *out, t@, inverse_t@),
{
    reveal(add_gate);
    let dx = b.x.sub(&a.x);
    let dy = b.y.sub(&a.y);
    let t0 = dx.mul(&dx);
    let one = t.mul(inverse_t);
    let l1 = out.x.add(&a.x).add(&b.x).mul(t);
    let r1 = dy.mul(&dy);
    let l2 = out.y.add(&a.y).mul(&dx);
    let r2 = dy.mul(&a.x.sub(&out.x));
    proof {
        lemma_fe_of_view(t0);
        lemma_fe_of_view(*t);
        lemma_fe_of_view(one);
        lemma_fe_of_view(Fe { l0: 1, l1: 0, l2: 0, l3: 0 });
        lemma_fe_of_view(l1);
        lemma_fe_of_view(r1);
        lemma_fe_of_view(l2);
        lemma_fe_of_view(r2);
    }
    t0 == *t && one == Fe::one() && l1 == r1 && l2 == r2
}

/// Tests `double_gate` on the cells of two rows.
pub fn check_double_gate(p: &Point, out: &Point, x2: &Fe, x4: &Fe, y2: &Fe) -> (r: bool)
    ensures
        r == double_gate(*p, *out, x2@, x4@, y2@),
{
    reveal(double_gate);
    let a = p.x.mul(&p.x);
    let b = x2.mul(x2);
    let c = p.y.mul(&p.y);
    let l1 = y2.mul(&Fe::from_u64(4)).mul(&out.x.add(&p.x.mul(&Fe::from_u64(2))));
    let r1 = x4.mul(&Fe::from_u64(9));
    let l2 = p.y.mul(&Fe::from_u64(2)).mul(&out.y.add(&p.y));
    let r2 = x2.mul(&Fe::from_u64(3)).mul(&p.x.sub(&out.x));
    proof {
        lemma_fe_of_view(a);
        lemma_fe_of_view(b);
        lemma_fe_of_view(c);
        lemma_fe_of_view(*x2);
        lemma_fe_of_view(*x4);
        lemma_fe_of_view(*y2);
        lemma_fe_of_view(l1);
        lemma_fe_of_view(r1);
        lemma_fe_of_view(l2);
        lemma_fe_of_view(r2);
    }
    a == *x2 && b == *x4 && c == *y2 && l1 == r1 && l2 == r2
}

/// The two coordinates of a point, each known where the point is.
pub fn unzip(p: &Option<Point>) -> (r: (Value, Value))
    ensures
        r.0 == coord_x(*p),
        r.1 == coord_y(*p),
        point_of(r.0, r.1) == *p,
{
    match p {
        Some(p) => (Some(p.x), Some(p.y)),
        None => (None, None),
    }
}

/// The product of two witnesses.
pub fn value_mul(a: &Value, b: &Value) -> (r: Value)
    ensures
        r == vmul(*a, *b),
{
    match (a, b) {
        (Some(a), Some(b)) => {
            let r = a.mul(b);
            proof {
                lemma_fe_of_view(r);
            }
            Some(r)
        },
        _ => None,
    }
}

/// The difference of two witnesses.
pub fn value_sub(a: &Value, b: &Value) -> (r: Value)
    ensures
        r == vsub(*a, *b),
{
    match (a, b) {
        (Some(a), Some(b)) => {
            let r = a.sub(b);
            proof {
                lemma_fe_of_view(r);
            }
            Some(r)
        },
        _ => None,
    }
}

/// The inverse of a witness.
pub fn value_invert(a: &Value) -> (r: Value)
    ensures
        r == vinv(*a),
        r matches Some(v) ==> v.canonical() && fmul(a.unwrap()@, v@) == 1,
{
    match a {
        Some(a) => {
            let r = a.invert();
            proof {
                if r.is_some() {
                    lemma_fe_of_view(r.unwrap());
                }
            }
            r
        },
        None => None,
    }
}

/// The witnesses of an incomplete addition.
#[derive(Clone, Copy, Debug, PartialEq, Eq, Structural)]
pub struct AddWitness {
    pub out: Option<Point>,
    pub t: Value,
    pub inverse_t: Value,
}

/// The witnesses of the addition `a + b`: the sum, the square `t` of the
/// difference of the two `x`, and the inverse of `t`, which is the square of
/// the inverse of that difference.
pub open spec fn add_witness(a: Option<Point>, b: Option<Point>) -> AddWitness {
    let dx = vsub(coord_x(b), coord_x(a));
    let inverse = vinv(dx);
    AddWitness { out: incomplete_add(a, b), t: vmul(dx, dx), inverse_t: vmul(inverse, inverse) }
}

/// Computes the witnesses of an incomplete addition. Where the sum is known
/// the witnesses satisfy the identities of the addition.
pub fn compute_add(a: &Option<Point>, b: &Option<Point>) -> (w: AddWitness)
    requires
        valid(*a),
        valid(*b),
    ensures
        w == add_witness(*a, *b),
        valid(w.out),
        w.out.is_some() <==> a.is_some() && b.is_some() && a.unwrap().x != b.unwrap().x,
        w.out matches Some(out) ==> w.t.is_some() && w.inverse_t.is_some() && add_gate(
            a.unwrap(),
            b.unwrap(),
            out,
            w.t.unwrap()@,
            w.inverse_t.unwrap()@,
        ),
{
    let (ax, _ay) = unzip(a);
    let (bx, _by) = unzip(b);
    let dx = value_sub(&bx, &ax);
    let inverse = value_invert(&dx);
    let t = value_mul(&dx, &dx);
    let inverse_t = value_mul(&inverse, &inverse);
    let out = match (a, b) {
        (Some(p), Some(q)) => {
            if p.x != q.x {
                let out = point_add(p, q);
                proof {
                    lemma_fe_of_view(p.x);
                    lemma_fe_of_view(q.x);
                    lemma_distinct_difference(p.x@, q.x@);
                    lemma_view_of_fe(fsub(q.x@, p.x@));
                    let d = dx.unwrap();
                    let i = inverse.unwrap();
                    lemma_view_of_fe(fmul(d@, d@));
                    lemma_view_of_fe(fmul(i@, i@));
                    lemma_add_gate(*p, *q, out.unwrap(), d@, i@);
                }
                out
            } else {
                None
            }
        },
        _ => None,
    };
    AddWitness { out, t, inverse_t }
}

/// The sum on the chord, the square of the difference of the two `x` and the
/// square of the inverse of that difference satisfy the identities of the
/// addition.
pub proof fn lemma_add_gate(a: Point, b: Point, out: Point, d: nat, i: nat)
    requires
        d == fsub(b.x@, a.x@),
        fmul(d, i) == 1,
        chord(a, b, out),
    ensures
        add_gate(a, b, out, fmul(d, d), fmul(i, i)),
{
    reveal(add_gate);
    lemma_fmul_regroup(d, d, i, i);
}

/// The double on the tangent and the squares `x^2`, `x^4`, `y^2` satisfy the
/// identities of the doubling.
pub proof fn lemma_double_gate(p: Point, out: Point)
    requires
        tangent(p, out),
    ensures
        double_gate(
            p,
            out,
            fmul(p.x@, p.x@),
            fmul(fmul(p.x@, p.x@), fmul(p.x@, p.x@)),
            fmul(p.y@, p.y@),
        ),
{
    reveal(double_gate);
}

/// Two distinct reduced values have a difference that the prime does not
/// divide.
pub proof fn lemma_distinct_difference(a: nat, b: nat)
    requires
        a < modulus(),
        b < modulus(),
        a != b,
    ensures
        fsub(b, a) % modulus() != 0,
        fsub(b, a) < modulus(),
{
    let q = modulus() as int;
    let d = b as int - a as int;
    if d > 0 {
        vstd::arithmetic::div_mod::lemma_small_mod(d as nat, modulus());
    } else {
        vstd::arithmetic::div_mod::lemma_small_mod((d + q) as nat, modulus());
        vstd::arithmetic::div_mod::lemma_mod_multiples_vanish(1, d, q);
    }
    vstd::arithmetic::div_mod::lemma_mod_twice(d, q);
}

/// The witnesses of a doubling.
#[derive(Clone, Copy, Debug, PartialEq, Eq, Structural)]
pub struct DoubleWitness {
    pub out: Option<Point>,
    pub x2: Value,
    pub x4: Value,
    pub y2: Value,
}

/// The witnesses of the doubling of `p`: the double, and `x^2`, `x^4`, `y^2`.
pub open spec fn double_witness(p: Option<Point>) -> DoubleWitness {
    let x2 = vmul(coord_x(p), coord_x(p));
    DoubleWitness {
        out: incomplete_double(p),
        x2,
        x4: vmul(x2, x2),
        y2: vmul(coord_y(p), coord_y(p)),
    }
}

/// Computes the witnesses of a doubling. Where the point is known they
/// satisfy the identities of the doubling.
pub fn compute_double(p: &Option<Point>) -> (w: DoubleWitness)
    requires
        valid(*p),
    ensures
        w == double_witness(*p),
        valid(w.out),
        w.out.is_some() <==> p.is_some(),
        w.out matches Some(out) ==> double_gate(
            p.unwrap(),
            out,
            w.x2.unwrap()@,
            w.x4.unwrap()@,
            w.y2.unwrap()@,
        ),
{
    let (x, y) = unzip(p);
    let x2 = value_mul(&x, &x);
    let x4 = value_mul(&x2, &x2);
    let y2 = value_mul(&y, &y);
    let out = match p {
        Some(q) => {
            let out = point_add(q, q);
            proof {
                lemma_view_of_fe(fmul(q.x@, q.x@));
                lemma_view_of_fe(fmul(q.y@, q.y@));
                lemma_view_of_fe(fmul(fmul(q.x@, q.x@), fmul(q.x@, q.x@)));
                lemma_double_gate(*q, out.unwrap());
            }
            out
        },
        None => None,
    };
    DoubleWitness { out, x2, x4, y2 }
}

/// The cell of an advice column in a row, with its value.
pub open spec fn advice_cell(column: Advice, row: nat, value: Value) -> AssignedValue {
    AssignedValue { cell: Cell { column: Column::Advice(column), row: row as usize }, value }
}

/// The step that assigns zero to an advice cell.
pub open spec fn zero_advice(column: Advice) -> Op {
    Op::Advice(column, Some(zero()))
}

/// The row that assigns a point: `x`, `y`, `x^2`, `x^3`.
pub open spec fn assign_point_ops(c: Columns, p: Option<Point>) -> Seq<Op> {
    let x = coord_x(p);
    let y = coord_y(p);
    seq![
        Op::Enable(Selector::Point),
        Op::Advice(c.a0, x),
        Op::Advice(c.a1, y),
        Op::Advice(c.a2, vmul(x, x)),
        Op::Advice(c.a3, vmul(vmul(x, x), x)),
        Op::Fixed(c.constant, zero()),
        Op::Next,
    ]
}

/// The two rows of an addition: the summands, then the sum with `t` and
/// its inverse.
pub open spec fn add_ops(c: Columns, a: AssignedPoint, b: AssignedPoint) -> Seq<Op> {
    let w = add_witness(a.point(), b.point());
    seq![
        Op::Enable(Selector::Add),
        Op::Copy(c.a1, a.cell_x().cell, a.cell_x().value),
        Op::Copy(c.a2, a.cell_y().cell, a.cell_y().value),
        Op::Copy(c.a3, b.cell_x().cell, b.cell_x().value),
        Op::Copy(c.a4, b.cell_y().cell, b.cell_y().value),
        Op::Fixed(c.constant, zero()),
        Op::Next,
        zero_advice(c.a0),
        Op::Advice(c.a1, coord_x(w.out)),
        Op::Advice(c.a2, coord_y(w.out)),
        Op::Advice(c.a3, w.t),
        Op::Advice(c.a4, w.inverse_t),
        Op::Fixed(c.constant, zero()),
        Op::Next,
    ]
}

/// The two rows of a doubling: the point with `x^2` and `x^4`, then `y^2`
/// and the double.
pub open spec fn double_ops(c: Columns, p: AssignedPoint) -> Seq<Op> {
    let w = double_witness(p.point());
    seq![
        Op::Enable(Selector::Double),
        Op::Copy(c.a0, p.cell_x().cell, p.cell_x().value),
        Op::Copy(c.a1, p.cell_y().cell, p.cell_y().value),
        Op::Advice(c.a2, w.x2),
        Op::Advice(c.a3, w.x4),
        zero_advice(c.a4),
        Op::Fixed(c.constant, zero()),
        Op::Next,
        zero_advice(c.a0),
        Op::Advice(c.a1, w.y2),
        Op::Advice(c.a2, coord_x(w.out)),
        Op::Advice(c.a3, coord_y(w.out)),
        zero_advice(c.a4),
        Op::Fixed(c.constant, zero()),
        Op::Next,
    ]
}

/// The row that assigns a constant: the constant in the fixed column and in
/// the last advice column.
pub open spec fn constant_ops(c: Columns, value: Fe) -> Seq<Op> {
    seq![
        Op::Enable(Selector::AssignConstant),
        Op::Fixed(c.constant, value),
        zero_advice(c.a0),
        zero_advice(c.a1),
        zero_advice(c.a2),
        zero_advice(c.a3),
        Op::Advice(c.a4, Some(value)),
        Op::Next,
    ]
}

/// The row of zeros.
pub open spec fn all_zero_ops(c: Columns) -> Seq<Op> {
    seq![
        zero_advice(c.a0),
        zero_advice(c.a1),
        zero_advice(c.a2),
        zero_advice(c.a3),
        zero_advice(c.a4),
        Op::Fixed(c.constant, zero()),
        Op::Next,
    ]
}

/// The row that assigns a constant in a wide layout: the constant in the
/// fixed column and in the last advice column.
pub open spec fn wide_constant_ops(c: WideColumns, value: Fe) -> Seq<Op> {
    seq![
        Op::Enable(Selector::AssignConstant),
        Op::Fixed(c.constant, value),
        zero_advice(c.a0),
        zero_advice(c.a1),
        zero_advice(c.a2),
        zero_advice(c.a3),
        zero_advice(c.a4),
        zero_advice(c.a5),
        zero_advice(c.a6),
        zero_advice(c.a7),
        Op::Advice(c.a8, Some(value)),
        Op::Next,
    ]
}

/// The row of zeros of a wide layout.
pub open spec fn wide_all_zero_ops(c: WideColumns) -> Seq<Op> {
    seq![
        zero_advice(c.a0),
        zero_advice(c.a1),
        zero_advice(c.a2),
        zero_advice(c.a3),
        zero_advice(c.a4),
        zero_advice(c.a5),
        zero_advice(c.a6),
        zero_advice(c.a7),
        zero_advice(c.a8),
        Op::Fixed(c.constant, zero()),
        Op::Next,
    ]
}

/// What asking for a constant does to the cache and to the region of a wide
/// layout: nothing where the cache has the constant, else one row and one
/// more entry.
pub open spec fn wide_constant_step(
    c: WideColumns,
    cache: Map<Fe, AssignedValue>,
    ops: Seq<Op>,
    value: Fe,
) -> (Map<Fe, AssignedValue>, Seq<Op>) {
    if cache.contains_key(value) {
        (cache, ops)
    } else {
        (
            cache.insert(value, advice_cell(c.a8, rows(ops), Some(value))),
            ops + wide_constant_ops(c, value),
        )
    }
}

/// Lays out the row of zeros of a wide layout.
pub fn wide_all_zero(c: &WideColumns, ctx: &mut RegionCtx)
    requires
        old(ctx).wf(),
    ensures
        final(ctx).wf(),
        final(ctx)@ == old(ctx)@ + wide_all_zero_ops(*c),
        rows(final(ctx)@) == rows(old(ctx)@) + 1,
        old(ctx)@.is_prefix_of(final(ctx)@),
{
    ctx.empty(Column::Advice(c.a0));
    ctx.empty(Column::Advice(c.a1));
    ctx.empty(Column::Advice(c.a2));
    ctx.empty(Column::Advice(c.a3));
    ctx.empty(Column::Advice(c.a4));
    ctx.empty(Column::Advice(c.a5));
    ctx.empty(Column::Advice(c.a6));
    ctx.empty(Column::Advice(c.a7));
    ctx.empty(Column::Advice(c.a8));
    ctx.fixed(c.constant, Fe::zero());
    ctx.next();
    proof {
        assert(ctx@ =~= old(ctx)@ + wide_all_zero_ops(*c));
        lemma_prefix(old(ctx)@, wide_all_zero_ops(*c), ctx@);
    }
}

/// The two constraints that make two assigned points equal.
pub open spec fn equal_ops(a: AssignedPoint, b: AssignedPoint) -> Seq<Op> {
    seq![
        Op::Equal(a.cell_x().cell, b.cell_x().cell),
        Op::Equal(a.cell_y().cell, b.cell_y().cell),
    ]
}

/// Lays out the row that assigns a point and constrains it to the curve.
pub fn assign_point(c: &Columns, ctx: &mut RegionCtx, point: &Option<Point>) -> (r: AssignedPoint)
    requires
        old(ctx).wf(),
        valid(*point),
    ensures
        final(ctx).wf(),
        final(ctx)@ == old(ctx)@ + assign_point_ops(*c, *point),
        rows(final(ctx)@) == rows(old(ctx)@) + 1,
        r.cell_x() == advice_cell(c.a0, rows(old(ctx)@), coord_x(*point)),
        r.cell_y() == advice_cell(c.a1, rows(old(ctx)@), coord_y(*point)),
        r.point() == *point,
        crate::constraints::distinct(*c) && point.is_some() ==> crate::constraints::point_ok(
            crate::constraints::table(assign_point_ops(*c, *point), *c)[0],
        ),
{
    proof {
        if crate::constraints::distinct(*c) && point.is_some() {
            crate::constraints::lemma_point_row(*c, point.unwrap());
        }
    }
    let (x, y) = unzip(point);
    let x_square = value_mul(&x, &x);
    let x_cube = value_mul(&x_square, &x);
    ctx.enable(Selector::Point);
    let x = ctx.advice(c.a0, x);
    let y = ctx.advice(c.a1, y);
    ctx.advice(c.a2, x_square);
    ctx.advice(c.a3, x_cube);
    ctx.fixed(c.constant, Fe::zero());
    ctx.next();
    assert(ctx@ =~= old(ctx)@ + assign_point_ops(*c, *point));
    AssignedPoint::new(x, y)
}

/// Lays out the two rows of the incomplete addition of `a` and `b`. The sum
/// is unknown where a summand is or where the two have one `x`.
pub fn add(c: &Columns, ctx: &mut RegionCtx, a: &AssignedPoint, b: &AssignedPoint) -> (r:
    AssignedPoint)
    requires
        old(ctx).wf(),
    ensures
        final(ctx).wf(),
        final(ctx)@ == old(ctx)@ + add_ops(*c, *a, *b),
        rows(final(ctx)@) == rows(old(ctx)@) + 2,
        r.point() == incomplete_add(a.point(), b.point()),
        r.cell_x() == advice_cell(c.a1, rows(old(ctx)@) + 1, coord_x(r.point())),
        r.cell_y() == advice_cell(c.a2, rows(old(ctx)@) + 1, coord_y(r.point())),
        crate::constraints::distinct(*c) && r.point().is_some() ==> crate::constraints::add_ok(
            crate::constraints::table(add_ops(*c, *a, *b), *c)[0],
            crate::constraints::table(add_ops(*c, *a, *b), *c)[1],
        ),
{
    let w = compute_add(&a.value(), &b.value());
    proof {
        if crate::constraints::distinct(*c) && w.out.is_some() {
            crate::constraints::lemma_add_rows(*c, *a, *b);
        }
    }
    let (out_x, out_y) = unzip(&w.out);
    ctx.enable(Selector::Add);
    ctx.copy(c.a1, a.x());
    ctx.copy(c.a2, a.y());
    ctx.copy(c.a3, b.x());
    ctx.copy(c.a4, b.y());
    ctx.fixed(c.constant, Fe::zero());
    ctx.next();
    ctx.empty(Column::Advice(c.a0));
    let out_x = ctx.advice(c.a1, out_x);
    let out_y = ctx.advice(c.a2, out_y);
    ctx.advice(c.a3, w.t);
    ctx.advice(c.a4, w.inverse_t);
    ctx.fixed(c.constant, Fe::zero());
    ctx.next();
    assert(ctx@ =~= old(ctx)@ + add_ops(*c, *a, *b));
    AssignedPoint::new(out_x, out_y)
}

/// Lays out the two rows of the doubling of `p`.
pub fn double(c: &Columns, ctx: &mut RegionCtx, p: &AssignedPoint) -> (r: AssignedPoint)
    requires
        old(ctx).wf(),
    ensures
        final(ctx).wf(),
        final(ctx)@ == old(ctx)@ + double_ops(*c, *p),
        rows(final(ctx)@) == rows(old(ctx)@) + 2,
        r.point() == incomplete_double(p.point()),
        r.cell_x() == advice_cell(c.a2, rows(old(ctx)@) + 1, coord_x(r.point())),
        r.cell_y() == advice_cell(c.a3, rows(old(ctx)@) + 1, coord_y(r.point())),
        crate::constraints::distinct(*c) && r.point().is_some()
            ==> crate::constraints::double_ok(
            crate::constraints::table(double_ops(*c, *p), *c)[0],
            crate::constraints::table(double_ops(*c, *p), *c)[1],
        ),
{
    let w = compute_double(&p.value());
    proof {
        if crate::constraints::distinct(*c) && w.out.is_some() {
            crate::constraints::lemma_double_rows(*c, *p);
        }
    }
    let (out_x, out_y) = unzip(&w.out);
    ctx.enable(Selector::Double);
    ctx.copy(c.a0, p.x());
    ctx.copy(c.a1, p.y());
    ctx.advice(c.a2, w.x2);
    ctx.advice(c.a3, w.x4);
    ctx.empty(Column::Advice(c.a4));
    ctx.fixed(c.constant, Fe::zero());
    ctx.next();
    ctx.empty(Column::Advice(c.a0));
    ctx.advice(c.a1, w.y2);
    let out_x = ctx.advice(c.a2, out_x);
    let out_y = ctx.advice(c.a3, out_y);
    ctx.empty(Column::Advice(c.a4));
    ctx.fixed(c.constant, Fe::zero());
    ctx.next();
    assert(ctx@ =~= old(ctx)@ + double_ops(*c, *p));
    AssignedPoint::new(out_x, out_y)
}

/// Lays out the row of zeros.
pub fn all_zero(c: &Columns, ctx: &mut RegionCtx)
    requires
        old(ctx).wf(),
    ensures
        final(ctx).wf(),
        final(ctx)@ == old(ctx)@ + all_zero_ops(*c),
        rows(final(ctx)@) == rows(old(ctx)@) + 1,
{
    ctx.empty(Column::Advice(c.a0));
    ctx.empty(Column::Advice(c.a1));
    ctx.empty(Column::Advice(c.a2));
    ctx.empty(Column::Advice(c.a3));
    ctx.empty(Column::Advice(c.a4));
    ctx.fixed(c.constant, Fe::zero());
    ctx.next();
    assert(ctx@ =~= old(ctx)@ + all_zero_ops(*c));
}

/// Constrains two assigned points to be equal.
pub fn equal(ctx: &mut RegionCtx, a: &AssignedPoint, b: &AssignedPoint)
    requires
        old(ctx).wf(),
    ensures
        final(ctx).wf(),
        final(ctx)@ == old(ctx)@ + equal_ops(*a, *b),
        rows(final(ctx)@) == rows(old(ctx)@),
{
    ctx.equal(a.x().cell, b.x().cell);
    ctx.equal(a.y().cell, b.y().cell);
    assert(ctx@ =~= old(ctx)@ + equal_ops(*a, *b));
}

/// The constants that a synthesis has assigned, each with its cell.
pub struct Constants {
    cells: FeMap<AssignedValue>,
}

/// What asking for a constant does to the cache and to the region: nothing
/// where the cache has the constant, else one row and one more entry.
pub open spec fn constant_step(
    c: Columns,
    cache: Map<Fe, AssignedValue>,
    ops: Seq<Op>,
    value: Fe,
) -> (Map<Fe, AssignedValue>, Seq<Op>) {
    if cache.contains_key(value) {
        (cache, ops)
    } else {
        (
            cache.insert(value, advice_cell(c.a4, rows(ops), Some(value))),
            ops + constant_ops(c, value),
        )
    }
}

impl View for Constants {
    type V = Map<Fe, AssignedValue>;

    closed spec fn view(&self) -> Map<Fe, AssignedValue> {
        self.cells@
    }
}

impl Constants {
    /// Every cell of the cache holds the constant that it is kept under.
    pub open spec fn wf(&self) -> bool {
        forall|k: Fe| self@.contains_key(k) ==> (#[trigger] self@[k]).value == Some(k)
    }

    /// An empty cache.
    pub fn new() -> (r: Constants)
        ensures
            r@ == Map::<Fe, AssignedValue>::empty(),
            r.wf(),
    {
        Constants { cells: FeMap::new() }
    }

    /// Forgets every constant.
    pub fn clear(&mut self)
        ensures
            final(self)@ == Map::<Fe, AssignedValue>::empty(),
            final(self).wf(),
    {
        self.cells.clear();
    }

    /// The cell of the constant `value`: the one in the cache, or that of a
    /// new row, which then goes into the cache.
    pub fn get(&mut self, c: &Columns, ctx: &mut RegionCtx, value: Fe) -> (r: AssignedValue)
        requires
            old(self).wf(),
            old(ctx).wf(),
        ensures
            final(self).wf(),
            final(ctx).wf(),
            (final(self)@, final(ctx)@) == constant_step(*c, old(self)@, old(ctx)@, value),
            final(self)@.contains_key(value) && final(self)@[value] == r,
            r.value == Some(value),
            rows(old(ctx)@) <= rows(final(ctx)@) <= rows(old(ctx)@) + 1,
            old(ctx)@.is_prefix_of(final(ctx)@),
    {
        proof {
            lemma_prefix(ctx@, constant_ops(*c, value), ctx@);
        }
        match self.cells.get(&value) {
            Some(cell) => cell,
            None => {
                ctx.enable(Selector::AssignConstant);
                ctx.fixed(c.constant, value);
                ctx.empty(Column::Advice(c.a0));
                ctx.empty(Column::Advice(c.a1));
                ctx.empty(Column::Advice(c.a2));
                ctx.empty(Column::Advice(c.a3));
                let cell = ctx.advice(c.a4, Some(value));
                ctx.next();
                assert(ctx@ =~= old(ctx)@ + constant_ops(*c, value));
                self.cells.insert(value, cell);
                cell
            },
        }
    }

    /// The cell of the constant `value` in a wide layout: the one in the
    /// cache, or that of a new row, which then goes into the cache.
    pub fn get_wide(&mut self, c: &WideColumns, ctx: &mut RegionCtx, value: Fe) -> (r:
        AssignedValue)
        requires
            old(self).wf(),
            old(ctx).wf(),
        ensures
            final(self).wf(),
            final(ctx).wf(),
            (final(self)@, final(ctx)@) == wide_constant_step(*c, old(self)@, old(ctx)@, value),
            final(self)@.contains_key(value) && final(self)@[value] == r,
            r.value == Some(value),
            rows(old(ctx)@) <= rows(final(ctx)@) <= rows(old(ctx)@) + 1,
            old(ctx)@.is_prefix_of(final(ctx)@),
    {
        proof {
            lemma_prefix(ctx@, wide_constant_ops(*c, value), ctx@);
        }
        match self.cells.get(&value) {
            Some(cell) => cell,
            None => {
                ctx.enable(Selector::AssignConstant);
                ctx.fixed(c.constant, value);
                ctx.empty(Column::Advice(c.a0));
                ctx.empty(Column::Advice(c.a1));
                ctx.empty(Column::Advice(c.a2));
                ctx.empty(Column::Advice(c.a3));
                ctx.empty(Column::Advice(c.a4));
                ctx.empty(Column::Advice(c.a5));
                ctx.empty(Column::Advice(c.a6));
                ctx.empty(Column::Advice(c.a7));
                let cell = ctx.advice(c.a8, Some(value));
                ctx.next();
                assert(ctx@ =~= old(ctx)@ + wide_constant_ops(*c, value));
                self.cells.insert(value, cell);
                cell
            },
        }
    }

    /// The assigned point with the constant coordinates of `point`.
    pub fn get_point(&mut self, c: &Columns, ctx: &mut RegionCtx, point: &Point) -> (r:
        AssignedPoint)
        requires
            old(self).wf(),
            old(ctx).wf(),
            point.on_curve(),
        ensures
            final(self).wf(),
            final(ctx).wf(),
            ({
                let (cache, ops) = constant_step(*c, old(self)@, old(ctx)@, point.x);
                (final(self)@, final(ctx)@) == constant_step(*c, cache, ops, point.y)
            }),
            r.point() == Some(*point),
            final(self)@.contains_key(point.x) && final(self)@[point.x] == r.cell_x(),
            final(self)@.contains_key(point.y) && final(self)@[point.y] == r.cell_y(),
            rows(old(ctx)@) <= rows(final(ctx)@) <= rows(old(ctx)@) + 2,
            forall|k: Fe| old(self)@.contains_key(k) ==> final(self)@.contains_key(k),
            old(ctx)@.is_prefix_of(final(ctx)@),
    {
        let x = self.get(c, ctx, point.x);
        let ghost middle = ctx@;
        let y = self.get(c, ctx, point.y);
        proof {
            lemma_prefix(old(ctx)@, middle, ctx@);
        }
        AssignedPoint::new(x, y)
    }
}

/// Asking for a constant a second time changes nothing: the constant takes
/// one row at most, however often it is asked for.
pub proof fn lemma_constant_cached_once(
    c: Columns,
    cache: Map<Fe, AssignedValue>,
    ops: Seq<Op>,
    value: Fe,
)
    ensures
        ({
            let once = constant_step(c, cache, ops, value);
            let twice = constant_step(c, once.0, once.1, value);
            &&& twice == once
            &&& rows(once.1) == rows(ops) + if cache.contains_key(value) {
                0nat
            } else {
                1nat
            }
        }),
{
    lemma_rows_concat(ops, constant_ops(c, value));
    lemma_rows_of_constant(c, value);
}

/// The row of a constant is one row.
pub proof fn lemma_rows_of_constant(c: Columns, value: Fe)
    ensures
        rows(constant_ops(c, value)) == 1,
{
    let ops = constant_ops(c, value);
    reveal_with_fuel(rows, 9);
    assert(ops.drop_last() =~= ops.subrange(0, 7));
    assert(ops.subrange(0, 7).drop_last() =~= ops.subrange(0, 6));
    assert(ops.subrange(0, 6).drop_last() =~= ops.subrange(0, 5));
    assert(ops.subrange(0, 5).drop_last() =~= ops.subrange(0, 4));
    assert(ops.subrange(0, 4).drop_last() =~= ops.subrange(0, 3));
    assert(ops.subrange(0, 3).drop_last() =~= ops.subrange(0, 2));
    assert(ops.subrange(0, 2).drop_last() =~= ops.subrange(0, 1));
    assert(ops.subrange(0, 1).drop_last() =~= ops.subrange(0, 0));
}

} // verus!
