//! Points of the Vesta curve `y^2 = x^3 + 5` in affine coordinates, and the
//! group of the curve with `None` as its neutral element.
//!
//! Sums are those of `pasta_curves::EqAffine`.

use crate::field::{fadd, fe, fmul, fsub, lemma_fe_of_view, modulus, Fe};
use ff::{Field, PrimeField, PrimeFieldBits};
use group::Curve;
use pasta_curves::arithmetic::{Coordinates, CurveAffine};
use crate::scalar::Scalar;
use pasta_curves::{EqAffine, Fp, Fq};
use vstd::arithmetic::div_mod::{lemma_mod_multiples_vanish, lemma_small_mod};
use vstd::prelude::*;

verus! {

/// A pair of coordinates.
#[derive(Clone, Copy, Debug, PartialEq, Eq, Structural)]
pub struct Point {
    pub x: Fe,
    pub y: Fe,
}

/// An element of the curve's group: a point, or `None` for the neutral element.
pub type Element = Option<Point>;

/// The curve equation on reduced coordinates.
pub open spec fn curve_equation(x: nat, y: nat) -> bool {
    fmul(y, y) == fadd(fmul(fmul(x, x), x), 5)
}

/// The two identities that tie the sum `r` of two points with different
/// `x` to its summands: with `t = (b.x - a.x)^2`,
/// `(r.x + a.x + b.x) * t = (b.y - a.y)^2` and
/// `(r.y + a.y) * (b.x - a.x) = (b.y - a.y) * (a.x - r.x)`.
pub open spec fn chord(a: Point, b: Point, r: Point) -> bool {
    let dx = fsub(b.x@, a.x@);
    let dy = fsub(b.y@, a.y@);
    &&& fmul(fadd(fadd(r.x@, a.x@), b.x@), fmul(dx, dx)) == fmul(dy, dy)
    &&& fmul(fadd(r.y@, a.y@), dx) == fmul(dy, fsub(a.x@, r.x@))
}

/// The two identities that tie the double `r` of a point to the point:
/// `4 y^2 (r.x + 2 x) = 9 x^4` and `2 y (r.y + y) = 3 x^2 (x - r.x)`.
pub open spec fn tangent(p: Point, r: Point) -> bool {
    let x2 = fmul(p.x@, p.x@);
    let x4 = fmul(x2, x2);
    let y2 = fmul(p.y@, p.y@);
    &&& fmul(fmul(y2, 4), fadd(r.x@, fmul(p.x@, 2))) == fmul(x4, 9)
    &&& fmul(fmul(p.y@, 2), fadd(r.y@, p.y@)) == fmul(fmul(x2, 3), fsub(p.x@, r.x@))
}

/// The sum of two points of the curve in its group.
pub uninterp spec fn ec_add(a: Point, b: Point) -> Option<Point>;

/// The multiple of a point of the curve by an integer: the point added up
/// `k` times in the group.
#[verifier::opaque]
pub open spec fn ec_mul(p: Point, k: nat) -> Option<Point>
    decreases k,
{
    if k == 0 {
        None
    } else {
        group_add(ec_mul(p, (k - 1) as nat), Some(p))
    }
}

/// The sum of two elements of the group.
pub open spec fn group_add(a: Element, b: Element) -> Element {
    match (a, b) {
        (None, _) => b,
        (_, None) => a,
        (Some(p), Some(q)) => ec_add(p, q),
    }
}

/// The inverse of an element of the group.
pub open spec fn group_neg(a: Element) -> Element {
    match a {
        None => None,
        Some(p) => Some(Point { x: p.x, y: fe(fsub(0, p.y@)) }),
    }
}

/// An element is the neutral one or a point of the curve.
pub open spec fn on_group(a: Element) -> bool {
    a matches Some(p) ==> p.on_curve()
}

impl Point {
    /// Reduced coordinates that satisfy the curve equation.
    pub open spec fn on_curve(&self) -> bool {
        &&& self.x.canonical()
        &&& self.y.canonical()
        &&& curve_equation(self.x@, self.y@)
    }

    /// Tests `on_curve`.
    pub fn is_on_curve(&self) -> (r: bool)
        ensures
            r == self.on_curve(),
    {
        let q = Fe {
            l0: 0x8c46eb2100000001,
            l1: 0x224698fc0994a8dd,
            l2: 0,
            l3: 0x4000000000000000,
        };
        assert(q@ == modulus());
        if !self.x.lt(&q) || !self.y.lt(&q) {
            return false;
        }
        let y2 = self.y.square();
        let x3 = self.x.square().mul(&self.x);
        let rhs = x3.add(&Fe::from_u64(5));
        proof {
            lemma_fe_of_view(y2);
            lemma_fe_of_view(rhs);
        }
        y2 == rhs
    }

    /// The inverse of the point: the same `x`, the opposite `y`.
    pub fn neg(&self) -> (r: Point)
        requires
            self.on_curve(),
        ensures
            Some(r) == group_neg(Some(*self)),
            r.on_curve(),
    {
        let y = self.y.neg();
        proof {
            lemma_fe_of_view(y);
            lemma_neg_square(self.y@);
        }
        Point { x: self.x, y }
    }
}

/// The opposite of a reduced value has the same square.
pub proof fn lemma_neg_square(y: nat)
    requires
        y < modulus(),
    ensures
        fmul(fsub(0, y), fsub(0, y)) == fmul(y, y),
{
    let q = modulus() as int;
    let n = fsub(0, y) as int;
    if y == 0 {
        lemma_small_mod(0, modulus());
    } else {
        assert(n == q - y) by {
            lemma_small_mod((q - y) as nat, modulus());
            lemma_mod_multiples_vanish(1, 0 - y, q);
        }
        let yi = y as int;
        assert(n * n == (q - 2 * yi) * q + yi * yi) by (nonlinear_arith)
            requires
                n == q - yi,
        ;
        lemma_mod_multiples_vanish(q - 2 * yi, yi * yi, q);
    }
}

/// The sum of two elements of the group.
pub fn add_elements(a: &Element, b: &Element) -> (r: Element)
    requires
        on_group(*a),
        on_group(*b),
    ensures
        r == group_add(*a, *b),
        on_group(r),
{
    match (a, b) {
        (None, _) => *b,
        (_, None) => *a,
        (Some(p), Some(q)) => point_add(p, q),
    }
}

/// The inverse of an element of the group.
pub fn neg_element(a: &Element) -> (r: Element)
    requires
        on_group(*a),
    ensures
        r == group_neg(*a),
        on_group(r),
{
    match a {
        None => None,
        Some(p) => Some(p.neg()),
    }
}

/// The multiple of a point by a scalar, in the group.
pub fn mul_point(p: &Point, k: &Scalar) -> (r: Element)
    requires
        p.on_curve(),
    ensures
        r == ec_mul(*p, k@),
        on_group(r),
{
    point_mul(p, k)
}

/// `EqAffine`'s `*` by an `Fp`, brought back to affine coordinates: the point
/// added up as often as the scalar says, in the group of the curve, `None`
/// where that is the neutral element.
#[verifier::external_body]
pub(crate) fn point_mul(p: &Point, k: &Scalar) -> (r: Option<Point>)
    requires
        p.on_curve(),
    ensures
        r == ec_mul(*p, k@),
        r matches Some(q) ==> q.on_curve(),
{
    let fq = |e: &Fe| Fq::from_raw([e.l0, e.l1, e.l2, e.l3]);
    let a = EqAffine::from_xy(fq(&p.x), fq(&p.y)).unwrap();
    let s = Fp::from_raw([k.l0, k.l1, k.l2, k.l3]);
    let c: Option<Coordinates<_>> = (a * s).to_affine().coordinates().into();
    let fe = |f: &Fq| {
        let [l0, l1, l2, l3] = f.to_le_bits().into_inner();
        Fe { l0, l1, l2, l3 }
    };
    c.map(|c| Point { x: fe(c.x()), y: fe(c.y()) })
}

/// `EqAffine`'s `+`, brought back to affine coordinates: the sum of the two
/// points in the group of the curve, `None` where it is the neutral element.
/// Points with different `x` have a sum on their chord; a point has a double
/// on its tangent, since the curve has no point of order two; a point and its
/// inverse sum to the neutral element.
#[verifier::external_body]
pub(crate) fn point_add(a: &Point, b: &Point) -> (r: Option<Point>)
    requires
        a.on_curve(),
        b.on_curve(),
    ensures
        r == ec_add(*a, *b),
        r matches Some(p) ==> p.on_curve(),
        a.x != b.x ==> r.is_some() && chord(*a, *b, r.unwrap()),
        a == b ==> r.is_some() && tangent(*a, r.unwrap()),
        a.x == b.x && a.y != b.y ==> r.is_none(),
{
    let fq = |e: &Fe| Fq::from_raw([e.l0, e.l1, e.l2, e.l3]);
    let p = EqAffine::from_xy(fq(&a.x), fq(&a.y)).unwrap();
    let q = EqAffine::from_xy(fq(&b.x), fq(&b.y)).unwrap();
    let c: Option<Coordinates<_>> = (p + q).to_affine().coordinates().into();
    let fe = |f: &Fq| {
        let [l0, l1, l2, l3] = f.to_le_bits().into_inner();
        Fe { l0, l1, l2, l3 }
    };
    c.map(|c| Point { x: fe(c.x()), y: fe(c.y()) })
}

} // verus!
