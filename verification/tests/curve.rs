use ff::{Field, PrimeField};
use group::{Curve, Group};
use msm_circuit::curve::{add_elements, mul_point, neg_element, Point};
use msm_circuit::field::Fe;
use msm_circuit::gate::{
    check_add_gate, check_double_gate, check_point_gate, compute_add, compute_double,
};
use msm_circuit::scalar::Scalar;
use pasta_curves::arithmetic::CurveAffine;
use pasta_curves::vesta;
use pasta_curves::{EqAffine, Fp, Fq};
use rand_core::SeedableRng;
use rand_xorshift::XorShiftRng;

fn limbs(bytes: [u8; 32]) -> [u64; 4] {
    let mut out = [0u64; 4];
    for i in 0..4 {
        let mut word = [0u8; 8];
        word.copy_from_slice(&bytes[8 * i..8 * i + 8]);
        out[i] = u64::from_le_bytes(word);
    }
    out
}

fn fe(x: &Fq) -> Fe {
    let l = limbs(x.to_repr());
    Fe { l0: l[0], l1: l[1], l2: l[2], l3: l[3] }
}

fn rng() -> XorShiftRng {
    XorShiftRng::from_seed([
        0x59, 0x62, 0xbe, 0x5d, 0x76, 0x3d, 0x31, 0x8d, 0x17, 0xdb, 0x37, 0x32, 0x54, 0x06, 0xbc,
        0xe5,
    ])
}

fn point(p: &EqAffine) -> Point {
    let c = p.coordinates().unwrap();
    Point { x: fe(c.x()), y: fe(c.y()) }
}

fn scalar(s: &Fp) -> Scalar {
    let l = limbs(s.to_repr());
    Scalar { l0: l[0], l1: l[1], l2: l[2], l3: l[3] }
}

#[test]
fn the_generator_is_on_the_curve() {
    // the generator of Vesta is (-1, 2)
    let g = point(&vesta::Point::generator().to_affine());
    assert_eq!(g.x, Fe::zero().sub(&Fe::one()));
    assert_eq!(g.y, Fe::from_u64(2));
    assert!(g.is_on_curve());
    assert!(!Point { x: Fe::from_u64(1), y: Fe::from_u64(1) }.is_on_curve());
    assert!(!Point { x: Fe::zero(), y: Fe::zero() }.is_on_curve());
}

#[test]
fn coordinates_at_the_modulus_are_not_on_the_curve() {
    let q = Fe { l0: 0x8c46eb2100000001, l1: 0x224698fc0994a8dd, l2: 0, l3: 0x4000000000000000 };
    // x = q - 1 + q is congruent to the generator's x but is not reduced
    let g = point(&vesta::Point::generator().to_affine());
    assert!(!Point { x: q, y: g.y }.is_on_curve());
}

#[test]
fn sums_agree_with_the_group() {
    let mut rng = rng();
    for _ in 0..10 {
        let a = vesta::Point::random(&mut rng);
        let b = vesta::Point::random(&mut rng);
        let sum = add_elements(&Some(point(&a.to_affine())), &Some(point(&b.to_affine())));
        assert_eq!(sum, Some(point(&(a + b).to_affine())));
        let double = add_elements(&Some(point(&a.to_affine())), &Some(point(&a.to_affine())));
        assert_eq!(double, Some(point(&a.double().to_affine())));
    }
}

#[test]
fn the_neutral_element_is_neutral_and_inverses_cancel() {
    let mut rng = rng();
    let a = Some(point(&vesta::Point::random(&mut rng).to_affine()));
    assert_eq!(add_elements(&None, &a), a);
    assert_eq!(add_elements(&a, &None), a);
    assert_eq!(add_elements(&None, &None), None);
    assert_eq!(add_elements(&a, &neg_element(&a)), None);
    assert_eq!(neg_element(&None), None);
}

#[test]
fn multiples_agree_with_the_group() {
    let mut rng = rng();
    let a = vesta::Point::random(&mut rng);
    let k = Fp::random(&mut rng);
    assert_eq!(
        mul_point(&point(&a.to_affine()), &scalar(&k)),
        Some(point(&(a * k).to_affine()))
    );
    assert_eq!(mul_point(&point(&a.to_affine()), &Scalar::from_u64(0)), None);
    assert_eq!(
        mul_point(&point(&a.to_affine()), &Scalar::from_u64(3)),
        Some(point(&(a + a + a).to_affine()))
    );
}

#[test]
fn witnesses_of_an_addition_satisfy_its_identities() {
    let mut rng = rng();
    let a = point(&vesta::Point::random(&mut rng).to_affine());
    let b = point(&vesta::Point::random(&mut rng).to_affine());
    let w = compute_add(&Some(a), &Some(b));
    let out = w.out.unwrap();
    assert!(check_add_gate(&a, &b, &out, &w.t.unwrap(), &w.inverse_t.unwrap()));
    // t = (b.x - a.x)^2 and its inverse
    let dx = b.x.sub(&a.x);
    assert_eq!(w.t, Some(dx.square()));
    assert_eq!(w.inverse_t, dx.square().invert());
    // a wrong sum, a wrong t, a wrong inverse each break an identity
    let wrong = Point { x: out.x.add(&Fe::one()), y: out.y };
    assert!(!check_add_gate(&a, &b, &wrong, &w.t.unwrap(), &w.inverse_t.unwrap()));
    assert!(!check_add_gate(&a, &b, &out, &w.t.unwrap().add(&Fe::one()), &w.inverse_t.unwrap()));
    assert!(!check_add_gate(&a, &b, &out, &w.t.unwrap(), &Fe::zero()));
}

#[test]
fn an_addition_of_points_with_one_x_has_no_witness() {
    let mut rng = rng();
    let a = point(&vesta::Point::random(&mut rng).to_affine());
    let same = compute_add(&Some(a), &Some(a));
    assert_eq!(same.out, None);
    assert_eq!(same.t, Some(Fe::zero()));
    assert_eq!(same.inverse_t, None);
    let opposite = compute_add(&Some(a), &Some(a.neg()));
    assert_eq!(opposite.out, None);
    let unknown = compute_add(&Some(a), &None);
    assert_eq!(unknown.out, None);
    assert_eq!(unknown.t, None);
}

#[test]
fn witnesses_of_a_doubling_satisfy_its_identities() {
    let mut rng = rng();
    let p = vesta::Point::random(&mut rng);
    let a = point(&p.to_affine());
    let w = compute_double(&Some(a));
    let out = w.out.unwrap();
    assert_eq!(out, point(&p.double().to_affine()));
    assert_eq!(w.x2, Some(a.x.square()));
    assert_eq!(w.x4, Some(a.x.square().square()));
    assert_eq!(w.y2, Some(a.y.square()));
    assert!(check_double_gate(&a, &out, &w.x2.unwrap(), &w.x4.unwrap(), &w.y2.unwrap()));
    let wrong = Point { x: out.x, y: out.y.add(&Fe::one()) };
    assert!(!check_double_gate(&a, &wrong, &w.x2.unwrap(), &w.x4.unwrap(), &w.y2.unwrap()));
    assert_eq!(compute_double(&None).out, None);
}

#[test]
fn a_point_satisfies_the_curve_identities() {
    let g = point(&vesta::Point::generator().to_affine());
    let x2 = g.x.square();
    let x3 = x2.mul(&g.x);
    assert!(check_point_gate(&g.x, &g.y, &x2, &x3));
    assert!(!check_point_gate(&g.x, &g.y.add(&Fe::one()), &x2, &x3));
    assert!(!check_point_gate(&g.x, &g.y, &x2, &x2));
}
