use ff::{Field, PrimeField};
use group::{Curve, Group};
use msm_circuit::curve::Point;
use msm_circuit::field::Fe;
use msm_circuit::msm_var::bucket::config::MSMGate;
use msm_circuit::region::{Advice, Fixed, RegionCtx, TableColumn};
use msm_circuit::scalar::Scalar;
use pasta_curves::arithmetic::CurveAffine;
use pasta_curves::vesta;
use pasta_curves::{EqAffine, Fp, Fq};
use rand_core::SeedableRng;
use rand_xorshift::XorShiftRng;

fn limbs(bytes: [u8; 32]) -> [u64; 4] {
    let mut out = [0u64; 4];
    for i in 0..4 {
        let mut word = [0u8; 8];
        word.copy_from_slice(&bytes[8 * i..8 * i + 8]);
        out[i] = u64::from_le_bytes(word);
    }
    out
}

fn fe(x: &Fq) -> Fe {
    let l = limbs(x.to_repr());
    Fe { l0: l[0], l1: l[1], l2: l[2], l3: l[3] }
}

fn point(p: &EqAffine) -> Point {
    let c = p.coordinates().unwrap();
    Point { x: fe(c.x()), y: fe(c.y()) }
}

fn scalar(s: &Fp) -> Scalar {
    let l = limbs(s.to_repr());
    Scalar { l0: l[0], l1: l[1], l2: l[2], l3: l[3] }
}

fn rng() -> XorShiftRng {
    XorShiftRng::from_seed([
        0x59, 0x62, 0xbe, 0x5d, 0x76, 0x3d, 0x31, 0x8d, 0x17, 0xdb, 0x37, 0x32, 0x54, 0x06, 0xbc,
        0xe5,
    ])
}

fn gate(window: usize, aux: &EqAffine) -> MSMGate {
    MSMGate::configure(
        Advice { index: 0 },
        Advice { index: 1 },
        Advice { index: 2 },
        Advice { index: 3 },
        Advice { index: 4 },
        TableColumn { index: 0 },
        Fixed { index: 0 },
        window,
        point(aux),
    )
}

fn multiexp_naive_var(points: &[vesta::Point], scalars: &[Fp]) -> vesta::Point {
    assert!(!points.is_empty());
    assert_eq!(points.len(), scalars.len());
    points.iter().zip(scalars.iter()).fold(vesta::Point::identity(), |acc, (p, s)| acc + (*p * *s))
}

fn run(window: usize, n: usize) {
    let mut rng = rng();
    let aux = vesta::Point::random(&mut rng).to_affine();
    let points: Vec<vesta::Point> = (0..n).map(|_| vesta::Point::random(&mut rng)).collect();
    let scalars: Vec<Fp> = (0..n).map(|_| Fp::random(&mut rng)).collect();
    let expected = multiexp_naive_var(&points, &scalars).to_affine();

    let mut gate = gate(window, &aux);
    let mut ctx = RegionCtx::new();
    let assigned: Vec<_> =
        points.iter().map(|p| gate.assign_point(&mut ctx, &Some(point(&p.to_affine())))).collect();
    let scalars: Vec<_> = scalars.iter().map(|s| Some(scalar(s))).collect();
    let result = gate.msm_var(&mut ctx, &assigned, &scalars).unwrap();
    assert_eq!(result.value(), Some(point(&expected)));
}

#[test]
fn bucket_msm_matches_plain_sum_window_2() {
    run(2, 3);
}

#[test]
fn bucket_msm_matches_plain_sum_window_4() {
    run(4, 5);
}

#[test]
fn bucket_msm_matches_plain_sum_single_point() {
    run(3, 1);
}
