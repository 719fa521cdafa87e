use ff::{Field, PrimeField};
use group::{Curve, Group};
use msm_circuit::curve::Point;
use msm_circuit::field::Fe;
use msm_circuit::msm_var::sliding::config::MSMGate;
use msm_circuit::msm_var::sliding::msm::compute_blinding_factor;
use msm_circuit::region::{Advice, Fixed, RegionCtx, TableColumn};
use msm_circuit::scalar::Scalar;
use pasta_curves::arithmetic::CurveAffine;
use pasta_curves::vesta;
use pasta_curves::{EqAffine, Fp, Fq};
use rand_core::SeedableRng;
use rand_xorshift::XorShiftRng;

fn limbs(bytes: [u8; 32]) -> [u64; 4] {
    let mut out = [0u64; 4];
    for i in 0..4 {
        let mut word = [0u8; 8];
        word.copy_from_slice(&bytes[8 * i..8 * i + 8]);
        out[i] = u64::from_le_bytes(word);
    }
    out
}

fn fe(x: &Fq) -> Fe {
    let l = limbs(x.to_repr());
    Fe { l0: l[0], l1: l[1], l2: l[2], l3: l[3] }
}

fn point(p: &EqAffine) -> Point {
    let c = p.coordinates().unwrap();
    Point { x: fe(c.x()), y: fe(c.y()) }
}

fn scalar(s: &Fp) -> Scalar {
    let l = limbs(s.to_repr());
    Scalar { l0: l[0], l1: l[1], l2: l[2], l3: l[3] }
}

fn rng() -> XorShiftRng {
    XorShiftRng::from_seed([
        0x59, 0x62, 0xbe, 0x5d, 0x76, 0x3d, 0x31, 0x8d, 0x17, 0xdb, 0x37, 0x32, 0x54, 0x06, 0xbc,
        0xe5,
    ])
}

fn gate(window: usize, aux: &EqAffine) -> MSMGate {
    MSMGate::configure(
        Advice { index: 0 },
        Advice { index: 1 },
        Advice { index: 2 },
        Advice { index: 3 },
        Advice { index: 4 },
        TableColumn { index: 0 },
        Fixed { index: 0 },
        window,
        point(aux),
    )
}

fn run(window: usize, n: usize) {
    let mut rng = rng();
    let aux = vesta::Point::random(&mut rng).to_affine();
    let points: Vec<vesta::Point> = (0..n).map(|_| vesta::Point::random(&mut rng)).collect();
    let scalars: Vec<Fp> = (0..n).map(|_| Fp::random(&mut rng)).collect();
    let expected = points
        .iter()
        .zip(scalars.iter())
        .fold(vesta::Point::identity(), |acc, (p, s)| acc + (*p * *s))
        .to_affine();

    let mut gate = gate(window, &aux);
    let mut ctx = RegionCtx::new();
    let points: Vec<_> = points.iter().map(|p| Some(point(&p.to_affine()))).collect();
    let scalars: Vec<_> = scalars.iter().map(|s| Some(scalar(s))).collect();
    let result = gate.msm_var(&mut ctx, &points, &scalars).unwrap();
    assert_eq!(result.value(), Some(point(&expected)));
}

#[test]
fn sliding_msm_matches_plain_sum_window_2() {
    run(2, 3);
}

#[test]
fn sliding_msm_matches_plain_sum_window_4() {
    run(4, 5);
}

#[test]
fn sliding_msm_single_point() {
    run(5, 1);
}

#[test]
fn blinding_factor_for_one_point_counts_each_round_once() {
    // one point: 2^1 - 1 = 1, so the factor is the sum of 2^(j * w) over
    // the rounds; with a window of 64 bits less one there are five rounds
    let factor = compute_blinding_factor(63, 1);
    let mut expected = Fp::zero();
    let mut term = Fp::one();
    let step = Fp::from(1u64 << 63);
    for _ in 0..5 {
        expected += term;
        term *= step;
    }
    assert_eq!(factor, scalar(&expected));
}

#[test]
fn a_second_multiplication_of_the_same_points_finds_table_and_correction() {
    let mut rng = rng();
    let aux = vesta::Point::random(&mut rng).to_affine();
    let points: Vec<vesta::Point> = (0..3).map(|_| vesta::Point::random(&mut rng)).collect();
    let scalars: Vec<Fp> = (0..3).map(|_| Fp::random(&mut rng)).collect();
    let mut gate = gate(3, &aux);
    let mut ctx = RegionCtx::new();
    let points: Vec<_> = points.iter().map(|p| Some(point(&p.to_affine()))).collect();
    let scalars: Vec<_> = scalars.iter().map(|s| Some(scalar(s))).collect();
    assert!(gate.correction_point.is_none());
    let first = gate.msm_var(&mut ctx, &points, &scalars).unwrap();
    let kept = gate.correction_point;
    assert!(kept.is_some());
    // the table holds the entries that the second multiplication writes
    // again, and the correction is the one for three points
    let second = gate.msm_var(&mut ctx, &points, &scalars).unwrap();
    assert_eq!(first.value(), second.value());
    assert_eq!(gate.correction_point, kept);
    // the entry of a place is the auxiliary generator with a multiple of
    // the point
    let zero = Some(Fe::from_u64(0));
    assert_eq!(gate.memory.read(&zero, Fe::from_u64(0)), Some(point(&aux)));
    let sum = (aux + points_sum(&aux, &points[0])).to_affine();
    assert_eq!(gate.memory.read(&zero, Fe::from_u64(1)), Some(point(&sum)));
}

fn points_sum(aux: &EqAffine, p: &Option<Point>) -> vesta::Point {
    let p = p.unwrap();
    let to = |f: &Fe| {
        let mut bytes = [0u8; 32];
        for (i, l) in [f.l0, f.l1, f.l2, f.l3].iter().enumerate() {
            bytes[8 * i..8 * i + 8].copy_from_slice(&l.to_le_bytes());
        }
        Fq::from_repr(bytes).unwrap()
    };
    let q = EqAffine::from_xy(to(&p.x), to(&p.y)).unwrap();
    let _ = aux;
    vesta::Point::from(q)
}
