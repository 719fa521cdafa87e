use ff::{Field, PrimeField};
use group::{Curve, Group};
use msm_circuit::curve::Point;
use msm_circuit::field::Fe;
use msm_circuit::msm_fix::config::FixMSMGate;
use msm_circuit::msm_fix::table::{blinding_element, build_memory, incremental_table};
use msm_circuit::region::{Advice, Fixed, RegionCtx, TableColumn};
use msm_circuit::scalar::Scalar;
use pasta_curves::arithmetic::CurveAffine;
use pasta_curves::vesta;
use pasta_curves::{EqAffine, Fp, Fq};
use rand_core::SeedableRng;
use rand_xorshift::XorShiftRng;

fn limbs(bytes: [u8; 32]) -> [u64; 4] {
    let mut out = [0u64; 4];
    for i in 0..4 {
        let mut word = [0u8; 8];
        word.copy_from_slice(&bytes[8 * i..8 * i + 8]);
        out[i] = u64::from_le_bytes(word);
    }
    out
}

fn fe(x: &Fq) -> Fe {
    let l = limbs(x.to_repr());
    Fe { l0: l[0], l1: l[1], l2: l[2], l3: l[3] }
}

fn point(p: &EqAffine) -> Point {
    let c = p.coordinates().unwrap();
    Point { x: fe(c.x()), y: fe(c.y()) }
}

fn scalar(s: &Fp) -> Scalar {
    let l = limbs(s.to_repr());
    Scalar { l0: l[0], l1: l[1], l2: l[2], l3: l[3] }
}

fn rng() -> XorShiftRng {
    XorShiftRng::from_seed([
        0x59, 0x62, 0xbe, 0x5d, 0x76, 0x3d, 0x31, 0x8d, 0x17, 0xdb, 0x37, 0x32, 0x54, 0x06, 0xbc,
        0xe5,
    ])
}

fn fixed_gate(window: usize, bases: &[Point], aux: &Point) -> FixMSMGate {
    let memory = build_memory(bases, window, aux).unwrap();
    let correction = blinding_element(bases.len(), window, aux).unwrap();
    FixMSMGate::configure(
        Advice { index: 0 },
        Advice { index: 1 },
        Advice { index: 2 },
        Advice { index: 3 },
        Advice { index: 4 },
        TableColumn { index: 0 },
        TableColumn { index: 1 },
        TableColumn { index: 2 },
        TableColumn { index: 3 },
        Fixed { index: 0 },
        window,
        memory,
        correction,
    )
}

fn run(window: usize, n: usize) -> usize {
    let mut rng = rng();
    let bases: Vec<vesta::Point> = (0..n).map(|_| vesta::Point::random(&mut rng)).collect();
    let aux = vesta::Point::generator().to_affine();
    let scalars: Vec<Fp> = (0..n).map(|_| Fp::random(&mut rng)).collect();
    let expected = bases
        .iter()
        .zip(scalars.iter())
        .fold(vesta::Point::identity(), |acc, (p, s)| acc + (*p * *s))
        .to_affine();

    let bases: Vec<Point> = bases.iter().map(|p| point(&p.to_affine())).collect();
    let mut gate = fixed_gate(window, &bases, &point(&aux));
    assert_eq!(gate.memory.len(), n << window);
    let mut ctx = RegionCtx::new();
    let scalars: Vec<_> = scalars.iter().map(|s| Some(scalar(s))).collect();
    let result = gate.msm(&mut ctx, &scalars);
    assert_eq!(result.value(), Some(point(&expected)));
    ctx.offset()
}

#[test]
fn fixed_msm_matches_plain_sum_window_2() {
    run(2, 3);
}

#[test]
fn fixed_msm_matches_plain_sum_window_6() {
    run(6, 4);
}

#[test]
fn fixed_msm_single_base() {
    run(3, 1);
}

#[test]
fn incremental_table_holds_the_multiples() {
    let mut rng = rng();
    let p = vesta::Point::random(&mut rng);
    let aux = vesta::Point::random(&mut rng);
    let table = incremental_table(&point(&p.to_affine()), 8, &point(&aux.to_affine())).unwrap();
    assert_eq!(table.len(), 8);
    let mut expected = aux;
    for entry in table.iter() {
        assert_eq!(*entry, point(&expected.to_affine()));
        expected = expected + p;
    }
}

#[test]
fn unknown_scalars_give_unknown_result_and_same_rows() {
    let mut rng = rng();
    let bases: Vec<Point> =
        (0..2).map(|_| point(&vesta::Point::random(&mut rng).to_affine())).collect();
    let aux = point(&vesta::Point::generator().to_affine());
    let mut known = fixed_gate(3, &bases, &aux);
    let mut unknown = fixed_gate(3, &bases, &aux);
    let scalars: Vec<_> = (0..2).map(|_| Some(scalar(&Fp::random(&mut rng)))).collect();
    let mut a = RegionCtx::new();
    let mut b = RegionCtx::new();
    let result = known.msm(&mut a, &scalars);
    let nothing = unknown.msm(&mut b, &[None, None]);
    assert!(result.value().is_some());
    assert_eq!(nothing.value(), None);
    assert_eq!(a.offset(), b.offset());
    assert_eq!(a.ops().len(), b.ops().len());
}
