use ff::{Field, PrimeField};
use group::{Curve, Group};
use msm_circuit::constraints::{
    check_binding, check_lookups, check_region, table_entries, tabulate,
};
use msm_circuit::curve::Point;
use msm_circuit::field::Fe;
use msm_circuit::msm_fix::config::FixMSMGate;
use msm_circuit::msm_fix::table::{blinding_element, build_memory};
use msm_circuit::msm_var::bucket::config::MSMGate;
use msm_circuit::msm_var::bucket::rw::check_sorted_trace;
use msm_circuit::region::{Advice, Fixed, RegionCtx, TableColumn};
use msm_circuit::scalar::Scalar;
use pasta_curves::arithmetic::CurveAffine;
use pasta_curves::vesta;
use pasta_curves::{EqAffine, Fp, Fq};
use rand_core::SeedableRng;
use rand_xorshift::XorShiftRng;

fn limbs(bytes: [u8; 32]) -> [u64; 4] {
    let mut out = [0u64; 4];
    for i in 0..4 {
        let mut word = [0u8; 8];
        word.copy_from_slice(&bytes[8 * i..8 * i + 8]);
        out[i] = u64::from_le_bytes(word);
    }
    out
}

fn fe(x: &Fq) -> Fe {
    let l = limbs(x.to_repr());
    Fe { l0: l[0], l1: l[1], l2: l[2], l3: l[3] }
}

fn rng() -> XorShiftRng {
    XorShiftRng::from_seed([
        0x59, 0x62, 0xbe, 0x5d, 0x76, 0x3d, 0x31, 0x8d, 0x17, 0xdb, 0x37, 0x32, 0x54, 0x06, 0xbc,
        0xe5,
    ])
}

fn point(p: &EqAffine) -> Point {
    let c = p.coordinates().unwrap();
    Point { x: fe(c.x()), y: fe(c.y()) }
}

fn scalar(s: &Fp) -> Scalar {
    let l = limbs(s.to_repr());
    Scalar { l0: l[0], l1: l[1], l2: l[2], l3: l[3] }
}

fn multiexp_naive_var(point: &[vesta::Point], scalar: &[Fp]) -> vesta::Point {
    assert!(!point.is_empty());
    assert_eq!(point.len(), scalar.len());
    point
        .iter()
        .zip(scalar.iter())
        .fold(vesta::Point::identity(), |acc, (point, scalar)| acc + (*point * *scalar))
}

fn advice(index: u8) -> Advice {
    Advice { index }
}

/// The synthesis of the bucket method: the plain sum and the points are
/// assigned, the multiplication is laid out and its result is constrained
/// to be the plain sum; the region, the queries and the sorted trace are
/// then tested against what the configuration asks.
fn bucket_circuit(window: usize, number_of_points: usize) {
    let mut rng = rng();
    let aux = vesta::Point::random(&mut rng).to_affine();
    let mut gate = MSMGate::configure(
        advice(0),
        advice(1),
        advice(2),
        advice(3),
        advice(4),
        TableColumn { index: 0 },
        Fixed { index: 0 },
        window,
        point(&aux),
    );
    gate.unassign_constants();
    gate.clear_rw();
    let mut ctx = RegionCtx::new();
    let points: Vec<_> = (0..number_of_points).map(|_| vesta::Point::random(&mut rng)).collect();
    let scalars: Vec<_> = (0..number_of_points).map(|_| Fp::random(&mut rng)).collect();
    let res0 = multiexp_naive_var(&points[..], &scalars[..]).to_affine();
    let res0 = gate.assign_point(&mut ctx, &Some(point(&res0)));
    let points: Vec<_> =
        points.iter().map(|p| gate.assign_point(&mut ctx, &Some(point(&p.to_affine())))).collect();
    let scalars: Vec<_> = scalars.iter().map(|s| Some(scalar(s))).collect();
    let res1 = gate.msm_var(&mut ctx, &points[..], &scalars[..]).unwrap();
    gate.equal(&mut ctx, &res0, &res1);
    assert_eq!(res0.value(), res1.value());

    assert_eq!(gate.layout_range_table().len(), 1 << window);
    let sorted = gate.layout_sorted_rw().expect("the trace alternates");
    assert!(check_region(ctx.ops(), &gate.columns, window));
    assert!(check_sorted_trace(&gate.memory.sort().unwrap()));
    let rows = tabulate(ctx.ops(), &gate.columns);
    let sorted_rows = tabulate(sorted.ops(), &gate.columns);
    assert!(check_binding(&rows, &sorted_rows));
}

fn sliding_circuit(window: usize, number_of_points: usize) {
    let mut rng = rng();
    let aux = vesta::Point::random(&mut rng).to_affine();
    let mut gate = msm_circuit::msm_var::sliding::config::MSMGate::configure(
        advice(0),
        advice(1),
        advice(2),
        advice(3),
        advice(4),
        TableColumn { index: 0 },
        Fixed { index: 0 },
        window,
        point(&aux),
    );
    gate.unassign_constants();
    let mut ctx = RegionCtx::new();
    let points: Vec<_> = (0..number_of_points).map(|_| vesta::Point::random(&mut rng)).collect();
    let scalars: Vec<_> = (0..number_of_points).map(|_| Fp::random(&mut rng)).collect();
    let res0 = multiexp_naive_var(&points[..], &scalars[..]).to_affine();
    let res0 = gate.assign_point(&mut ctx, &Some(point(&res0)));
    let points: Vec<_> = points.iter().map(|p| Some(point(&p.to_affine()))).collect();
    let scalars: Vec<_> = scalars.iter().map(|s| Some(scalar(s))).collect();
    let res1 = gate.msm_var(&mut ctx, &points[..], &scalars[..]).unwrap();
    gate.equal(&mut ctx, &res0, &res1);
    assert_eq!(res0.value(), res1.value());

    assert_eq!(gate.layout_range_table().len(), 1 << window);
    assert!(check_region(ctx.ops(), &gate.columns, window));
    let rows = tabulate(ctx.ops(), &gate.columns);
    assert!(check_lookups(&rows, &table_entries(&rows)));
}

#[test]
fn test_fixed_msm() {
    let mut rng = rng();
    let n = 60;
    let bases: Vec<vesta::Point> = (0..n).map(|_| vesta::Point::random(&mut rng)).collect();
    let aux = vesta::Point::generator().to_affine();
    let window = 6;

    let points: Vec<Point> = bases.iter().map(|p| point(&p.to_affine())).collect();
    let memory = build_memory(&points, window, &point(&aux)).unwrap();
    let correction = blinding_element(n, window, &point(&aux)).unwrap();
    let mut gate = FixMSMGate::configure(
        advice(0),
        advice(1),
        advice(2),
        advice(3),
        advice(4),
        TableColumn { index: 0 },
        TableColumn { index: 1 },
        TableColumn { index: 2 },
        TableColumn { index: 3 },
        Fixed { index: 0 },
        window,
        memory,
        correction,
    );
    gate.unassign_constants();
    let mut ctx = RegionCtx::new();
    let scalars: Vec<_> = (0..n).map(|_| Fp::random(&mut rng)).collect();
    let res0 = multiexp_naive_var(&bases[..], &scalars[..]).to_affine();
    let res0 = gate.assign_point(&mut ctx, &Some(point(&res0)));
    let scalars: Vec<_> = scalars.iter().map(|s| Some(scalar(s))).collect();
    let res1 = gate.msm(&mut ctx, &scalars[..]);
    gate.equal(&mut ctx, &res0, &res1);
    assert_eq!(res0.value(), res1.value());

    assert_eq!(gate.layout_range_table().len(), 1 << window);
    let table = gate.layout_point_table();
    assert_eq!(table.len(), n * (1 << window) + 1);
    assert!(check_region(ctx.ops(), &gate.columns, window));
    let rows = tabulate(ctx.ops(), &gate.columns);
    assert!(check_lookups(&rows, &table));
}

#[test]
fn test_bucket_narrow_msm_var() {
    bucket_circuit(8, 40);
}

#[test]
fn test_sliding_narrow_msm_var() {
    sliding_circuit(4, 100);
}

#[test]
fn test_sliding_msm_var() {
    sliding_circuit(4, 60);
}

#[test]
fn test_msm_var() {
    bucket_circuit(8, 30);
}
