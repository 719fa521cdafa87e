use ff::{Field, PrimeField};
use group::{Curve, Group};
use msm_circuit::curve::Point;
use msm_circuit::field::Fe;
use msm_circuit::msm_var::bucket::instructions::MSMGate as BucketLayout;
use msm_circuit::msm_var::bucket::wide::config::MSMGate as WideBucket;
use msm_circuit::msm_var::bucket::wide::rw::{check_sorted_trace, Memory, SortedQuery};
use msm_circuit::msm_var::sliding::instructions::MSMGate as SlidingLayout;
use msm_circuit::msm_var::sliding::wide::config::MSMGate as WideSliding;
use msm_circuit::region::{Advice, Fixed, Op, RegionCtx, TableColumn};
use msm_circuit::scalar::Scalar;
use pasta_curves::arithmetic::CurveAffine;
use pasta_curves::vesta;
use pasta_curves::{EqAffine, Fp, Fq};
use rand_core::SeedableRng;
use rand_xorshift::XorShiftRng;

fn limbs(bytes: [u8; 32]) -> [u64; 4] {
    let mut out = [0u64; 4];
    for i in 0..4 {
        let mut word = [0u8; 8];
        word.copy_from_slice(&bytes[8 * i..8 * i + 8]);
        out[i] = u64::from_le_bytes(word);
    }
    out
}

fn fe(x: &Fq) -> Fe {
    let l = limbs(x.to_repr());
    Fe { l0: l[0], l1: l[1], l2: l[2], l3: l[3] }
}

fn rng() -> XorShiftRng {
    XorShiftRng::from_seed([
        0x59, 0x62, 0xbe, 0x5d, 0x76, 0x3d, 0x31, 0x8d, 0x17, 0xdb, 0x37, 0x32, 0x54, 0x06, 0xbc,
        0xe5,
    ])
}

fn point(p: &EqAffine) -> Point {
    let c = p.coordinates().unwrap();
    Point { x: fe(c.x()), y: fe(c.y()) }
}

fn scalar(s: &Fp) -> Scalar {
    let l = limbs(s.to_repr());
    Scalar { l0: l[0], l1: l[1], l2: l[2], l3: l[3] }
}

fn advice(index: u8) -> Advice {
    Advice { index }
}

fn bucket(window: usize, aux: &EqAffine) -> WideBucket {
    WideBucket::configure(
        advice(0),
        advice(1),
        advice(2),
        advice(3),
        advice(4),
        advice(5),
        advice(6),
        advice(7),
        advice(8),
        TableColumn { index: 0 },
        Fixed { index: 0 },
        window,
        point(aux),
    )
}

fn sliding(window: usize, aux: &EqAffine) -> WideSliding {
    WideSliding::configure(
        advice(0),
        advice(1),
        advice(2),
        advice(3),
        advice(4),
        advice(5),
        advice(6),
        advice(7),
        advice(8),
        TableColumn { index: 0 },
        Fixed { index: 0 },
        window,
        point(aux),
    )
}

fn inputs(n: usize) -> (EqAffine, Vec<vesta::Point>, Vec<Fp>, Point) {
    let mut rng = rng();
    let aux = vesta::Point::random(&mut rng).to_affine();
    let points: Vec<vesta::Point> = (0..n).map(|_| vesta::Point::random(&mut rng)).collect();
    let scalars: Vec<Fp> = (0..n).map(|_| Fp::random(&mut rng)).collect();
    let expected = points
        .iter()
        .zip(scalars.iter())
        .fold(vesta::Point::identity(), |acc, (p, s)| acc + (*p * *s))
        .to_affine();
    (aux, points, scalars, point(&expected))
}

#[test]
fn wide_bucket_msm_matches_plain_sum() {
    for (window, n) in [(2, 3), (4, 5), (3, 1)] {
        let (aux, points, scalars, expected) = inputs(n);
        let mut gate = bucket(window, &aux);
        let mut ctx = RegionCtx::new();
        let assigned: Vec<_> = points
            .iter()
            .map(|p| gate.assign_point(&mut ctx, &Some(point(&p.to_affine()))))
            .collect();
        let scalars: Vec<_> = scalars.iter().map(|s| Some(scalar(s))).collect();
        let result = gate.msm_var(&mut ctx, &assigned, &scalars).unwrap();
        assert_eq!(result.value(), Some(expected));
        let sorted = gate.memory.sort().unwrap();
        assert_eq!(sorted.len(), gate.memory.timestamp());
        // in each round a query for each bucket written, one for each point,
        // and one for each bucket read
        let rounds = 254 / window + 1;
        assert_eq!(gate.memory.timestamp(), rounds * (2 * (1 << window) + n));
        assert!(check_sorted_trace(&sorted));
        let region = BucketLayout::layout_sorted_rw(&gate).expect("the wide layout has rows");
        assert_eq!(region.offset(), sorted.len() + 1);
        assert_eq!(BucketLayout::layout_range_table(&gate).len(), 1 << window);
    }
}

#[test]
fn the_wide_layout_takes_one_row_for_an_addition() {
    let (aux, points, _, _) = inputs(2);
    let mut gate = bucket(3, &aux);
    let mut ctx = RegionCtx::new();
    let a = gate.assign_point(&mut ctx, &Some(point(&points[0].to_affine())));
    let b = gate.assign_point(&mut ctx, &Some(point(&points[1].to_affine())));
    let sum = gate.add(&mut ctx, &a, &b);
    assert_eq!(ctx.offset(), 3);
    assert_eq!(sum.value(), Some(point(&(points[0] + points[1]).to_affine())));
    assert_eq!(sum.x().cell.row, 2);
    let twice = gate.dbl(&mut ctx, &sum);
    assert_eq!(ctx.offset(), 4);
    assert_eq!(twice.value(), Some(point(&(points[0] + points[1]).double().to_affine())));
    // a constant is in the last of the nine advice columns
    let seven = gate.get_constant(&mut ctx, Fe::from_u64(7));
    assert_eq!(ctx.offset(), 5);
    assert_eq!(ctx.ops()[ctx.ops().len() - 2], Op::Advice(advice(8), Some(Fe::from_u64(7))));
    assert_eq!(gate.get_constant(&mut ctx, Fe::from_u64(7)), seven);
    assert_eq!(ctx.offset(), 5);
    assert_eq!(BucketLayout::advice_columns(&gate).len(), 9);
    assert_eq!(BucketLayout::fixed_colmns(&gate).len(), 1);
}

#[test]
fn a_wide_query_reads_what_the_query_before_wrote() {
    let (_, points, _, _) = inputs(3);
    let p: Vec<Point> = points.iter().map(|p| point(&p.to_affine())).collect();
    let zero = Some(Fe::zero());
    let mut memory = Memory::new();
    let a = Some(Fe::from_u64(1));
    // nothing was written yet: the next query shows zeros as read
    assert_eq!(memory.previous(&a), (zero, zero));
    memory.write(&a, &Some(p[0]));
    assert_eq!(memory.previous(&a), (Some(p[0].x), Some(p[0].y)));
    assert_eq!(memory.read(&a), (Some(p[0].x), Some(p[0].y)));
    assert_eq!(memory.point_at(&a), Some(p[0]));
    memory.write(&Some(Fe::zero()), &Some(p[2]));
    memory.write(&a, &Some(p[1]));
    memory.dummy_write(&a);
    assert_eq!(memory.read(&a), (zero, zero));
    assert_eq!(memory.read(&None), (None, None));
    assert_eq!(memory.timestamp(), 4);
    let sorted = memory.sort().unwrap();
    let expected = vec![
        SortedQuery {
            timestamp: 1,
            address: Fe::zero(),
            x0: Fe::zero(),
            y0: Fe::zero(),
            x1: p[2].x,
            y1: p[2].y,
        },
        SortedQuery {
            timestamp: 0,
            address: Fe::one(),
            x0: Fe::zero(),
            y0: Fe::zero(),
            x1: p[0].x,
            y1: p[0].y,
        },
        SortedQuery {
            timestamp: 2,
            address: Fe::one(),
            x0: p[0].x,
            y0: p[0].y,
            x1: p[1].x,
            y1: p[1].y,
        },
        SortedQuery {
            timestamp: 3,
            address: Fe::one(),
            x0: p[1].x,
            y0: p[1].y,
            x1: Fe::zero(),
            y1: Fe::zero(),
        },
    ];
    assert_eq!(sorted, expected);
    assert!(check_sorted_trace(&sorted));
    // a read that is not what was written before
    let mut forged = expected.clone();
    forged[2].x0 = p[2].x;
    assert!(!check_sorted_trace(&forged));
    // timestamps out of order
    let mut forged = expected.clone();
    forged.swap(1, 2);
    assert!(!check_sorted_trace(&forged));
    // an address that skips one
    let mut forged = expected;
    forged[3].address = Fe::from_u64(3);
    assert!(!check_sorted_trace(&forged));
    memory.clear();
    assert_eq!(memory.timestamp(), 0);
    assert_eq!(memory.previous(&a), (zero, zero));
}

#[test]
fn a_wide_write_takes_any_pair_and_shows_what_was_there() {
    let mut memory = Memory::new();
    let a = Some(Fe::from_u64(0));
    let first = Point { x: Fe::from_u64(3), y: Fe::from_u64(4) };
    let second = Point { x: Fe::from_u64(5), y: Fe::from_u64(6) };
    memory.write(&a, &Some(first));
    memory.write(&a, &Some(second));
    // writing again what the address shows
    memory.write(&a, &Some(second));
    assert_eq!(memory.read(&a), (Some(second.x), Some(second.y)));
    let sorted = memory.sort().unwrap();
    let shown: Vec<_> = sorted.iter().map(|q| (q.timestamp, q.x0, q.y0, q.x1, q.y1)).collect();
    assert_eq!(
        shown,
        vec![
            (0, Fe::zero(), Fe::zero(), first.x, first.y),
            (1, first.x, first.y, second.x, second.y),
            (2, second.x, second.y, second.x, second.y),
        ]
    );
}

#[test]
fn wide_sliding_msm_matches_plain_sum() {
    for (window, n) in [(2, 3), (4, 4), (5, 1)] {
        let (aux, points, scalars, expected) = inputs(n);
        let mut gate = sliding(window, &aux);
        let mut ctx = RegionCtx::new();
        let points: Vec<_> = points.iter().map(|p| Some(point(&p.to_affine()))).collect();
        let scalars: Vec<_> = scalars.iter().map(|s| Some(scalar(s))).collect();
        let result = gate.msm_var(&mut ctx, &points, &scalars).unwrap();
        assert_eq!(result.value(), Some(expected));
        assert_eq!(SlidingLayout::layout_range_table(&gate).len(), 1 << window);
        assert_eq!(SlidingLayout::advice_columns(&gate).len(), 9);
    }
}

#[test]
fn the_wide_and_the_narrow_layout_agree() {
    let (aux, points, scalars, expected) = inputs(3);
    let mut wide = sliding(3, &aux);
    let mut narrow = msm_circuit::msm_var::sliding::config::MSMGate::configure(
        advice(0),
        advice(1),
        advice(2),
        advice(3),
        advice(4),
        TableColumn { index: 0 },
        Fixed { index: 0 },
        3,
        point(&aux),
    );
    let mut a = RegionCtx::new();
    let mut b = RegionCtx::new();
    let points: Vec<_> = points.iter().map(|p| Some(point(&p.to_affine()))).collect();
    let scalars: Vec<_> = scalars.iter().map(|s| Some(scalar(s))).collect();
    let x = wide.msm_var(&mut a, &points, &scalars).unwrap();
    let y = narrow.msm_var(&mut b, &points, &scalars).unwrap();
    assert_eq!(x.value(), Some(expected));
    assert_eq!(y.value(), Some(expected));
    // the narrow layout takes a second row for every addition and doubling
    assert!(a.offset() < b.offset());
}
