use ff::{Field, PrimeField};
use group::{Curve, Group};
use msm_circuit::constraints::check_region;
use msm_circuit::curve::Point;
use msm_circuit::field::Fe;
use msm_circuit::msm_var::bucket::config::MSMGate;
use msm_circuit::msm_var::bucket::instructions::MSMGate as Layout;
use msm_circuit::msm_var::bucket::rw::check_sorted_trace;
use msm_circuit::region::{Advice, Fixed, Op, RegionCtx, Selector, TableColumn};
use msm_circuit::scalar::Scalar;
use pasta_curves::arithmetic::CurveAffine;
use pasta_curves::vesta;
use pasta_curves::{EqAffine, Fp, Fq};
use rand_core::SeedableRng;
use rand_xorshift::XorShiftRng;

fn limbs(bytes: [u8; 32]) -> [u64; 4] {
    let mut out = [0u64; 4];
    for i in 0..4 {
        let mut word = [0u8; 8];
        word.copy_from_slice(&bytes[8 * i..8 * i + 8]);
        out[i] = u64::from_le_bytes(word);
    }
    out
}

fn fe(x: &Fq) -> Fe {
    let l = limbs(x.to_repr());
    Fe { l0: l[0], l1: l[1], l2: l[2], l3: l[3] }
}

fn rng() -> XorShiftRng {
    XorShiftRng::from_seed([
        0x59, 0x62, 0xbe, 0x5d, 0x76, 0x3d, 0x31, 0x8d, 0x17, 0xdb, 0x37, 0x32, 0x54, 0x06, 0xbc,
        0xe5,
    ])
}

fn point(p: &EqAffine) -> Point {
    let c = p.coordinates().unwrap();
    Point { x: fe(c.x()), y: fe(c.y()) }
}

fn scalar(s: &Fp) -> Scalar {
    let l = limbs(s.to_repr());
    Scalar { l0: l[0], l1: l[1], l2: l[2], l3: l[3] }
}

fn gate(window: usize, aux: &EqAffine) -> MSMGate {
    MSMGate::configure(
        Advice { index: 0 },
        Advice { index: 1 },
        Advice { index: 2 },
        Advice { index: 3 },
        Advice { index: 4 },
        TableColumn { index: 0 },
        Fixed { index: 0 },
        window,
        point(aux),
    )
}

#[test]
fn aggregation_weights_each_bucket_by_its_index() {
    let mut rng = rng();
    for window in 1..=8usize {
        let aux = vesta::Point::random(&mut rng).to_affine();
        let mut gate = gate(window, &aux);
        let mut ctx = RegionCtx::new();
        let buckets: Vec<vesta::Point> =
            (0..1usize << window).map(|_| vesta::Point::random(&mut rng)).collect();
        for (i, bucket) in buckets.iter().enumerate() {
            let address = gate.get_constant(&mut ctx, Fe::from_u64(i as u64));
            let bucket = gate.assign_point(&mut ctx, &Some(point(&bucket.to_affine())));
            gate.write_point(&mut ctx, &address, &bucket);
        }
        let sum = Layout::aggregate(&mut gate, &mut ctx);
        let expected = buckets
            .iter()
            .enumerate()
            .fold(vesta::Point::identity(), |acc, (i, b)| acc + *b * Fp::from(i as u64));
        assert_eq!(sum.value(), Some(point(&expected.to_affine())));
    }
}

#[test]
fn initial_buckets_are_the_doubled_generator() {
    let mut rng = rng();
    let aux = vesta::Point::random(&mut rng);
    let mut gate = gate(3, &aux.to_affine());
    let buckets = gate.gen_initial_buckets();
    assert_eq!(buckets.len(), 8);
    let mut expected = aux;
    for bucket in buckets.iter() {
        assert_eq!(*bucket, point(&expected.to_affine()));
        expected = expected.double();
    }
    assert_eq!(gate.gen_initial_buckets(), buckets);
}

#[test]
fn a_read_and_write_adds_into_the_bucket() {
    let mut rng = rng();
    let aux = vesta::Point::random(&mut rng);
    let p = vesta::Point::random(&mut rng);
    let mut gate = gate(2, &aux.to_affine());
    let mut ctx = RegionCtx::new();
    Layout::reset_buckets(&mut gate, &mut ctx);
    let rows = ctx.offset();
    let queries = gate.memory.timestamp();
    assert_eq!(queries, 4);
    let assigned = gate.assign_point(&mut ctx, &Some(point(&p.to_affine())));
    let address = Some(Fe::from_u64(2));
    let sum = gate.rw_add(&mut ctx, &address, &assigned);
    // the bucket of index 2 held 4 * aux
    let expected = point(&(aux.double().double() + p).to_affine());
    assert_eq!(sum.value(), Some(expected));
    assert_eq!(ctx.offset(), rows + 3);
    assert_eq!(gate.memory.timestamp(), queries + 2);
    assert_eq!(gate.memory.read(&address), Some(expected));
    // the two rows carry the timestamps of the two queries
    let ops = ctx.ops();
    let stamps: Vec<_> = ops[ops.len() - 18..]
        .iter()
        .filter_map(|op| match op {
            Op::Fixed(_, v) => Some(*v),
            _ => None,
        })
        .collect();
    assert_eq!(stamps, vec![Fe::from_u64(4), Fe::from_u64(5)]);
    assert_eq!(ops[ops.len() - 18], Op::Enable(Selector::Add));
    assert!(check_region(ctx.ops(), &gate.columns, 2));
}

#[test]
fn the_scalar_rows_hold_five_windows_each() {
    let mut rng = rng();
    let aux = vesta::Point::random(&mut rng).to_affine();
    let mut gate = gate(8, &aux);
    let mut ctx = RegionCtx::new();
    let s = scalar(&Fp::random(&mut rng));
    let cells = gate.assign_scalar(&mut ctx, &Some(s));
    // 32 windows of 8 bits in 7 rows, after the row of the constant zero
    assert_eq!(cells.len(), 32);
    assert_eq!(ctx.offset(), 8);
    let mut limbs = s.decompose(32, 8);
    limbs.reverse();
    for (cell, limb) in cells.iter().zip(limbs.iter()) {
        assert_eq!(cell.value, Some(Fe::from_u64(*limb)));
    }
    // the most significant window is the second cell of the last row
    assert_eq!(cells[0].cell.row, 7);
    assert_eq!(cells[31].cell.row, 1);
    assert!(check_region(ctx.ops(), &gate.columns, 8));
    let unknown = gate.assign_scalar(&mut ctx, &None);
    assert_eq!(unknown.len(), 32);
    assert!(unknown.iter().all(|c| c.value.is_none()));
    assert_eq!(ctx.offset(), 15);
}

#[test]
fn the_range_table_holds_every_window() {
    let aux = vesta::Point::generator().to_affine();
    let gate = gate(3, &aux);
    let table = gate.layout_range_table();
    assert_eq!(table, (0..8u64).map(Fe::from_u64).collect::<Vec<_>>());
}

#[test]
fn the_rows_of_a_multiplication_are_satisfied() {
    let mut rng = rng();
    let window = 3;
    let aux = vesta::Point::random(&mut rng).to_affine();
    let points: Vec<vesta::Point> = (0..4).map(|_| vesta::Point::random(&mut rng)).collect();
    let scalars: Vec<Fp> = (0..4).map(|_| Fp::random(&mut rng)).collect();
    let mut gate = gate(window, &aux);
    let mut ctx = RegionCtx::new();
    let assigned: Vec<_> =
        points.iter().map(|p| gate.assign_point(&mut ctx, &Some(point(&p.to_affine())))).collect();
    let scalars: Vec<_> = scalars.iter().map(|s| Some(scalar(s))).collect();
    let result = gate.msm_var(&mut ctx, &assigned, &scalars).unwrap();
    assert!(result.value().is_some());
    assert!(check_region(ctx.ops(), &gate.columns, window));
    let sorted = gate.memory.sort().unwrap();
    assert_eq!(sorted.len(), gate.memory.timestamp());
    assert!(check_sorted_trace(&sorted));
    // in the sorted trace writes and reads take turns
    assert!(sorted.iter().enumerate().all(|(i, q)| q.is_read == (i % 2 == 1)));
    let region = gate.layout_sorted_rw().expect("the trace alternates");
    assert_eq!(region.offset(), sorted.len() + 1);
    // a second multiplication takes no rows for the constants
    let rows = ctx.offset();
    gate.msm_var(&mut ctx, &assigned, &scalars).unwrap();
    assert!(ctx.offset() - rows < rows);
}

#[test]
fn a_multiplication_with_unknown_witnesses_lays_the_same_rows_out() {
    let mut rng = rng();
    let aux = vesta::Point::random(&mut rng).to_affine();
    let points: Vec<vesta::Point> = (0..3).map(|_| vesta::Point::random(&mut rng)).collect();
    let scalars: Vec<Fp> = (0..3).map(|_| Fp::random(&mut rng)).collect();
    let mut known = gate(2, &aux);
    let mut a = RegionCtx::new();
    let assigned: Vec<_> =
        points.iter().map(|p| known.assign_point(&mut a, &Some(point(&p.to_affine())))).collect();
    let scalars: Vec<_> = scalars.iter().map(|s| Some(scalar(s))).collect();
    let result = known.msm_var(&mut a, &assigned, &scalars).unwrap();
    assert!(result.value().is_some());

    let mut unknown = gate(2, &aux);
    let mut b = RegionCtx::new();
    let assigned: Vec<_> = points.iter().map(|_| unknown.assign_point(&mut b, &None)).collect();
    let result = unknown.msm_var(&mut b, &assigned, &[None, None, None]).unwrap();
    assert_eq!(result.value(), None);
    assert_eq!(a.offset(), b.offset());
    assert_eq!(a.ops().len(), b.ops().len());
    assert_eq!(known.memory.timestamp(), unknown.memory.timestamp());
    assert_eq!(unknown.memory.sort(), None);
    let region = unknown.layout_sorted_rw().expect("an unknown trace has rows");
    assert_eq!(region.offset(), unknown.memory.timestamp() + 1);
}

#[test]
fn the_rows_of_the_windows_turn_their_range_on() {
    let mut rng = rng();
    let aux = vesta::Point::random(&mut rng).to_affine();
    let mut gate = gate(8, &aux);
    let mut ctx = RegionCtx::new();
    let s = scalar(&Fp::random(&mut rng));
    gate.assign_scalar(&mut ctx, &Some(s));
    let ranged = ctx.ops().iter().filter(|op| **op == Op::Enable(Selector::Windows)).count();
    assert_eq!(ranged, 7);
    // the row of the constant ends with a step to the next row; the first
    // row of windows begins with its range
    let first = ctx.ops().iter().position(|op| *op == Op::Next).unwrap() + 1;
    assert_eq!(ctx.ops()[first], Op::Enable(Selector::Windows));
    assert!(check_region(ctx.ops(), &gate.columns, 8));
    // a window of nine bits is out of the range of eight
    let mut wrong = RegionCtx::new();
    wrong.enable(Selector::Windows);
    wrong.advice(gate.columns.a0, Some(Fe::from_u64(255)));
    wrong.advice(gate.columns.a1, Some(Fe::from_u64(256)));
    wrong.advice(gate.columns.a2, Some(Fe::zero()));
    wrong.advice(gate.columns.a3, Some(Fe::zero()));
    wrong.advice(gate.columns.a4, Some(Fe::zero()));
    wrong.next();
    assert!(!check_region(wrong.ops(), &gate.columns, 8));
}

#[test]
fn a_sorted_trace_that_does_not_alternate_has_no_region() {
    let mut rng = rng();
    let aux = vesta::Point::random(&mut rng).to_affine();
    let mut gate = gate(2, &aux);
    let p = point(&vesta::Point::random(&mut rng).to_affine());
    let zero = Some(Fe::zero());
    gate.memory.write(&zero, &Some(p));
    gate.memory.write(&zero, &Some(p));
    assert!(gate.layout_sorted_rw().is_none());
    // a write and a read take turns
    gate.clear_rw();
    gate.memory.write(&zero, &Some(p));
    assert_eq!(gate.memory.read(&zero), Some(p));
    let region = gate.layout_sorted_rw().expect("a write, then a read");
    assert_eq!(region.offset(), 3);
    assert!(region.ops().contains(&Op::Enable(Selector::SortedRead)));
}

#[test]
fn the_buckets_and_the_correction_are_kept() {
    let mut rng = rng();
    let aux = vesta::Point::random(&mut rng).to_affine();
    let mut gate = gate(3, &aux);
    assert!(gate.initial_buckets.is_none() && gate.correction_point.is_none());
    let buckets = gate.gen_initial_buckets();
    assert_eq!(buckets.len(), 8);
    assert_eq!(gate.initial_buckets, Some(buckets.clone()));
    assert_eq!(gate.gen_initial_buckets(), buckets);
    assert_eq!(gate.initial_buckets, Some(buckets));
    let mut ctx = RegionCtx::new();
    let correction = gate.correction_point(&mut ctx).unwrap();
    assert_eq!(gate.correction_point, correction.value());
    let again = gate.correction_point(&mut ctx).unwrap();
    assert_eq!(again.value(), correction.value());
    assert_eq!(gate.correction_point, correction.value());
}

#[test]
fn a_round_writes_the_buckets_adds_the_points_and_reads_the_buckets() {
    let mut rng = rng();
    let aux = vesta::Point::random(&mut rng).to_affine();
    let (window, n) = (3usize, 2usize);
    let points: Vec<vesta::Point> = (0..n).map(|_| vesta::Point::random(&mut rng)).collect();
    let scalars: Vec<Fp> = (0..n).map(|_| Fp::random(&mut rng)).collect();
    let mut gate = gate(window, &aux);
    let mut ctx = RegionCtx::new();
    let assigned: Vec<_> =
        points.iter().map(|p| gate.assign_point(&mut ctx, &Some(point(&p.to_affine())))).collect();
    let scalars: Vec<_> = scalars.iter().map(|s| Some(scalar(s))).collect();
    gate.msm_var(&mut ctx, &assigned, &scalars).unwrap();
    let m = 1usize << window;
    let rounds = 254 / window + 1;
    let per_round = 2 * m + 2 * n;
    assert_eq!(gate.memory.timestamp(), rounds * per_round);
    let mut by_time = gate.memory.sort().unwrap();
    by_time.sort_by_key(|q| q.timestamp);
    let buckets = gate.gen_initial_buckets();
    for round in 0..rounds {
        let start = round * per_round;
        // the initial buckets, in the order of the addresses
        for k in 0..m {
            let q = &by_time[start + k];
            assert!(!q.is_read);
            assert_eq!(q.address, Fe::from_u64(k as u64));
            assert_eq!((q.x, q.y), (buckets[k].x, buckets[k].y));
        }
        // for each point a read and a write of one bucket
        for i in 0..n {
            let read = &by_time[start + m + 2 * i];
            let write = &by_time[start + m + 2 * i + 1];
            assert!(read.is_read && !write.is_read);
            assert_eq!(read.address, write.address);
        }
        // every bucket is read, from the last one down
        for j in 0..m {
            let q = &by_time[start + m + 2 * n + j];
            assert!(q.is_read);
            assert_eq!(q.address, Fe::from_u64((m - 1 - j) as u64));
        }
    }
}
