use ff::{Field, PrimeField};
use group::{Curve, Group};
use msm_circuit::curve::Point;
use msm_circuit::field::Fe;
use msm_circuit::msm_var::bucket::rw::{check_sorted_trace, Memory, Query, SortedQuery};
use pasta_curves::arithmetic::CurveAffine;
use pasta_curves::vesta;
use pasta_curves::{EqAffine, Fq};
use rand_core::SeedableRng;
use rand_xorshift::XorShiftRng;

fn limbs(bytes: [u8; 32]) -> [u64; 4] {
    let mut out = [0u64; 4];
    for i in 0..4 {
        let mut word = [0u8; 8];
        word.copy_from_slice(&bytes[8 * i..8 * i + 8]);
        out[i] = u64::from_le_bytes(word);
    }
    out
}

fn fe(x: &Fq) -> Fe {
    let l = limbs(x.to_repr());
    Fe { l0: l[0], l1: l[1], l2: l[2], l3: l[3] }
}

fn rng() -> XorShiftRng {
    XorShiftRng::from_seed([
        0x59, 0x62, 0xbe, 0x5d, 0x76, 0x3d, 0x31, 0x8d, 0x17, 0xdb, 0x37, 0x32, 0x54, 0x06, 0xbc,
        0xe5,
    ])
}

fn point(p: &EqAffine) -> Point {
    let c = p.coordinates().unwrap();
    Point { x: fe(c.x()), y: fe(c.y()) }
}

fn points(n: usize) -> Vec<Point> {
    let mut rng = rng();
    (0..n).map(|_| point(&vesta::Point::random(&mut rng).to_affine())).collect()
}

fn address(a: u64) -> Option<Fe> {
    Some(Fe::from_u64(a))
}

/// Writes to the addresses 0, 1, 2 and reads between the writes.
fn memory() -> (Memory, Vec<Point>) {
    let p = points(5);
    let mut memory = Memory::new();
    memory.write(&address(1), &Some(p[0])); // 0
    memory.write(&address(0), &Some(p[1])); // 1
    assert_eq!(memory.read(&address(1)), Some(p[0])); // 2
    memory.write(&address(1), &Some(p[2])); // 3
    memory.write(&address(2), &Some(p[3])); // 4
    assert_eq!(memory.read(&address(1)), Some(p[2])); // 5
    assert_eq!(memory.read(&address(0)), Some(p[1])); // 6
    assert_eq!(memory.read(&address(2)), Some(p[3])); // 7
    (memory, p)
}

fn entry(is_read: bool, timestamp: usize, a: u64, p: &Point) -> SortedQuery {
    SortedQuery { is_read, timestamp, address: Fe::from_u64(a), x: p.x, y: p.y }
}

#[test]
fn a_read_returns_the_last_write() {
    let (mut memory, p) = memory();
    assert_eq!(memory.timestamp(), 8);
    memory.write(&address(2), &Some(p[4]));
    assert_eq!(memory.read(&address(2)), Some(p[4]));
    assert_eq!(memory.read(&address(1)), Some(p[2]));
    assert_eq!(memory.timestamp(), 11);
    assert!(memory.contains(&Fe::from_u64(0)));
    assert!(!memory.contains(&Fe::from_u64(3)));
}

#[test]
fn an_unknown_address_reads_nothing_and_writes_nowhere() {
    let (mut memory, p) = memory();
    assert_eq!(memory.read(&None), None);
    memory.write(&None, &Some(p[4]));
    assert_eq!(memory.read(&address(0)), Some(p[1]));
    assert_eq!(memory.read(&address(1)), Some(p[2]));
    assert_eq!(memory.read(&address(2)), Some(p[3]));
    // a trace with an unknown query has no sorted trace
    assert_eq!(memory.sort(), None);
}

#[test]
fn an_unknown_point_is_read_back_as_unknown() {
    let (mut memory, _) = memory();
    memory.write(&address(1), &None);
    assert_eq!(memory.read(&address(1)), None);
    assert!(memory.contains(&Fe::from_u64(1)));
}

#[test]
fn the_sorted_trace_is_the_trace_in_order() {
    let (memory, p) = memory();
    let sorted = memory.sort().unwrap();
    let expected = vec![
        entry(false, 1, 0, &p[1]),
        entry(true, 6, 0, &p[1]),
        entry(false, 0, 1, &p[0]),
        entry(true, 2, 1, &p[0]),
        entry(false, 3, 1, &p[2]),
        entry(true, 5, 1, &p[2]),
        entry(false, 4, 2, &p[3]),
        entry(true, 7, 2, &p[3]),
    ];
    assert_eq!(sorted, expected);
    assert!(check_sorted_trace(&sorted));
}

#[test]
fn the_sorted_trace_orders_addresses_by_value() {
    let p = points(2);
    let mut memory = Memory::new();
    let large = Fe { l0: 0, l1: 1, l2: 0, l3: 0 };
    let small = Fe { l0: u64::MAX, l1: 0, l2: 0, l3: 0 };
    memory.write(&Some(large), &Some(p[0]));
    memory.write(&Some(small), &Some(p[1]));
    let sorted = memory.sort().unwrap();
    assert_eq!(sorted[0].address, small);
    assert_eq!(sorted[1].address, large);
    assert_eq!(sorted[0].timestamp, 1);
    assert_eq!(sorted[1].timestamp, 0);
}

#[test]
fn a_wrong_value_in_the_sorted_trace_is_rejected() {
    let (memory, p) = memory();
    let mut sorted = memory.sort().unwrap();
    // the read at address 1, timestamp 5, with another point
    sorted[5].x = p[4].x;
    sorted[5].y = p[4].y;
    assert!(!check_sorted_trace(&sorted));
}

#[test]
fn a_wrong_order_of_addresses_is_rejected() {
    let (memory, _) = memory();
    let mut sorted = memory.sort().unwrap();
    // address 2 before the last entries of address 1
    sorted.swap(4, 6);
    assert!(!check_sorted_trace(&sorted));
    // an address that skips one
    let mut sorted = memory.sort().unwrap();
    sorted[6].address = Fe::from_u64(3);
    sorted[7].address = Fe::from_u64(3);
    assert!(!check_sorted_trace(&sorted));
}

#[test]
fn a_timestamp_that_does_not_grow_is_rejected() {
    let (memory, _) = memory();
    let mut sorted = memory.sort().unwrap();
    // the two writes of address 1 have the timestamps 0 and 3
    sorted[4].timestamp = 0;
    assert!(!check_sorted_trace(&sorted));
    let mut sorted = memory.sort().unwrap();
    sorted.swap(2, 4);
    assert!(!check_sorted_trace(&sorted));
}

#[test]
fn clearing_the_queries_keeps_the_state() {
    let (mut memory, p) = memory();
    memory.clear_queries();
    assert_eq!(memory.timestamp(), 0);
    assert_eq!(memory.read(&address(1)), Some(p[2]));
    assert_eq!(memory.timestamp(), 1);
    memory.clear();
    assert_eq!(memory.timestamp(), 0);
    assert!(!memory.contains(&Fe::from_u64(1)));
}

#[test]
fn queries_carry_their_kind() {
    let a = address(3);
    let x = Some(Fe::from_u64(4));
    let y = Some(Fe::from_u64(5));
    assert_eq!(Query::read(&a, &x, &y), Query { is_read: true, address: a, x, y });
    assert_eq!(Query::write(&a, &x, &y), Query { is_read: false, address: a, x, y });
}

#[test]
fn the_memory_takes_pairs_that_are_not_on_the_curve() {
    let k = |n: u64| Some(Fe::from_u64(n));
    let mut m = Memory::new();
    m.write(&k(1), &Some(Point { x: Fe::from_u64(3), y: Fe::from_u64(4) }));
    m.write(&k(0), &Some(Point { x: Fe::from_u64(5), y: Fe::from_u64(6) }));
    m.add_query(&Query::read(&k(1), &k(3), &k(4)));
    m.add_query(&Query::read(&k(0), &k(5), &k(6)));
    assert_eq!(m.timestamp(), 4);
    let sorted = m.sort().unwrap();
    let shown: Vec<_> =
        sorted.iter().map(|q| (q.is_read, q.timestamp, q.address, q.x, q.y)).collect();
    let f = Fe::from_u64;
    assert_eq!(
        shown,
        vec![
            (false, 1, f(0), f(5), f(6)),
            (true, 3, f(0), f(5), f(6)),
            (false, 0, f(1), f(3), f(4)),
            (true, 2, f(1), f(3), f(4)),
        ]
    );
    assert!(check_sorted_trace(&sorted));
}
