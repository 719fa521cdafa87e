use ff::{Field, PrimeField};
use msm_circuit::field::Fe;
use pasta_curves::Fq;
use rand_core::SeedableRng;
use rand_xorshift::XorShiftRng;

fn limbs(bytes: [u8; 32]) -> [u64; 4] {
    let mut out = [0u64; 4];
    for i in 0..4 {
        let mut word = [0u8; 8];
        word.copy_from_slice(&bytes[8 * i..8 * i + 8]);
        out[i] = u64::from_le_bytes(word);
    }
    out
}

fn fe(x: &Fq) -> Fe {
    let l = limbs(x.to_repr());
    Fe { l0: l[0], l1: l[1], l2: l[2], l3: l[3] }
}

fn rng() -> XorShiftRng {
    XorShiftRng::from_seed([
        0x59, 0x62, 0xbe, 0x5d, 0x76, 0x3d, 0x31, 0x8d, 0x17, 0xdb, 0x37, 0x32, 0x54, 0x06, 0xbc,
        0xe5,
    ])
}

#[test]
fn sum_of_small_values() {
    assert_eq!(Fe::from_u64(5).add(&Fe::from_u64(7)), Fe::from_u64(12));
}

#[test]
fn difference_below_zero_wraps_to_the_modulus() {
    // 0 - 1 = q - 1
    let expected = Fe {
        l0: 0x8c46eb2100000000,
        l1: 0x224698fc0994a8dd,
        l2: 0,
        l3: 0x4000000000000000,
    };
    assert_eq!(Fe::zero().sub(&Fe::one()), expected);
    assert_eq!(Fe::one().neg(), expected);
}

#[test]
fn product_of_small_values() {
    assert_eq!(Fe::from_u64(6).mul(&Fe::from_u64(7)), Fe::from_u64(42));
    assert_eq!(Fe::from_u64(9).square(), Fe::from_u64(81));
}

#[test]
fn arithmetic_agrees_with_the_field() {
    let mut rng = rng();
    for _ in 0..20 {
        let a = Fq::random(&mut rng);
        let b = Fq::random(&mut rng);
        assert_eq!(fe(&a).add(&fe(&b)), fe(&(a + b)));
        assert_eq!(fe(&a).sub(&fe(&b)), fe(&(a - b)));
        assert_eq!(fe(&a).mul(&fe(&b)), fe(&(a * b)));
        assert_eq!(fe(&a).invert(), Some(fe(&a.invert().unwrap())));
        assert_eq!(fe(&a).invert().unwrap().mul(&fe(&a)), Fe::one());
    }
}

#[test]
fn zero_has_no_inverse() {
    assert_eq!(Fe::zero().invert(), None);
    assert_eq!(Fe::from_u64(2).invert().unwrap().mul(&Fe::from_u64(2)), Fe::one());
}

#[test]
fn limbs_at_and_above_the_modulus_are_refused() {
    let q = (0x8c46eb2100000001u64, 0x224698fc0994a8ddu64, 0u64, 0x4000000000000000u64);
    assert_eq!(Fe::from_limbs(q.0, q.1, q.2, q.3), None);
    assert_eq!(
        Fe::from_limbs(q.0 - 1, q.1, q.2, q.3),
        Some(Fe { l0: q.0 - 1, l1: q.1, l2: q.2, l3: q.3 })
    );
    assert_eq!(Fe::from_limbs(0, 0, 0, q.3 + 1), None);
    assert_eq!(Fe::from_limbs(7, 0, 0, 0), Some(Fe::from_u64(7)));
}

#[test]
fn order_is_by_value() {
    let small = Fe { l0: u64::MAX, l1: 0, l2: 0, l3: 0 };
    let large = Fe { l0: 0, l1: 1, l2: 0, l3: 0 };
    assert!(small.lt(&large));
    assert!(!large.lt(&small));
    assert!(!small.lt(&small));
    assert!(Fe::zero().is_zero());
    assert!(!Fe::one().is_zero());
}

#[test]
fn machine_words() {
    assert_eq!(Fe::from_u64(u64::MAX).to_u64(), Some(u64::MAX));
    assert_eq!(Fe { l0: 0, l1: 1, l2: 0, l3: 0 }.to_u64(), None);
}
