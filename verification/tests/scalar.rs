use ff::{Field, PrimeField};
use msm_circuit::scalar::Scalar;
use num_bigint::BigUint;
use num_traits::{One, Zero};
use pasta_curves::Fp;
use rand_core::SeedableRng;
use rand_xorshift::XorShiftRng;

fn limbs(bytes: [u8; 32]) -> [u64; 4] {
    let mut out = [0u64; 4];
    for i in 0..4 {
        let mut word = [0u8; 8];
        word.copy_from_slice(&bytes[8 * i..8 * i + 8]);
        out[i] = u64::from_le_bytes(word);
    }
    out
}

fn scalar(s: &Fp) -> Scalar {
    let l = limbs(s.to_repr());
    Scalar { l0: l[0], l1: l[1], l2: l[2], l3: l[3] }
}

fn big(s: &Scalar) -> BigUint {
    let mut bytes = Vec::new();
    for l in [s.l0, s.l1, s.l2, s.l3] {
        bytes.extend_from_slice(&l.to_le_bytes());
    }
    BigUint::from_bytes_le(&bytes)
}

fn rng() -> XorShiftRng {
    XorShiftRng::from_seed([
        0x59, 0x62, 0xbe, 0x5d, 0x76, 0x3d, 0x31, 0x8d, 0x17, 0xdb, 0x37, 0x32, 0x54, 0x06, 0xbc,
        0xe5,
    ])
}

/// Windows by shifting and masking a big integer.
fn decompose_big(e: BigUint, number_of_limbs: usize, bit_len: usize) -> Vec<BigUint> {
    let mut e = e;
    let mask = (BigUint::one() << bit_len) - 1usize;
    (0..number_of_limbs)
        .map(|_| {
            let limb = mask.clone() & e.clone();
            e = e.clone() >> bit_len;
            limb
        })
        .collect()
}

#[test]
fn windows_of_a_small_value() {
    // 0x1b7 = 1 1011 0111
    let s = Scalar::from_u64(0x1b7);
    assert_eq!(s.decompose(4, 4), vec![0x7, 0xb, 0x1, 0x0]);
    assert_eq!(s.decompose(3, 3), vec![0b111, 0b110, 0b110]);
    assert_eq!(s.decompose(2, 64), vec![0x1b7, 0]);
    assert_eq!(s.decompose(0, 8), Vec::<u64>::new());
}

#[test]
fn windows_across_limbs() {
    let s = Scalar { l0: 0x8000_0000_0000_0000, l1: 0x1, l2: 0, l3: 0xf000_0000_0000_0000 };
    // bits 63 and 64 are set: the window of 4 bits at 60 is 0b1000, at 64 is 0b0001
    assert_eq!(s.bits_at(60, 4), 0b1000);
    assert_eq!(s.bits_at(64, 4), 0b0001);
    assert_eq!(s.bits_at(63, 2), 0b11);
    assert_eq!(s.bits_at(252, 4), 0xf);
    assert_eq!(s.bits_at(254, 8), 0b11);
    assert_eq!(s.bits_at(256, 8), 0);
    assert_eq!(s.bits_at(1000, 8), 0);
    assert_eq!(s.bits_at(0, 64), 0x8000_0000_0000_0000);
    assert_eq!(s.bits_at(1, 64), 0xc000_0000_0000_0000);
}

#[test]
fn windows_agree_with_shift_and_mask() {
    let mut rng = rng();
    for window in 1..=12usize {
        let rounds = 254 / window + 1;
        let s = scalar(&Fp::random(&mut rng));
        let expected = decompose_big(big(&s), rounds, window);
        let limbs = s.decompose(rounds, window);
        assert_eq!(limbs.len(), rounds);
        for (limb, expected) in limbs.iter().zip(expected.iter()) {
            assert_eq!(BigUint::from(*limb), *expected);
        }
    }
}

#[test]
fn windows_recompose_to_the_scalar() {
    let mut rng = rng();
    for window in [1usize, 2, 3, 4, 5, 6, 7, 8, 9, 10, 17, 63, 64] {
        let rounds = 254 / window + 1;
        let s = scalar(&Fp::random(&mut rng));
        let mut limbs = s.decompose(rounds, window);
        limbs.reverse();
        let mut sum = BigUint::zero();
        for (i, limb) in limbs.iter().enumerate() {
            assert!(window == 64 || *limb < (1u64 << window));
            sum += BigUint::from(*limb) << (window * (rounds - 1 - i));
        }
        assert_eq!(sum, big(&s));
    }
}

#[test]
fn scalar_arithmetic_agrees_with_the_field() {
    let mut rng = rng();
    for _ in 0..20 {
        let a = Fp::random(&mut rng);
        let b = Fp::random(&mut rng);
        assert_eq!(scalar(&a).add(&scalar(&b)), scalar(&(a + b)));
        assert_eq!(scalar(&a).sub(&scalar(&b)), scalar(&(a - b)));
        assert_eq!(scalar(&a).mul(&scalar(&b)), scalar(&(a * b)));
    }
    assert_eq!(Scalar::from_u64(5).add(&Scalar::from_u64(7)), Scalar::from_u64(12));
    assert_eq!(Scalar::from_u64(6).mul(&Scalar::from_u64(7)), Scalar::from_u64(42));
    assert_eq!(Scalar::from_u64(7).sub(&Scalar::from_u64(5)), Scalar::from_u64(2));
}
