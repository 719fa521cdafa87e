//! Scalars as 256-bit integers, and their decomposition into windows.

use crate::field::limbs_value;
use ff::{Field, PrimeField, PrimeFieldBits};
use pasta_curves::Fp;
use vstd::arithmetic::div_mod::{
    lemma_basic_div, lemma_div_denominator, lemma_fundamental_div_mod,
    lemma_fundamental_div_mod_converse, lemma_mod_breakdown, lemma_mod_multiples_vanish,
    lemma_small_mod,
};
use vstd::arithmetic::mul::lemma_mul_is_commutative;
use vstd::arithmetic::power2::{
    lemma2_to64, lemma2_to64_rest, lemma_pow2_adds, lemma_pow2_pos, lemma_pow2_strictly_increases,
    lemma_pow2_unfold, pow2,
};
use vstd::prelude::*;

verus! {

/// A scalar, as the little-endian limbs of an integer below `2^256`.
#[derive(Clone, Copy, Debug, PartialEq, Eq, Structural)]
pub struct Scalar {
    pub l0: u64,
    pub l1: u64,
    pub l2: u64,
    pub l3: u64,
}

impl View for Scalar {
    type V = nat;

    open spec fn view(&self) -> nat {
        limbs_value(self.l0, self.l1, self.l2, self.l3)
    }
}

/// The prime order of the group of the curve, which is the modulus of the
/// field of scalars.
pub open spec fn order() -> nat {
    0x40000000000000000000000000000000224698fc094cf91b992d30ed00000001nat
}

/// The `i`-th window of `w` bits of `x`, counted from the least significant.
pub open spec fn window(x: nat, w: nat, i: nat) -> nat {
    (x / pow2(w * i)) % pow2(w)
}

/// The first `n` windows of `x`, the most significant first.
pub open spec fn windows(x: nat, n: nat, w: nat) -> Seq<nat> {
    Seq::new(n, |i: int| window(x, w, (n - 1 - i) as nat))
}

/// The integer that windows of `w` bits stand for, the most significant
/// first: the sum of `limbs[i] * 2^(w * (len - 1 - i))`.
pub open spec fn recompose(limbs: Seq<nat>, w: nat) -> nat
    decreases limbs.len(),
{
    if limbs.len() == 0 {
        0
    } else {
        limbs[0] * pow2(w * ((limbs.len() - 1) as nat)) + recompose(limbs.subrange(1, limbs.len() as int), w)
    }
}

/// The number of windows of `w` bits that cover `bits` bits.
pub open spec fn rounds(bits: nat, w: nat) -> nat {
    if bits == 0 || w == 0 {
        0
    } else {
        ((bits - 1) / (w as int) + 1) as nat
    }
}

/// The values of the powers of two at the limb boundaries.
pub proof fn lemma_pow2_limbs()
    ensures
        pow2(64) == 0x1_0000_0000_0000_0000nat,
        pow2(128) == 0x1_0000_0000_0000_0000_0000_0000_0000_0000nat,
        pow2(192) == 0x1_0000_0000_0000_0000_0000_0000_0000_0000_0000_0000_0000_0000nat,
        pow2(256)
            == 0x1_0000_0000_0000_0000_0000_0000_0000_0000_0000_0000_0000_0000_0000_0000_0000_0000nat,
{
    lemma2_to64();
    lemma2_to64_rest();
    lemma_pow2_adds(64, 64);
    lemma_pow2_adds(128, 64);
    lemma_pow2_adds(192, 64);
}

/// Windows are below `2^w`.
pub proof fn lemma_window_bound(x: nat, w: nat, i: nat)
    ensures
        window(x, w, i) < pow2(w),
{
    lemma_pow2_pos(w);
}

/// Dropping whole multiples of `2^128` does not change the bits below them.
proof fn lemma_shifted_window(a: nat, s: nat, w: nat)
    requires
        s + w <= 128,
    ensures
        (a / pow2(s)) % pow2(w) == ((a % pow2(128)) / pow2(s)) % pow2(w),
{
    let ps = pow2(s) as int;
    let pw = pow2(w) as int;
    let pr = pow2((128 - s - w) as nat) as int;
    let p128 = pow2(128) as int;
    lemma_pow2_pos(s);
    lemma_pow2_pos(w);
    lemma_pow2_pos(128);
    lemma_pow2_pos((128 - s - w) as nat);
    lemma_pow2_adds(s, w);
    lemma_pow2_adds(s + w, (128 - s - w) as nat);
    assert(p128 == ps * pw * pr);
    let a = a as int;
    let q = a / p128;
    let v = a % p128;
    lemma_fundamental_div_mod(a, p128);
    lemma_fundamental_div_mod(v, ps);
    let vq = v / ps;
    let vr = v % ps;
    let hi = pw * (pr * q);
    assert(a == (hi + vq) * ps + vr) by (nonlinear_arith)
        requires
            a == p128 * q + v,
            v == ps * vq + vr,
            p128 == ps * pw * pr,
            hi == pw * (pr * q),
    ;
    lemma_fundamental_div_mod_converse(a, ps, hi + vq, vr);
    lemma_mod_multiples_vanish(pr * q, vq, pw);
    assert(pw * (pr * q) + vq == hi + vq);
}

/// `2^e` as a machine integer.
fn pow2_u128(e: usize) -> (r: u128)
    requires
        e < 128,
    ensures
        r == pow2(e as nat),
{
    let mut r: u128 = 1;
    let mut i: usize = 0;
    proof {
        lemma2_to64();
    }
    while i < e
        invariant
            i <= e < 128,
            r == pow2(i as nat),
        decreases e - i,
    {
        proof {
            lemma_pow2_unfold((i + 1) as nat);
            lemma_pow2_strictly_increases((i + 1) as nat, 128);
            lemma_pow2_limbs();
        }
        r = r * 2;
        i = i + 1;
    }
    r
}

impl Scalar {
    pub fn from_u64(v: u64) -> (r: Scalar)
        ensures
            r@ == v,
    {
        Scalar { l0: v, l1: 0, l2: 0, l3: 0 }
    }

    /// The sum in the field of scalars.
    pub fn add(&self, other: &Scalar) -> (r: Scalar)
        ensures
            r@ == (self@ + other@) % order(),
    {
        scalar_add(self, other)
    }

    /// The difference in the field of scalars.
    pub fn sub(&self, other: &Scalar) -> (r: Scalar)
        ensures
            r@ == (self@ - other@) % (order() as int),
    {
        scalar_sub(self, other)
    }

    /// The product in the field of scalars.
    pub fn mul(&self, other: &Scalar) -> (r: Scalar)
        ensures
            r@ == (self@ * other@) % order(),
    {
        scalar_mul(self, other)
    }

    /// The 128 bits of the scalar that start at limb `k`, as two limbs.
    fn limb_pair(&self, k: usize) -> (r: (u64, u64))
        requires
            k < 4,
        ensures
            (self@ / pow2(64 * (k as nat))) % pow2(128) == r.0 + r.1 * pow2(64),
    {
        let b = Ghost(0x1_0000_0000_0000_0000int);
        let b2 = Ghost(0x1_0000_0000_0000_0000_0000_0000_0000_0000int);
        let b3 = Ghost(
            0x1_0000_0000_0000_0000_0000_0000_0000_0000_0000_0000_0000_0000int,
        );
        let n = Ghost(self@ as int);
        let l = Ghost((self.l0 as int, self.l1 as int, self.l2 as int, self.l3 as int));
        proof {
            lemma_pow2_limbs();
            lemma2_to64();
            assert(n@ == l@.0 + l@.1 * b@ + l@.2 * b2@ + l@.3 * b3@);
        }
        if k == 0 {
            proof {
                lemma_fundamental_div_mod_converse(n@, b2@, l@.2 + l@.3 * b@, l@.0 + l@.1 * b@);
                assert(pow2(64 * (k as nat)) == 1);
                assert(n@ / 1 == n@);
            }
            (self.l0, self.l1)
        } else if k == 1 {
            proof {
                let y = l@.1 + l@.2 * b@ + l@.3 * b2@;
                lemma_fundamental_div_mod_converse(n@, b@, y, l@.0);
                lemma_fundamental_div_mod_converse(y, b2@, l@.3, l@.1 + l@.2 * b@);
                assert(pow2(64 * (k as nat)) == b@);
                assert(n@ / b@ == y);
            }
            (self.l1, self.l2)
        } else if k == 2 {
            proof {
                let y = l@.2 + l@.3 * b@;
                lemma_fundamental_div_mod_converse(n@, b2@, y, l@.0 + l@.1 * b@);
                lemma_small_mod(y as nat, b2@ as nat);
                assert(pow2(64 * (k as nat)) == b2@);
                assert(n@ / b2@ == y);
            }
            (self.l2, self.l3)
        } else {
            proof {
                lemma_fundamental_div_mod_converse(
                    n@,
                    b3@,
                    l@.3,
                    l@.0 + l@.1 * b@ + l@.2 * b2@,
                );
                lemma_small_mod(l@.3 as nat, b2@ as nat);
                assert(pow2(64 * (k as nat)) == b3@);
                assert(n@ / b3@ == l@.3);
            }
            (self.l3, 0)
        }
    }

    /// The `w` bits of the scalar that start at bit `offset`.
    pub fn bits_at(&self, offset: usize, w: usize) -> (r: u64)
        requires
            1 <= w <= 64,
        ensures
            r == (self@ / pow2(offset as nat)) % pow2(w as nat),
    {
        proof {
            lemma_pow2_limbs();
            lemma_pow2_pos(offset as nat);
            lemma_pow2_pos(w as nat);
        }
        if offset >= 256 {
            proof {
                if offset > 256 {
                    lemma_pow2_strictly_increases(256, offset as nat);
                }
                lemma_basic_div(self@ as int, pow2(offset as nat) as int);
                lemma_small_mod(0, pow2(w as nat));
            }
            return 0;
        }
        let k = offset / 64;
        let s = offset % 64;
        let (lo, hi) = self.limb_pair(k);
        let v: u128 = (hi as u128) * 0x1_0000_0000_0000_0000u128 + (lo as u128);
        let ps = pow2_u128(s);
        let pw = pow2_u128(w);
        proof {
            lemma_pow2_pos(s as nat);
        }
        let r = (v / ps) % pw;
        proof {
            let x = self@;
            let y = x / pow2(64 * (k as nat));
            lemma_pow2_adds(64 * (k as nat), s as nat);
            lemma_pow2_pos(64 * (k as nat));
            lemma_pow2_pos(s as nat);
            lemma_div_denominator(x as int, pow2(64 * (k as nat)) as int, pow2(s as nat) as int);
            assert(x / pow2(offset as nat) == y / pow2(s as nat));
            lemma_shifted_window(y, s as nat, w as nat);
            assert(v == y % pow2(128));
            if w < 64 {
                lemma_pow2_strictly_increases(w as nat, 64);
            }
            assert(r < pow2(w as nat));
        }
        r as u64
    }

    /// The first `number_of_limbs` windows of `bit_len` bits, the least
    /// significant first.
    pub fn decompose(&self, number_of_limbs: usize, bit_len: usize) -> (r: Vec<u64>)
        requires
            1 <= bit_len <= 64,
        ensures
            r@.len() == number_of_limbs,
            forall|i: int|
                0 <= i < number_of_limbs ==> r@[i] == window(self@, bit_len as nat, i as nat),
    {
        let mut limbs: Vec<u64> = Vec::new();
        let mut i: usize = 0;
        while i < number_of_limbs
            invariant
                1 <= bit_len <= 64,
                i <= number_of_limbs,
                limbs@.len() == i,
                forall|j: int| 0 <= j < i ==> limbs@[j] == window(self@, bit_len as nat, j as nat),
            decreases number_of_limbs - i,
        {
            let limb = match bit_len.checked_mul(i) {
                Some(offset) => self.bits_at(offset, bit_len),
                None => {
                    proof {
                        let o = (bit_len as nat) * (i as nat);
                        lemma_pow2_limbs();
                        lemma_pow2_strictly_increases(256, o);
                        lemma_pow2_pos(bit_len as nat);
                        lemma_basic_div(self@ as int, pow2(o) as int);
                        lemma_small_mod(0, pow2(bit_len as nat));
                    }
                    0
                },
            };
            limbs.push(limb);
            i = i + 1;
        }
        limbs
    }
}

/// `Fp`'s `+`: the sum of the two values, reduced modulo the order.
#[verifier::external_body]
pub(crate) fn scalar_add(a: &Scalar, b: &Scalar) -> (r: Scalar)
    ensures
        r@ == (a@ + b@) % order(),
{
    let fp = |e: &Scalar| Fp::from_raw([e.l0, e.l1, e.l2, e.l3]);
    let [l0, l1, l2, l3] = (fp(a) + fp(b)).to_le_bits().into_inner();
    Scalar { l0, l1, l2, l3 }
}

/// `Fp`'s `-`: the difference of the two values, reduced modulo the order.
#[verifier::external_body]
pub(crate) fn scalar_sub(a: &Scalar, b: &Scalar) -> (r: Scalar)
    ensures
        r@ == (a@ - b@) % (order() as int),
{
    let fp = |e: &Scalar| Fp::from_raw([e.l0, e.l1, e.l2, e.l3]);
    let [l0, l1, l2, l3] = (fp(a) - fp(b)).to_le_bits().into_inner();
    Scalar { l0, l1, l2, l3 }
}

/// `Fp`'s `*`: the product of the two values, reduced modulo the order.
#[verifier::external_body]
pub(crate) fn scalar_mul(a: &Scalar, b: &Scalar) -> (r: Scalar)
    ensures
        r@ == (a@ * b@) % order(),
{
    let fp = |e: &Scalar| Fp::from_raw([e.l0, e.l1, e.l2, e.l3]);
    let [l0, l1, l2, l3] = (fp(a) * fp(b)).to_le_bits().into_inner();
    Scalar { l0, l1, l2, l3 }
}

/// Windows that cover an integer recompose to it: for `x < 2^(n * w)`, the
/// sum of `window_i * 2^(w * (n - 1 - i))` over the `n` windows, the most
/// significant first, is `x`, and each window is below `2^w`.
pub proof fn lemma_decompose_roundtrip(x: nat, n: nat, w: nat)
    requires
        x < pow2(n * w),
    ensures
        recompose(windows(x, n, w), w) == x,
        forall|i: int| 0 <= i < n ==> #[trigger] windows(x, n, w)[i] < pow2(w),
{
    lemma_recompose_windows(x, n, w);
    lemma_small_mod(x, pow2(n * w));
    assert forall|i: int| 0 <= i < n implies #[trigger] windows(x, n, w)[i] < pow2(w) by {
        lemma_window_bound(x, w, (n - 1 - i) as nat);
    }
}

/// The first `n` windows recompose to the low `n * w` bits.
pub proof fn lemma_recompose_windows(x: nat, n: nat, w: nat)
    ensures
        recompose(windows(x, n, w), w) == x % pow2(n * w),
    decreases n,
{
    let m = windows(x, n, w);
    if n == 0 {
        assert(pow2(0) == 1) by {
            lemma2_to64();
        }
        assert(n * w == 0) by (nonlinear_arith)
            requires
                n == 0,
        ;
    } else {
        let k = (n - 1) as nat;
        assert(m.subrange(1, n as int) =~= windows(x, k, w));
        lemma_recompose_windows(x, k, w);
        lemma_pow2_pos(w * k);
        lemma_pow2_pos(w);
        lemma_pow2_adds(w * k, w);
        assert(w * k + w == n * w) by (nonlinear_arith)
            requires
                k == n - 1,
        ;
        assert(k * w == w * k) by (nonlinear_arith);
        lemma_mod_breakdown(x as int, pow2(w * k) as int, pow2(w) as int);
        assert(m[0] == window(x, w, k));
        lemma_mul_is_commutative(m[0] as int, pow2(w * k) as int);
    }
}

} // verus!
