//! Elements of the base field of the Vesta curve, held as four 64-bit limbs.
//!
//! The arithmetic is that of `pasta_curves::Fq`; each operation is stated as
//! integer arithmetic modulo the field's prime.

use ff::{Field, PrimeField, PrimeFieldBits};
use pasta_curves::Fq;
use vstd::arithmetic::div_mod::{
    lemma_div_denominator, lemma_fundamental_div_mod, lemma_fundamental_div_mod_converse,
    lemma_mul_mod_noop_general, lemma_small_mod,
};
use vstd::prelude::*;

verus! {

/// The prime `q` of the base field.
pub open spec fn modulus() -> nat {
    0x40000000000000000000000000000000224698fc0994a8dd8c46eb2100000001nat
}

/// The integer that four little-endian 64-bit limbs stand for.
pub open spec fn limbs_value(l0: u64, l1: u64, l2: u64, l3: u64) -> nat {
    (l0 as nat) + (l1 as nat) * 0x1_0000_0000_0000_0000nat + (l2 as nat)
        * 0x1_0000_0000_0000_0000_0000_0000_0000_0000nat + (l3 as nat)
        * 0x1_0000_0000_0000_0000_0000_0000_0000_0000_0000_0000_0000_0000nat
}

/// Sum in the field.
pub open spec fn fadd(a: nat, b: nat) -> nat {
    (a + b) % modulus()
}

/// Difference in the field.
pub open spec fn fsub(a: nat, b: nat) -> nat {
    ((a as int - b as int) % (modulus() as int)) as nat
}

/// Product in the field.
pub open spec fn fmul(a: nat, b: nat) -> nat {
    (a * b) % modulus()
}

/// The inverse in the field of a value that the prime does not divide.
pub uninterp spec fn finv(a: nat) -> nat;

/// A field element, as the little-endian limbs of a representative.
#[derive(Clone, Copy, Debug, PartialEq, Eq, Structural)]
pub struct Fe {
    pub l0: u64,
    pub l1: u64,
    pub l2: u64,
    pub l3: u64,
}

impl View for Fe {
    type V = nat;

    open spec fn view(&self) -> nat {
        limbs_value(self.l0, self.l1, self.l2, self.l3)
    }
}

/// The limbs of an integer below `2^256`.
#[verifier::opaque]
pub open spec fn fe(n: nat) -> Fe {
    Fe {
        l0: (n % 0x1_0000_0000_0000_0000nat) as u64,
        l1: ((n / 0x1_0000_0000_0000_0000nat) % 0x1_0000_0000_0000_0000nat) as u64,
        l2: ((n / 0x1_0000_0000_0000_0000_0000_0000_0000_0000nat) % 0x1_0000_0000_0000_0000nat) as u64,
        l3: ((n / 0x1_0000_0000_0000_0000_0000_0000_0000_0000_0000_0000_0000_0000nat)
            % 0x1_0000_0000_0000_0000nat) as u64,
    }
}

/// Limbs are determined by their value.
pub proof fn lemma_fe_of_view(a: Fe)
    ensures
        fe(a@) == a,
{
    reveal(fe);
    let b = 0x1_0000_0000_0000_0000int;
    let b2 = 0x1_0000_0000_0000_0000_0000_0000_0000_0000int;
    let b3 = 0x1_0000_0000_0000_0000_0000_0000_0000_0000_0000_0000_0000_0000int;
    let n = a@ as int;
    let (l0, l1, l2, l3) = (a.l0 as int, a.l1 as int, a.l2 as int, a.l3 as int);
    assert(n == l0 + l1 * b + l2 * b2 + l3 * b3);
    lemma_fundamental_div_mod_converse(n, b, l1 + l2 * b + l3 * b2, l0);
    lemma_fundamental_div_mod_converse(n, b2, l2 + l3 * b, l0 + l1 * b);
    lemma_fundamental_div_mod_converse(n, b3, l3, l0 + l1 * b + l2 * b2);
    lemma_fundamental_div_mod_converse(l1 + l2 * b + l3 * b2, b, l2 + l3 * b, l1);
    lemma_fundamental_div_mod_converse(l2 + l3 * b, b, l3, l2);
    lemma_small_mod(a.l3 as nat, b as nat);
}

/// An integer below `2^256` is the value of its limbs.
pub proof fn lemma_view_of_fe(n: nat)
    requires
        n < 0x1_0000_0000_0000_0000_0000_0000_0000_0000_0000_0000_0000_0000_0000_0000_0000_0000nat,
    ensures
        fe(n)@ == n,
{
    reveal(fe);
    let b = 0x1_0000_0000_0000_0000int;
    let b2 = 0x1_0000_0000_0000_0000_0000_0000_0000_0000int;
    let b3 = 0x1_0000_0000_0000_0000_0000_0000_0000_0000_0000_0000_0000_0000int;
    let n = n as int;
    let q1 = n / b;
    let q2 = q1 / b;
    let q3 = q2 / b;
    lemma_fundamental_div_mod(n, b);
    lemma_fundamental_div_mod(q1, b);
    lemma_fundamental_div_mod(q2, b);
    lemma_div_denominator(n, b, b);
    lemma_div_denominator(n, b2, b);
    assert(b * b == b2 && b2 * b == b3);
    assert(n / b2 == q2);
    assert(n / b3 == q3);
    assert(q3 < b);
    lemma_small_mod(q3 as nat, b as nat);
    let (a0, a1, a2) = (n % b, q1 % b, q2 % b);
    assert(n == a0 + a1 * b + a2 * b2 + q3 * b3) by (nonlinear_arith)
        requires
            n == b * q1 + a0,
            q1 == b * q2 + a1,
            q2 == b * q3 + a2,
            b2 == b * b,
            b3 == b2 * b,
    ;
}

impl Fe {
    /// The representative is the least one.
    pub open spec fn canonical(&self) -> bool {
        self@ < modulus()
    }

    pub fn zero() -> (r: Fe)
        ensures
            r@ == 0,
            r.canonical(),
    {
        Fe { l0: 0, l1: 0, l2: 0, l3: 0 }
    }

    pub fn one() -> (r: Fe)
        ensures
            r@ == 1,
            r.canonical(),
    {
        Fe { l0: 1, l1: 0, l2: 0, l3: 0 }
    }

    pub fn from_u64(v: u64) -> (r: Fe)
        ensures
            r@ == v,
            r.canonical(),
            r == (Fe { l0: v, l1: 0, l2: 0, l3: 0 }),
    {
        Fe { l0: v, l1: 0, l2: 0, l3: 0 }
    }

    /// The element with these limbs, if they are below the modulus.
    pub fn from_limbs(l0: u64, l1: u64, l2: u64, l3: u64) -> (r: Option<Fe>)
        ensures
            limbs_value(l0, l1, l2, l3) < modulus() ==> r == Some(Fe { l0, l1, l2, l3 }),
            limbs_value(l0, l1, l2, l3) >= modulus() ==> r.is_none(),
    {
        let e = Fe { l0, l1, l2, l3 };
        let q = Fe {
            l0: 0x8c46eb2100000001,
            l1: 0x224698fc0994a8dd,
            l2: 0,
            l3: 0x4000000000000000,
        };
        assert(q@ == modulus());
        if e.lt(&q) {
            Some(e)
        } else {
            None
        }
    }

    /// The value as a machine word, if it fits in one.
    pub fn to_u64(&self) -> (r: Option<u64>)
        ensures
            self@ <= u64::MAX ==> r == Some(self.l0) && self@ == self.l0,
            self@ > u64::MAX ==> r.is_none(),
    {
        if self.l1 == 0 && self.l2 == 0 && self.l3 == 0 {
            Some(self.l0)
        } else {
            None
        }
    }

    pub fn is_zero(&self) -> (r: bool)
        ensures
            r == (self@ == 0),
    {
        self.l0 == 0 && self.l1 == 0 && self.l2 == 0 && self.l3 == 0
    }

    /// Order by value.
    pub fn lt(&self, other: &Fe) -> (r: bool)
        ensures
            r == (self@ < other@),
    {
        if self.l3 != other.l3 {
            self.l3 < other.l3
        } else if self.l2 != other.l2 {
            self.l2 < other.l2
        } else if self.l1 != other.l1 {
            self.l1 < other.l1
        } else {
            self.l0 < other.l0
        }
    }

    pub fn add(&self, other: &Fe) -> (r: Fe)
        ensures
            r@ == fadd(self@, other@),
            r.canonical(),
    {
        fe_add(self, other)
    }

    pub fn sub(&self, other: &Fe) -> (r: Fe)
        ensures
            r@ == fsub(self@, other@),
            r.canonical(),
    {
        fe_sub(self, other)
    }

    pub fn mul(&self, other: &Fe) -> (r: Fe)
        ensures
            r@ == fmul(self@, other@),
            r.canonical(),
    {
        fe_mul(self, other)
    }

    pub fn square(&self) -> (r: Fe)
        ensures
            r@ == fmul(self@, self@),
            r.canonical(),
    {
        fe_mul(self, self)
    }

    pub fn neg(&self) -> (r: Fe)
        ensures
            r@ == fsub(0, self@),
            r.canonical(),
    {
        fe_sub(&Fe::zero(), self)
    }

    /// The inverse, which every element but zero has.
    pub fn invert(&self) -> (r: Option<Fe>)
        ensures
            self@ % modulus() == 0 <==> r.is_none(),
            r matches Some(v) ==> v@ == finv(self@) && v.canonical() && fmul(self@, v@) == 1,
    {
        fe_invert(self)
    }
}

/// `Fq`'s `+`: the sum of the two values, reduced modulo the prime.
#[verifier::external_body]
pub(crate) fn fe_add(a: &Fe, b: &Fe) -> (r: Fe)
    ensures
        r@ == (a@ + b@) % modulus(),
{
    let fq = |e: &Fe| Fq::from_raw([e.l0, e.l1, e.l2, e.l3]);
    let [l0, l1, l2, l3] = (fq(a) + fq(b)).to_le_bits().into_inner();
    Fe { l0, l1, l2, l3 }
}

/// `Fq`'s `-`: the difference of the two values, reduced modulo the prime.
#[verifier::external_body]
pub(crate) fn fe_sub(a: &Fe, b: &Fe) -> (r: Fe)
    ensures
        r@ == (a@ - b@) % (modulus() as int),
{
    let fq = |e: &Fe| Fq::from_raw([e.l0, e.l1, e.l2, e.l3]);
    let [l0, l1, l2, l3] = (fq(a) - fq(b)).to_le_bits().into_inner();
    Fe { l0, l1, l2, l3 }
}

/// `Fq`'s `*`: the product of the two values, reduced modulo the prime.
#[verifier::external_body]
pub(crate) fn fe_mul(a: &Fe, b: &Fe) -> (r: Fe)
    ensures
        r@ == (a@ * b@) % modulus(),
{
    let fq = |e: &Fe| Fq::from_raw([e.l0, e.l1, e.l2, e.l3]);
    let [l0, l1, l2, l3] = (fq(a) * fq(b)).to_le_bits().into_inner();
    Fe { l0, l1, l2, l3 }
}

/// `Fq`'s `invert`: nothing for a multiple of the prime, else the reduced
/// value whose product with the argument is one modulo the prime.
#[verifier::external_body]
pub(crate) fn fe_invert(a: &Fe) -> (r: Option<Fe>)
    ensures
        a@ % modulus() == 0 <==> r.is_none(),
        r matches Some(v) ==> v@ == finv(a@) && v@ < modulus() && (a@ * v@) % modulus() == 1,
{
    let x: Option<Fq> = Fq::from_raw([a.l0, a.l1, a.l2, a.l3]).invert().into();
    x.map(|x| {
        let [l0, l1, l2, l3] = x.to_le_bits().into_inner();
        Fe { l0, l1, l2, l3 }
    })
}

/// Products of products regroup: `(a b)(c d) = (a c)(b d)` in the field.
pub proof fn lemma_fmul_regroup(a: nat, b: nat, c: nat, d: nat)
    ensures
        fmul(fmul(a, b), fmul(c, d)) == fmul(fmul(a, c), fmul(b, d)),
{
    let q = modulus() as int;
    lemma_mul_mod_noop_general((a * b) as int, (c * d) as int, q);
    lemma_mul_mod_noop_general((a * c) as int, (b * d) as int, q);
    assert((a * b) * (c * d) == (a * c) * (b * d)) by (nonlinear_arith);
}

} // verus!
