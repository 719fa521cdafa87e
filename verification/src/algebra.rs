//! Sums in a commutative monoid, and the identities behind the methods: a
//! running sum, summed in turn, weights each term by its index; repeated
//! doubling multiplies; sums with coefficients combine.
//!
//! A monoid is a sum `op` with a neutral `zero` on the elements that
//! `carrier` holds of.

use vstd::arithmetic::power2::{lemma2_to64, lemma_pow2_unfold, pow2};
use vstd::prelude::*;

verus! {

/// On the carrier, `op` is closed, commutative and associative, and `zero`
/// is neutral for it.
#[verifier::opaque]
pub open spec fn commutative_monoid<G>(
    op: spec_fn(G, G) -> G,
    zero: G,
    carrier: spec_fn(G) -> bool,
) -> bool {
    &&& carrier(zero)
    &&& forall|a: G, b: G|
        carrier(a) && carrier(b) ==> carrier(#[trigger] op(a, b)) && op(a, b) == op(b, a)
    &&& forall|a: G, b: G, c: G|
        carrier(a) && carrier(b) && carrier(c) ==> #[trigger] op(op(a, b), c) == op(a, op(b, c))
    &&& forall|a: G| carrier(a) ==> #[trigger] op(zero, a) == a
}

/// `op` is the sum of an abelian group on the carrier, with `zero` and the
/// inverses `neg`.
#[verifier::opaque]
pub open spec fn abelian_group<G>(
    op: spec_fn(G, G) -> G,
    zero: G,
    neg: spec_fn(G) -> G,
    carrier: spec_fn(G) -> bool,
) -> bool {
    &&& commutative_monoid(op, zero, carrier)
    &&& forall|a: G| carrier(a) ==> carrier(#[trigger] neg(a)) && op(a, neg(a)) == zero
}

/// Every term is in the carrier.
pub open spec fn all_in<G>(terms: Seq<G>, carrier: spec_fn(G) -> bool) -> bool {
    forall|i: int| 0 <= i < terms.len() ==> carrier(#[trigger] terms[i])
}

/// The sum of `n` copies of `x`.
pub open spec fn times<G>(op: spec_fn(G, G) -> G, zero: G, n: nat, x: G) -> G
    decreases n,
{
    if n == 0 {
        zero
    } else {
        op(times(op, zero, (n - 1) as nat, x), x)
    }
}

/// The sum of the terms from the `i`-th on, each as often as its index says.
pub open spec fn weighted_sum<G>(op: spec_fn(G, G) -> G, zero: G, terms: Seq<G>, i: nat) -> G
    decreases terms.len() - i,
{
    if i >= terms.len() {
        zero
    } else {
        op(times(op, zero, i, terms[i as int]), weighted_sum(op, zero, terms, i + 1))
    }
}

/// The running sum of the terms from the last down to the `i`-th.
pub open spec fn running<G>(op: spec_fn(G, G) -> G, terms: Seq<G>, i: nat) -> G
    decreases terms.len() - i,
{
    if i + 1 >= terms.len() {
        terms[terms.len() - 1]
    } else {
        op(terms[i as int], running(op, terms, i + 1))
    }
}

/// The sum of the running sums from the last term down to the `i`-th.
pub open spec fn aggregate<G>(op: spec_fn(G, G) -> G, terms: Seq<G>, i: nat) -> G
    decreases terms.len() - i,
{
    if i + 1 >= terms.len() {
        terms[terms.len() - 1]
    } else {
        op(running(op, terms, i), aggregate(op, terms, i + 1))
    }
}

/// A term doubled `n` times.
pub open spec fn doubled_by<G>(op: spec_fn(G, G) -> G, x: G, n: nat) -> G
    decreases n,
{
    if n == 0 {
        x
    } else {
        let d = doubled_by(op, x, (n - 1) as nat);
        op(d, d)
    }
}

/// The sum of the first `n` terms, each as often as its coefficient says.
pub open spec fn dot<G>(
    op: spec_fn(G, G) -> G,
    zero: G,
    coefficients: Seq<nat>,
    terms: Seq<G>,
    n: nat,
) -> G
    decreases n,
{
    if n == 0 {
        zero
    } else {
        op(
            dot(op, zero, coefficients, terms, (n - 1) as nat),
            times(op, zero, coefficients[n - 1], terms[n - 1]),
        )
    }
}

/// Running sum and aggregate of the terms from the last down to the `k`-th,
/// both begun with zero.
pub open spec fn sums_from_zero<G>(op: spec_fn(G, G) -> G, zero: G, terms: Seq<G>, k: nat) -> (
    G,
    G,
)
    decreases terms.len() - k,
{
    if k >= terms.len() {
        (zero, zero)
    } else {
        let (sum, acc) = sums_from_zero(op, zero, terms, k + 1);
        let sum = op(sum, terms[k as int]);
        (sum, op(acc, sum))
    }
}

/// Zero is in the carrier.
pub proof fn lemma_zero_closed<G>(op: spec_fn(G, G) -> G, zero: G, s: spec_fn(G) -> bool)
    requires
        commutative_monoid(op, zero, s),
    ensures
        s(zero),
{
    reveal(commutative_monoid);
}

/// The sum of two elements of the carrier is in the carrier.
pub proof fn lemma_closed<G>(op: spec_fn(G, G) -> G, zero: G, s: spec_fn(G) -> bool, a: G, b: G)
    requires
        commutative_monoid(op, zero, s),
        s(a),
        s(b),
    ensures
        s(op(a, b)),
{
    reveal(commutative_monoid);
}

/// The sum does not depend on the order of its terms.
pub proof fn lemma_commute<G>(op: spec_fn(G, G) -> G, zero: G, s: spec_fn(G) -> bool, a: G, b: G)
    requires
        commutative_monoid(op, zero, s),
        s(a),
        s(b),
    ensures
        op(a, b) == op(b, a),
{
    reveal(commutative_monoid);
}

/// The sum does not depend on how its terms are grouped.
pub proof fn lemma_associate<G>(
    op: spec_fn(G, G) -> G,
    zero: G,
    s: spec_fn(G) -> bool,
    a: G,
    b: G,
    c: G,
)
    requires
        commutative_monoid(op, zero, s),
        s(a),
        s(b),
        s(c),
    ensures
        op(op(a, b), c) == op(a, op(b, c)),
{
    reveal(commutative_monoid);
}

/// Zero is neutral on the left.
pub proof fn lemma_zero_left<G>(op: spec_fn(G, G) -> G, zero: G, s: spec_fn(G) -> bool, a: G)
    requires
        commutative_monoid(op, zero, s),
        s(a),
    ensures
        op(zero, a) == a,
{
    reveal(commutative_monoid);
}

/// Zero is neutral on the right too.
pub proof fn lemma_zero_right<G>(op: spec_fn(G, G) -> G, zero: G, s: spec_fn(G) -> bool, a: G)
    requires
        commutative_monoid(op, zero, s),
        s(a),
    ensures
        op(a, zero) == a,
{
    reveal(commutative_monoid);
    assert(op(a, zero) == op(zero, a));
}

/// The sum of an abelian group is that of a commutative monoid.
pub proof fn lemma_group_is_monoid<G>(
    op: spec_fn(G, G) -> G,
    zero: G,
    neg: spec_fn(G) -> G,
    s: spec_fn(G) -> bool,
)
    requires
        abelian_group(op, zero, neg, s),
    ensures
        commutative_monoid(op, zero, s),
{
    reveal(abelian_group);
}

/// A term and its inverse sum to zero.
pub proof fn lemma_inverse<G>(
    op: spec_fn(G, G) -> G,
    zero: G,
    neg: spec_fn(G) -> G,
    s: spec_fn(G) -> bool,
    a: G,
)
    requires
        abelian_group(op, zero, neg, s),
        s(a),
    ensures
        s(neg(a)),
        op(a, neg(a)) == zero,
{
    reveal(abelian_group);
}

/// Two sums of two terms can trade their inner terms.
pub proof fn lemma_interchange<G>(
    op: spec_fn(G, G) -> G,
    zero: G,
    s: spec_fn(G) -> bool,
    a: G,
    b: G,
    c: G,
    d: G,
)
    requires
        commutative_monoid(op, zero, s),
        s(a),
        s(b),
        s(c),
        s(d),
    ensures
        op(op(a, b), op(c, d)) == op(op(a, c), op(b, d)),
{
    reveal(commutative_monoid);
    assert(s(op(c, d)) && s(op(b, c)) && s(op(c, b)) && s(op(b, d)));
    assert(op(op(a, b), op(c, d)) == op(a, op(b, op(c, d))));
    assert(op(b, op(c, d)) == op(op(b, c), d));
    assert(op(b, c) == op(c, b));
    assert(op(op(c, b), d) == op(c, op(b, d)));
    assert(op(a, op(c, op(b, d))) == op(op(a, c), op(b, d)));
}

/// What is added together with what cancels it is gone.
pub proof fn lemma_cancel_with<G>(
    op: spec_fn(G, G) -> G,
    zero: G,
    s: spec_fn(G) -> bool,
    b: G,
    m: G,
    c: G,
)
    requires
        commutative_monoid(op, zero, s),
        s(b),
        s(m),
        s(c),
        op(b, c) == zero,
    ensures
        op(op(b, m), c) == m,
{
    reveal(commutative_monoid);
    assert(op(b, m) == op(m, b));
    assert(op(op(m, b), c) == op(m, op(b, c)));
    lemma_zero_right(op, zero, s, m);
}

/// What is added and taken away again is gone.
pub proof fn lemma_cancel<G>(
    op: spec_fn(G, G) -> G,
    zero: G,
    neg: spec_fn(G) -> G,
    s: spec_fn(G) -> bool,
    b: G,
    m: G,
)
    requires
        abelian_group(op, zero, neg, s),
        s(b),
        s(m),
    ensures
        op(op(b, m), neg(b)) == m,
{
    lemma_group_is_monoid(op, zero, neg, s);
    lemma_inverse(op, zero, neg, s, b);
    lemma_cancel_with(op, zero, s, b, m, neg(b));
}

/// Copies of an element of the carrier are in the carrier.
pub proof fn lemma_times_closed<G>(
    op: spec_fn(G, G) -> G,
    zero: G,
    s: spec_fn(G) -> bool,
    n: nat,
    x: G,
)
    requires
        commutative_monoid(op, zero, s),
        s(x),
    ensures
        s(times(op, zero, n, x)),
    decreases n,
{
    reveal(commutative_monoid);
    if n > 0 {
        lemma_times_closed(op, zero, s, (n - 1) as nat, x);
    }
}

/// Copies of zero are zero.
pub proof fn lemma_times_zero<G>(op: spec_fn(G, G) -> G, zero: G, s: spec_fn(G) -> bool, n: nat)
    requires
        commutative_monoid(op, zero, s),
    ensures
        times(op, zero, n, zero) == zero,
    decreases n,
{
    reveal(commutative_monoid);
    if n > 0 {
        lemma_times_zero(op, zero, s, (n - 1) as nat);
        assert(op(zero, zero) == zero);
    }
}

/// Copies of a sum are the sum of the copies.
pub proof fn lemma_times_add<G>(
    op: spec_fn(G, G) -> G,
    zero: G,
    s: spec_fn(G) -> bool,
    n: nat,
    x: G,
    y: G,
)
    requires
        commutative_monoid(op, zero, s),
        s(x),
        s(y),
    ensures
        times(op, zero, n, op(x, y)) == op(times(op, zero, n, x), times(op, zero, n, y)),
    decreases n,
{
    reveal(commutative_monoid);
    if n == 0 {
        assert(op(zero, zero) == zero);
    } else {
        let k = (n - 1) as nat;
        lemma_times_add(op, zero, s, k, x, y);
        lemma_times_closed(op, zero, s, k, x);
        lemma_times_closed(op, zero, s, k, y);
        lemma_interchange(op, zero, s, times(op, zero, k, x), times(op, zero, k, y), x, y);
    }
}

/// `a + b` copies are `a` copies and `b` copies.
pub proof fn lemma_times_sum<G>(
    op: spec_fn(G, G) -> G,
    zero: G,
    s: spec_fn(G) -> bool,
    a: nat,
    b: nat,
    x: G,
)
    requires
        commutative_monoid(op, zero, s),
        s(x),
    ensures
        times(op, zero, a + b, x) == op(times(op, zero, a, x), times(op, zero, b, x)),
    decreases b,
{
    lemma_times_closed(op, zero, s, a, x);
    if b == 0 {
        lemma_zero_right(op, zero, s, times(op, zero, a, x));
    } else {
        let k = (b - 1) as nat;
        lemma_times_sum(op, zero, s, a, k, x);
        lemma_times_closed(op, zero, s, k, x);
        assert(a + b - 1 == a + k);
        lemma_associate(op, zero, s, times(op, zero, a, x), times(op, zero, k, x), x);
    }
}

/// `a * b` copies are `a` copies of `b` copies.
pub proof fn lemma_times_mul<G>(
    op: spec_fn(G, G) -> G,
    zero: G,
    s: spec_fn(G) -> bool,
    a: nat,
    b: nat,
    x: G,
)
    requires
        commutative_monoid(op, zero, s),
        s(x),
    ensures
        times(op, zero, a * b, x) == times(op, zero, a, times(op, zero, b, x)),
    decreases a,
{
    if a == 0 {
        assert(a * b == 0) by (nonlinear_arith)
            requires
                a == 0,
        ;
    } else {
        let k = (a - 1) as nat;
        lemma_times_mul(op, zero, s, k, b, x);
        assert(a * b == k * b + b) by (nonlinear_arith)
            requires
                k == a - 1,
        ;
        lemma_times_sum(op, zero, s, k * b, b, x);
    }
}

/// A term doubled `n` times is `2^n` copies of it.
pub proof fn lemma_doubled_is_times<G>(
    op: spec_fn(G, G) -> G,
    zero: G,
    s: spec_fn(G) -> bool,
    x: G,
    n: nat,
)
    requires
        commutative_monoid(op, zero, s),
        s(x),
    ensures
        doubled_by(op, x, n) == times(op, zero, pow2(n), x),
    decreases n,
{
    lemma2_to64();
    if n == 0 {
        assert(times(op, zero, 0, x) == zero);
        lemma_zero_left(op, zero, s, x);
    } else {
        let k = (n - 1) as nat;
        lemma_doubled_is_times(op, zero, s, x, k);
        lemma_pow2_unfold(n);
        lemma_times_sum(op, zero, s, pow2(k), pow2(k), x);
    }
}

/// The weighted sum of elements of the carrier is in the carrier.
pub proof fn lemma_weighted_closed<G>(
    op: spec_fn(G, G) -> G,
    zero: G,
    s: spec_fn(G) -> bool,
    terms: Seq<G>,
    i: nat,
)
    requires
        commutative_monoid(op, zero, s),
        all_in(terms, s),
    ensures
        s(weighted_sum(op, zero, terms, i)),
    decreases terms.len() - i,
{
    if i >= terms.len() {
        lemma_zero_closed(op, zero, s);
    } else {
        lemma_weighted_closed(op, zero, s, terms, i + 1);
        lemma_times_closed(op, zero, s, i, terms[i as int]);
        lemma_closed(
            op,
            zero,
            s,
            times(op, zero, i, terms[i as int]),
            weighted_sum(op, zero, terms, i + 1),
        );
    }
}

/// Running sum and aggregate of elements of the carrier are in the carrier.
pub proof fn lemma_running_closed<G>(
    op: spec_fn(G, G) -> G,
    zero: G,
    s: spec_fn(G) -> bool,
    terms: Seq<G>,
    i: nat,
)
    requires
        commutative_monoid(op, zero, s),
        all_in(terms, s),
        i < terms.len(),
    ensures
        s(running(op, terms, i)),
        s(aggregate(op, terms, i)),
    decreases terms.len() - i,
{
    if i + 1 < terms.len() {
        lemma_running_closed(op, zero, s, terms, i + 1);
        lemma_closed(op, zero, s, terms[i as int], running(op, terms, i + 1));
        lemma_closed(op, zero, s, running(op, terms, i), aggregate(op, terms, i + 1));
    }
}

/// The aggregate from the `i`-th term on, with the running sum from there
/// on added `i - 1` times, is the weighted sum from the `i`-th term on.
pub proof fn lemma_aggregate_step<G>(
    op: spec_fn(G, G) -> G,
    zero: G,
    s: spec_fn(G) -> bool,
    terms: Seq<G>,
    i: nat,
)
    requires
        commutative_monoid(op, zero, s),
        all_in(terms, s),
        1 <= i < terms.len(),
    ensures
        op(
            aggregate(op, terms, i),
            times(op, zero, (i - 1) as nat, running(op, terms, i)),
        ) == weighted_sum(op, zero, terms, i),
    decreases terms.len() - i,
{
    let sum = running(op, terms, i);
    let a = aggregate(op, terms, i);
    let b = terms[i as int];
    lemma_running_closed(op, zero, s, terms, i);
    lemma_times_closed(op, zero, s, (i - 1) as nat, sum);
    let before = times(op, zero, (i - 1) as nat, sum);
    if i + 1 >= terms.len() {
        // one term: the term once and i - 1 times more
        assert(sum == b && a == b);
        lemma_commute(op, zero, s, b, before);
        assert(weighted_sum(op, zero, terms, i + 1) == zero);
        lemma_times_closed(op, zero, s, i, b);
        lemma_zero_right(op, zero, s, times(op, zero, i, b));
    } else {
        let s1 = running(op, terms, i + 1);
        let a1 = aggregate(op, terms, i + 1);
        lemma_running_closed(op, zero, s, terms, i + 1);
        lemma_aggregate_step(op, zero, s, terms, i + 1);
        // a + (i - 1) s = (s + a1) + (i - 1) s = i s + a1
        lemma_associate(op, zero, s, sum, a1, before);
        lemma_commute(op, zero, s, a1, before);
        lemma_associate(op, zero, s, sum, before, a1);
        lemma_commute(op, zero, s, sum, before);
        assert(op(before, sum) == times(op, zero, i, sum));
        // i s = i b + i s1
        lemma_times_add(op, zero, s, i, b, s1);
        let ib = times(op, zero, i, b);
        let is1 = times(op, zero, i, s1);
        lemma_times_closed(op, zero, s, i, b);
        lemma_times_closed(op, zero, s, i, s1);
        lemma_associate(op, zero, s, ib, is1, a1);
        lemma_commute(op, zero, s, is1, a1);
    }
}

/// The running-sum aggregation of terms, from the term of index one on, is
/// the sum of all terms with their indices as weights.
pub proof fn lemma_aggregate_is_weighted_sum<G>(
    op: spec_fn(G, G) -> G,
    zero: G,
    s: spec_fn(G) -> bool,
    terms: Seq<G>,
)
    requires
        commutative_monoid(op, zero, s),
        all_in(terms, s),
        terms.len() >= 2,
    ensures
        aggregate(op, terms, 1) == weighted_sum(op, zero, terms, 0),
{
    lemma_aggregate_step(op, zero, s, terms, 1);
    lemma_running_closed(op, zero, s, terms, 1);
    lemma_zero_right(op, zero, s, aggregate(op, terms, 1));
    lemma_weighted_closed(op, zero, s, terms, 1);
    lemma_zero_left(op, zero, s, weighted_sum(op, zero, terms, 1));
    assert(times(op, zero, 0, terms[0]) == zero);
    assert(times(op, zero, 0, running(op, terms, 1)) == zero);
}

/// Adding to the term of index `k` adds `k` copies to the weighted sum.
pub proof fn lemma_weighted_update<G>(
    op: spec_fn(G, G) -> G,
    zero: G,
    s: spec_fn(G) -> bool,
    terms: Seq<G>,
    k: nat,
    p: G,
    i: nat,
)
    requires
        commutative_monoid(op, zero, s),
        all_in(terms, s),
        s(p),
        k < terms.len(),
    ensures
        weighted_sum(op, zero, terms.update(k as int, op(terms[k as int], p)), i) == if i <= k {
            op(weighted_sum(op, zero, terms, i), times(op, zero, k, p))
        } else {
            weighted_sum(op, zero, terms, i)
        },
    decreases terms.len() - i,
{
    let updated = terms.update(k as int, op(terms[k as int], p));
    if i >= terms.len() {
    } else {
        lemma_weighted_update(op, zero, s, terms, k, p, i + 1);
        let rest = weighted_sum(op, zero, terms, i + 1);
        let kp = times(op, zero, k, p);
        lemma_weighted_closed(op, zero, s, terms, i + 1);
        lemma_times_closed(op, zero, s, k, p);
        if i == k {
            // k (b + p) + rest = (k b + rest) + k p
            lemma_times_add(op, zero, s, k, terms[k as int], p);
            let kb = times(op, zero, k, terms[k as int]);
            lemma_times_closed(op, zero, s, k, terms[k as int]);
            lemma_associate(op, zero, s, kb, kp, rest);
            lemma_commute(op, zero, s, kp, rest);
            lemma_associate(op, zero, s, kb, rest, kp);
        } else if i < k {
            let ib = times(op, zero, i, terms[i as int]);
            lemma_times_closed(op, zero, s, i, terms[i as int]);
            assert(updated[i as int] == terms[i as int]);
            lemma_associate(op, zero, s, ib, rest, kp);
        } else {
            assert(updated[i as int] == terms[i as int]);
        }
    }
}

/// Running sum and aggregate that begin with zero are in the carrier.
pub proof fn lemma_sums_closed<G>(
    op: spec_fn(G, G) -> G,
    zero: G,
    s: spec_fn(G) -> bool,
    terms: Seq<G>,
    k: nat,
)
    requires
        commutative_monoid(op, zero, s),
        all_in(terms, s),
    ensures
        s(sums_from_zero(op, zero, terms, k).0),
        s(sums_from_zero(op, zero, terms, k).1),
    decreases terms.len() - k,
{
    lemma_zero_closed(op, zero, s);
    if k < terms.len() {
        lemma_sums_closed(op, zero, s, terms, k + 1);
        let (s1, a1) = sums_from_zero(op, zero, terms, k + 1);
        lemma_closed(op, zero, s, s1, terms[k as int]);
        lemma_closed(op, zero, s, a1, op(s1, terms[k as int]));
    }
}

/// The aggregate that begins with zero, with the running sum added `k - 1`
/// times, is the weighted sum from the `k`-th term on.
pub proof fn lemma_sums_from_zero<G>(
    op: spec_fn(G, G) -> G,
    zero: G,
    s: spec_fn(G) -> bool,
    terms: Seq<G>,
    k: nat,
)
    requires
        commutative_monoid(op, zero, s),
        all_in(terms, s),
        1 <= k,
    ensures
        op(
            sums_from_zero(op, zero, terms, k).1,
            times(op, zero, (k - 1) as nat, sums_from_zero(op, zero, terms, k).0),
        ) == weighted_sum(op, zero, terms, k),
    decreases terms.len() - k,
{
    lemma_zero_closed(op, zero, s);
    if k >= terms.len() {
        lemma_times_zero(op, zero, s, (k - 1) as nat);
        lemma_zero_left(op, zero, s, zero);
    } else {
        lemma_sums_from_zero(op, zero, s, terms, k + 1);
        lemma_sums_closed(op, zero, s, terms, k + 1);
        let (s1, a1) = sums_from_zero(op, zero, terms, k + 1);
        let b = terms[k as int];
        let sum = op(s1, b);
        lemma_closed(op, zero, s, s1, b);
        lemma_times_closed(op, zero, s, (k - 1) as nat, sum);
        let before = times(op, zero, (k - 1) as nat, sum);
        // a + (k - 1) s = a1 + k s
        lemma_associate(op, zero, s, a1, sum, before);
        lemma_commute(op, zero, s, sum, before);
        assert(op(before, sum) == times(op, zero, k, sum));
        // k s = k s1 + k b
        lemma_times_add(op, zero, s, k, s1, b);
        let ks1 = times(op, zero, k, s1);
        let kb = times(op, zero, k, b);
        lemma_times_closed(op, zero, s, k, s1);
        lemma_times_closed(op, zero, s, k, b);
        lemma_associate(op, zero, s, a1, ks1, kb);
        lemma_closed(op, zero, s, a1, ks1);
        lemma_commute(op, zero, s, op(a1, ks1), kb);
    }
}

/// The aggregate that begins with zero is the weighted sum.
pub proof fn lemma_sums_from_zero_weighted<G>(
    op: spec_fn(G, G) -> G,
    zero: G,
    s: spec_fn(G) -> bool,
    terms: Seq<G>,
)
    requires
        commutative_monoid(op, zero, s),
        all_in(terms, s),
    ensures
        sums_from_zero(op, zero, terms, 1).1 == weighted_sum(op, zero, terms, 0),
{
    lemma_sums_from_zero(op, zero, s, terms, 1);
    lemma_sums_closed(op, zero, s, terms, 1);
    lemma_zero_right(op, zero, s, sums_from_zero(op, zero, terms, 1).1);
    lemma_weighted_closed(op, zero, s, terms, 1);
    lemma_zero_left(op, zero, s, weighted_sum(op, zero, terms, 1));
    assert(times(op, zero, 0, sums_from_zero(op, zero, terms, 1).0) == zero);
    if terms.len() > 0 {
        assert(times(op, zero, 0, terms[0]) == zero);
    }
}

/// A sum with coefficients of elements of the carrier is in the carrier.
pub proof fn lemma_dot_closed<G>(
    op: spec_fn(G, G) -> G,
    zero: G,
    s: spec_fn(G) -> bool,
    coefficients: Seq<nat>,
    terms: Seq<G>,
    n: nat,
)
    requires
        commutative_monoid(op, zero, s),
        all_in(terms, s),
        n <= terms.len(),
    ensures
        s(dot(op, zero, coefficients, terms, n)),
    decreases n,
{
    lemma_zero_closed(op, zero, s);
    if n > 0 {
        let j = (n - 1) as nat;
        lemma_dot_closed(op, zero, s, coefficients, terms, j);
        lemma_times_closed(op, zero, s, coefficients[j as int], terms[j as int]);
        lemma_closed(
            op,
            zero,
            s,
            dot(op, zero, coefficients, terms, j),
            times(op, zero, coefficients[j as int], terms[j as int]),
        );
    }
}

/// Sums with coefficients combine: `k` copies of one sum and another sum
/// are the sum with the coefficients `k * c1 + c2`.
pub proof fn lemma_dot_combine<G>(
    op: spec_fn(G, G) -> G,
    zero: G,
    s: spec_fn(G) -> bool,
    k: nat,
    c1: Seq<nat>,
    c2: Seq<nat>,
    c3: Seq<nat>,
    terms: Seq<G>,
    n: nat,
)
    requires
        commutative_monoid(op, zero, s),
        all_in(terms, s),
        n <= terms.len(),
        forall|i: int| 0 <= i < n ==> #[trigger] c3[i] == k * c1[i] + c2[i],
    ensures
        op(times(op, zero, k, dot(op, zero, c1, terms, n)), dot(op, zero, c2, terms, n)) == dot(
            op,
            zero,
            c3,
            terms,
            n,
        ),
    decreases n,
{
    lemma_zero_closed(op, zero, s);
    if n == 0 {
        lemma_times_zero(op, zero, s, k);
        lemma_zero_left(op, zero, s, zero);
    } else {
        let j = (n - 1) as nat;
        lemma_dot_combine(op, zero, s, k, c1, c2, c3, terms, j);
        let x = terms[j as int];
        let d1 = dot(op, zero, c1, terms, j);
        let d2 = dot(op, zero, c2, terms, j);
        let t1 = times(op, zero, c1[j as int], x);
        let t2 = times(op, zero, c2[j as int], x);
        lemma_dot_closed(op, zero, s, c1, terms, j);
        lemma_dot_closed(op, zero, s, c2, terms, j);
        lemma_times_closed(op, zero, s, c1[j as int], x);
        lemma_times_closed(op, zero, s, c2[j as int], x);
        // k (d1 + t1) + (d2 + t2) = (k d1 + d2) + (k t1 + t2)
        lemma_times_add(op, zero, s, k, d1, t1);
        lemma_times_closed(op, zero, s, k, d1);
        lemma_times_closed(op, zero, s, k, t1);
        lemma_interchange(op, zero, s, times(op, zero, k, d1), times(op, zero, k, t1), d2, t2);
        // k t1 + t2 = (k c1 + c2) x
        lemma_times_mul(op, zero, s, k, c1[j as int], x);
        lemma_times_sum(op, zero, s, k * c1[j as int], c2[j as int], x);
        assert(c3[j as int] == k * c1[j as int] + c2[j as int]);
    }
}

/// A sum depends on the coefficients and terms that it takes alone.
pub proof fn lemma_dot_ext<G>(
    op: spec_fn(G, G) -> G,
    zero: G,
    c1: Seq<nat>,
    c2: Seq<nat>,
    t1: Seq<G>,
    t2: Seq<G>,
    n: nat,
)
    requires
        forall|i: int| 0 <= i < n ==> c1[i] == c2[i] && t1[i] == t2[i],
    ensures
        dot(op, zero, c1, t1, n) == dot(op, zero, c2, t2, n),
    decreases n,
{
    if n > 0 {
        lemma_dot_ext(op, zero, c1, c2, t1, t2, (n - 1) as nat);
    }
}

/// Running sum and aggregate from the `i`-th term on depend on the terms
/// from there on alone.
pub proof fn lemma_aggregate_ext<G>(op: spec_fn(G, G) -> G, a: Seq<G>, b: Seq<G>, i: nat)
    requires
        a.len() == b.len(),
        forall|k: int| i <= k < a.len() ==> a[k] == b[k],
        i < a.len(),
    ensures
        running(op, a, i) == running(op, b, i),
        aggregate(op, a, i) == aggregate(op, b, i),
    decreases a.len() - i,
{
    if i + 1 < a.len() {
        lemma_aggregate_ext(op, a, b, i + 1);
    }
}

} // verus!
