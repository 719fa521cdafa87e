//! What the strategies share: the windows of the scalars, the number of
//! rounds, and repeated doubling.

use crate::curve::{add_elements, group_add, on_group, Element, Point};
use crate::field::Fe;
use crate::gate::incomplete_double;
use crate::region::{AssignedPoint, Value};
use crate::scalar::{window, Scalar};
use vstd::arithmetic::power2::{lemma_pow2_pos, pow2};
use vstd::bits::{lemma_u64_pow2_no_overflow, lemma_u64_shl_is_mul};
use vstd::prelude::*;

verus! {

/// The field element of a machine word.
pub open spec fn word(n: nat) -> Fe {
    Fe { l0: n as u64, l1: 0, l2: 0, l3: 0 }
}


/// The number of rounds with windows of `w` bits.
pub open spec fn number_of_rounds(w: nat) -> nat {
    (254nat / w + 1) as nat
}

/// The window of a scalar in round `j` of `n`, as a witness: a scalar that
/// is unknown has unknown windows.
pub open spec fn limb_at(s: Option<Scalar>, w: nat, n: nat, j: nat) -> Value {
    match s {
        Some(s) => Some(word(window(s@, w, (n - 1 - j) as nat))),
        None => None,
    }
}

/// The windows of round `j`, one for each scalar.
pub open spec fn column(scalars: Seq<Option<Scalar>>, w: nat, j: int) -> Seq<Value> {
    Seq::new(scalars.len(), |i: int| limb_at(scalars[i], w, number_of_rounds(w), j as nat))
}

/// The sum of `2^(i * w)` over the first `s` windows.
pub open spec fn window_ones(w: nat, s: nat) -> nat
    decreases s,
{
    if s == 0 {
        0
    } else {
        window_ones(w, (s - 1) as nat) + pow2(w * ((s - 1) as nat))
    }
}

/// A point doubled `n` times.
pub open spec fn doubled(p: Option<Point>, n: nat) -> Option<Point>
    decreases n,
{
    if n == 0 {
        p
    } else {
        incomplete_double(doubled(p, (n - 1) as nat))
    }
}

/// An element of the group doubled `n` times.
pub open spec fn group_doubled(e: Element, n: nat) -> Element
    decreases n,
{
    if n == 0 {
        e
    } else {
        let d = group_doubled(e, (n - 1) as nat);
        group_add(d, d)
    }
}

/// The points that assigned points stand for.
pub open spec fn point_values(points: Seq<AssignedPoint>) -> Seq<Option<Point>> {
    Seq::new(points.len(), |i: int| points[i].point())
}

/// The windows of the scalars, round by round, the most significant first.
pub open spec fn decomposed(limbs: Seq<Vec<Value>>, scalars: Seq<Option<Scalar>>, w: nat) -> bool {
    &&& limbs.len() == scalars.len()
    &&& forall|i: int|
        0 <= i < limbs.len() ==> (#[trigger] limbs[i])@.len() == number_of_rounds(w)
    &&& forall|i: int, j: int|
        0 <= i < limbs.len() && 0 <= j < number_of_rounds(w) ==> (#[trigger] limbs[i]@[j])
            == limb_at(scalars[i], w, number_of_rounds(w), j as nat)
}

/// `2^w` as a machine word.
pub fn number_of_buckets(w: usize) -> (r: u64)
    requires
        w < 64,
    ensures
        r == pow2(w as nat),
        r >= 1,
{
    proof {
        lemma_u64_pow2_no_overflow(w as nat);
        lemma_u64_shl_is_mul(1, w as u64);
        lemma_pow2_pos(w as nat);
    }
    1u64 << w
}

/// The number of rounds with windows of `w` bits.
pub fn rounds(w: usize) -> (r: usize)
    requires
        1 <= w,
    ensures
        r == number_of_rounds(w as nat),
        1 <= r <= 255,
{
    254 / w + 1
}

/// Doubles an element of the group `n` times.
pub fn double_element(e: &Element, n: usize) -> (r: Element)
    requires
        on_group(*e),
    ensures
        r == group_doubled(*e, n as nat),
        on_group(r),
{
    let mut r = *e;
    let mut i: usize = 0;
    while i < n
        invariant
            i <= n,
            on_group(r),
            r == group_doubled(*e, i as nat),
        decreases n - i,
    {
        r = add_elements(&r, &r);
        i = i + 1;
    }
    r
}

/// The windows of the scalars, round by round, the most significant
/// first.
pub fn decompose_scalars(window: usize, scalars: &[Option<Scalar>]) -> (r: Vec<Vec<Value>>)
    requires
        1 <= window < 64,
    ensures
        decomposed(r@, scalars@, window as nat),
{
    let count = rounds(window);
    let mut r: Vec<Vec<Value>> = Vec::new();
    let mut i: usize = 0;
    while i < scalars.len()
        invariant
            i <= scalars@.len(),
            1 <= window < 64,
            count == number_of_rounds(window as nat),
            decomposed(r@, scalars@.subrange(0, i as int), window as nat),
        decreases scalars@.len() - i,
    {
        let mut limbs: Vec<Value> = Vec::new();
        match &scalars[i] {
            Some(s) => {
                let low_first = s.decompose(count, window);
                let mut j: usize = 0;
                while j < count
                    invariant
                        j <= count,
                        low_first@.len() == count,
                        count == number_of_rounds(window as nat),
                        1 <= window < 64,
                        forall|k: int|
                            0 <= k < count ==> low_first@[k] == crate::scalar::window(
                                s@,
                                window as nat,
                                k as nat,
                            ),
                        limbs@.len() == j,
                        forall|k: int|
                            0 <= k < j ==> limbs@[k] == limb_at(
                                Some(*s),
                                window as nat,
                                count as nat,
                                k as nat,
                            ),
                    decreases count - j,
                {
                    limbs.push(Some(Fe::from_u64(low_first[count - 1 - j])));
                    j = j + 1;
                }
            },
            None => {
                let mut j: usize = 0;
                while j < count
                    invariant
                        j <= count,
                        limbs@.len() == j,
                        forall|k: int| 0 <= k < j ==> limbs@[k] == None::<Fe>,
                    decreases count - j,
                {
                    limbs.push(None);
                    j = j + 1;
                }
            },
        }
        proof {
            let before = scalars@.subrange(0, i as int);
            let after = scalars@.subrange(0, i + 1);
            let rows = r@.push(limbs);
            assert forall|a: int, b: int|
                0 <= a < rows.len() && 0 <= b < count implies (
            #[trigger] rows[a]@[b]) == limb_at(
                after[a],
                window as nat,
                count as nat,
                b as nat,
            ) by {
                if a < i {
                    assert(rows[a] == r@[a]);
                    assert(after[a] == before[a]);
                }
            }
            assert forall|a: int| 0 <= a < rows.len() implies (#[trigger] rows[a])@.len()
                == count by {
                if a < i {
                    assert(rows[a] == r@[a]);
                }
            }
        }
        r.push(limbs);
        i = i + 1;
    }
    assert(scalars@.subrange(0, i as int) =~= scalars@);
    r
}


/// The sum of the group, as a function.
pub open spec fn group_op() -> spec_fn(Element, Element) -> Element {
    |a: Element, b: Element| group_add(a, b)
}

/// A copy of the points.
pub fn copy_points(points: &Vec<Point>) -> (r: Vec<Point>)
    ensures
        r@ == points@,
{
    let mut r: Vec<Point> = Vec::new();
    let mut i: usize = 0;
    while i < points.len()
        invariant
            i <= points@.len(),
            r@ == points@.subrange(0, i as int),
        decreases points@.len() - i,
    {
        r.push(points[i]);
        assert(points@.subrange(0, i + 1) =~= points@.subrange(0, i as int).push(points@[i as int]));
        i = i + 1;
    }
    assert(points@.subrange(0, i as int) =~= points@);
    r
}

} // verus!
