//! The table of the fixed-base method, computed outside the circuit: for
//! each base the multiples `aux + k * base`, with an auxiliary point that is
//! doubled from base to base, and the sum of what the auxiliary points
//! contribute in all rounds.

use crate::curve::{add_elements, group_add, on_group, Element, Point};
use crate::gate::compute_double;
use crate::windows::{
    double_element, doubled, group_doubled, number_of_buckets, number_of_rounds, rounds,
};
use vstd::arithmetic::power2::pow2;
use vstd::prelude::*;

verus! {

/// The `k`-th entry of the table of a base: `aux + k * point`.
pub open spec fn table_entry(point: Point, aux: Point, k: nat) -> Element
    decreases k,
{
    if k == 0 {
        Some(aux)
    } else {
        group_add(table_entry(point, aux, (k - 1) as nat), Some(point))
    }
}

/// No entry of the table of a base before the `size`-th is the neutral
/// element.
pub open spec fn table_defined(point: Point, aux: Point, size: nat) -> bool {
    forall|k: nat| k < size ==> (#[trigger] table_entry(point, aux, k)).is_some()
}

/// The auxiliary point of the `i`-th base: `aux` doubled `i` times.
pub open spec fn aux_of(aux: Point, i: nat) -> Option<Point> {
    doubled(Some(aux), i)
}

/// The sum of the auxiliary points of the first `n` bases.
pub open spec fn aux_sum(aux: Point, n: nat) -> Element
    decreases n,
{
    if n == 0 {
        None
    } else {
        group_add(aux_sum(aux, (n - 1) as nat), aux_of(aux, (n - 1) as nat))
    }
}

/// What the auxiliary points contribute in `r` rounds, and their sum
/// shifted by `r` windows.
pub open spec fn aux_rounds(sum: Element, w: nat, r: nat) -> (Element, Element)
    decreases r,
{
    if r == 0 {
        (None, sum)
    } else {
        let (total, shifted) = aux_rounds(sum, w, (r - 1) as nat);
        (group_add(total, shifted), group_doubled(shifted, w))
    }
}

/// What the auxiliary points of `n` bases contribute to the accumulator in
/// all rounds.
pub open spec fn blinding(aux: Point, n: nat, w: nat) -> Element {
    aux_rounds(aux_sum(aux, n), w, number_of_rounds(w)).0
}

/// The table of one base: `aux`, `aux + point`, up to
/// `aux + (size - 1) * point`; nothing if one of them is the neutral
/// element.
pub fn incremental_table(point: &Point, size: usize, aux: &Point) -> (r: Option<Vec<Point>>)
    requires
        size > 0,
        point.on_curve(),
        aux.on_curve(),
    ensures
        r.is_some() <==> table_defined(*point, *aux, size as nat),
        r matches Some(v) ==> v@.len() == size && forall|k: int|
            0 <= k < size ==> Some(#[trigger] v@[k]) == table_entry(*point, *aux, k as nat)
                && v@[k].on_curve(),
{
    let mut acc: Element = Some(*aux);
    let mut table: Vec<Point> = Vec::new();
    let mut i: usize = 0;
    while i < size
        invariant
            i <= size,
            point.on_curve(),
            on_group(acc),
            acc == table_entry(*point, *aux, i as nat),
            table@.len() == i,
            forall|k: int|
                0 <= k < i ==> Some(#[trigger] table@[k]) == table_entry(*point, *aux, k as nat)
                    && table@[k].on_curve(),
        decreases size - i,
    {
        match acc {
            Some(p) => {
                table.push(p);
            },
            None => {
                assert(!table_defined(*point, *aux, size as nat)) by {
                    assert(table_entry(*point, *aux, i as nat).is_none());
                }
                return None;
            },
        }
        acc = add_elements(&acc, &Some(*point));
        i = i + 1;
    }
    assert forall|k: nat| k < size implies (#[trigger] table_entry(*point, *aux, k)).is_some() by {
        assert(Some(table@[k as int]) == table_entry(*point, *aux, k));
    }
    Some(table)
}

/// The entry of the whole table at an address: the tables of the bases,
/// each of `2^w` entries, one after the other.
pub open spec fn memory_entry(bases: Seq<Point>, aux: Point, w: nat, address: nat) -> Element {
    table_entry(
        bases[(address / pow2(w)) as int],
        aux_of(aux, address / pow2(w)).unwrap(),
        address % pow2(w),
    )
}

/// No entry of the tables of the first `n` bases is the neutral element.
pub open spec fn memory_defined(bases: Seq<Point>, aux: Point, w: nat, n: nat) -> bool {
    forall|i: nat|
        i < n ==> #[trigger] table_defined(bases[i as int], aux_of(aux, i).unwrap(), pow2(w))
}

/// The whole table: the tables of the bases one after the other, the `i`-th
/// with `aux` doubled `i` times as its auxiliary point; nothing if an entry
/// is the neutral element.
pub fn build_memory(bases: &[Point], window: usize, aux: &Point) -> (r: Option<Vec<Point>>)
    requires
        1 <= window < 64,
        pow2(window as nat) <= usize::MAX,
        aux.on_curve(),
        forall|i: int| 0 <= i < bases@.len() ==> (#[trigger] bases@[i]).on_curve(),
    ensures
        r.is_some() <==> memory_defined(bases@, *aux, window as nat, bases@.len()),
        r.is_some() ==> forall|i: nat|
            i < bases@.len() ==> (#[trigger] aux_of(*aux, i)).is_some(),
        r matches Some(v) ==> v@.len() == bases@.len() * pow2(window as nat) && forall|a: int|
            0 <= a < v@.len() ==> Some(#[trigger] v@[a]) == memory_entry(
                bases@,
                *aux,
                window as nat,
                a as nat,
            ) && v@[a].on_curve(),
{
    let size = number_of_buckets(window);
    let ghost w = window as nat;
    let ghost m = pow2(w);
    let mut memory: Vec<Point> = Vec::new();
    let mut running_aux = *aux;
    let mut i: usize = 0;
    while i < bases.len()
        invariant
            i <= bases@.len(),
            m == pow2(w),
            w == window,
            size == m,
            1 <= m <= usize::MAX,
            aux.on_curve(),
            forall|k: int| 0 <= k < bases@.len() ==> (#[trigger] bases@[k]).on_curve(),
            running_aux.on_curve(),
            Some(running_aux) == aux_of(*aux, i as nat),
            forall|k: nat| k < i ==> (#[trigger] aux_of(*aux, k)).is_some(),
            memory_defined(bases@, *aux, w, i as nat),
            memory@.len() == i * m,
            forall|a: int|
                0 <= a < memory@.len() ==> Some(#[trigger] memory@[a]) == memory_entry(
                    bases@,
                    *aux,
                    w,
                    a as nat,
                ) && memory@[a].on_curve(),
        decreases bases@.len() - i,
    {
        let table = incremental_table(&bases[i], size as usize, &running_aux);
        match table {
            None => {
                proof {
                    assert(!table_defined(bases@[i as int], aux_of(*aux, i as nat).unwrap(), m));
                }
                return None;
            },
            Some(t) => {
                let ghost before = memory@;
                let mut k: usize = 0;
                while k < t.len()
                    invariant
                        k <= t@.len(),
                        t@.len() == m,
                        memory@ == before + t@.subrange(0, k as int),
                    decreases t@.len() - k,
                {
                    memory.push(t[k]);
                    assert(t@.subrange(0, k + 1) =~= t@.subrange(0, k as int).push(t@[k as int]));
                    k = k + 1;
                }
                proof {
                    assert(t@.subrange(0, k as int) =~= t@);
                    assert(memory@.len() == (i + 1) * m) by (nonlinear_arith)
                        requires
                            memory@.len() == i * m + m,
                    ;
                    assert forall|a: int| 0 <= a < memory@.len() implies Some(
                        #[trigger] memory@[a],
                    ) == memory_entry(bases@, *aux, w, a as nat) && memory@[a].on_curve() by {
                        if a >= i * m {
                            let off = a - i * m;
                            vstd::arithmetic::div_mod::lemma_fundamental_div_mod_converse(
                                a,
                                m as int,
                                i as int,
                                off,
                            );
                            assert(memory@[a] == t@[off]);
                        } else {
                            assert(memory@[a] == before[a]);
                        }
                    }
                    assert forall|j: nat| j < i + 1 implies #[trigger] table_defined(
                        bases@[j as int],
                        aux_of(*aux, j).unwrap(),
                        m,
                    ) by {
                        if j < i {
                        }
                    }
                }
            },
        }
        running_aux = compute_double(&Some(running_aux)).out.unwrap();
        i = i + 1;
    }
    Some(memory)
}

/// What the auxiliary points of `n` bases contribute in all rounds: the
/// inverse of this is the correction of the multiplication.
pub fn blinding_element(n: usize, window: usize, aux: &Point) -> (r: Element)
    requires
        1 <= window < 64,
        aux.on_curve(),
    ensures
        r == blinding(*aux, n as nat, window as nat),
        on_group(r),
{
    let mut sum: Element = None;
    let mut running_aux = *aux;
    let mut i: usize = 0;
    while i < n
        invariant
            i <= n,
            on_group(sum),
            running_aux.on_curve(),
            Some(running_aux) == aux_of(*aux, i as nat),
            sum == aux_sum(*aux, i as nat),
        decreases n - i,
    {
        sum = add_elements(&sum, &Some(running_aux));
        running_aux = compute_double(&Some(running_aux)).out.unwrap();
        i = i + 1;
    }
    let count = rounds(window);
    let mut total: Element = None;
    let mut shifted = sum;
    let mut r: usize = 0;
    while r < count
        invariant
            r <= count,
            on_group(total),
            on_group(shifted),
            (total, shifted) == aux_rounds(sum, window as nat, r as nat),
        decreases count - r,
    {
        total = add_elements(&total, &shifted);
        shifted = double_element(&shifted, window);
        r = r + 1;
    }
    total
}

} // verus!
