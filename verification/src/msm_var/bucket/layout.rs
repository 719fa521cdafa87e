//! The rows of the windows of a scalar, the region of the sorted trace, and
//! the range table.

use super::config::MSMGate;
use crate::windows::{number_of_buckets, number_of_rounds, rounds, word};
use super::rw::{all_known, ordered, timestamped, Query, SortedQuery};
use crate::field::Fe;
use crate::gate::{all_zero_ops, zero, zero_advice, Columns};
use crate::region::{rows, Advice, AssignedValue, Column, Op, RegionCtx, Selector, Value};
use crate::constraints::{
    distinct, in_range, lemma_one_row, row_after, table, windows_ok,
};
use crate::scalar::{lemma_window_bound, window, Scalar};
use vstd::arithmetic::power2::{lemma2_to64, lemma_pow2_pos, lemma_pow2_strictly_increases, pow2};
use vstd::prelude::*;

verus! {

/// The `i`-th advice column.
pub open spec fn advice_column(c: Columns, i: int) -> Advice {
    if i == 0 {
        c.a0
    } else if i == 1 {
        c.a1
    } else if i == 2 {
        c.a2
    } else if i == 3 {
        c.a3
    } else {
        c.a4
    }
}

/// The `k`-th window of a scalar, the least significant first, as a witness.
pub open spec fn limb_value(scalar: Option<Scalar>, w: nat, k: nat) -> Value {
    match scalar {
        Some(s) => Some(word(window(s@, w, k))),
        None => None,
    }
}

/// What goes into the `i`-th advice column of the row that begins with the
/// window `start`: the window `start + i`, or a copy of zero past the last.
pub open spec fn limb_op(
    c: Columns,
    scalar: Option<Scalar>,
    w: nat,
    zero_cell: AssignedValue,
    start: nat,
    i: int,
) -> Op {
    if start + i < number_of_rounds(w) {
        Op::Advice(advice_column(c, i), limb_value(scalar, w, (start + i) as nat))
    } else {
        Op::Copy(advice_column(c, i), zero_cell.cell, zero_cell.value)
    }
}

/// The row of five windows that begins with the window `start`: the range
/// of every advice cell is turned on.
pub open spec fn limb_row(
    c: Columns,
    scalar: Option<Scalar>,
    w: nat,
    zero_cell: AssignedValue,
    start: nat,
) -> Seq<Op> {
    seq![
        Op::Enable(Selector::Windows),
        limb_op(c, scalar, w, zero_cell, start, 0),
        limb_op(c, scalar, w, zero_cell, start, 1),
        limb_op(c, scalar, w, zero_cell, start, 2),
        limb_op(c, scalar, w, zero_cell, start, 3),
        limb_op(c, scalar, w, zero_cell, start, 4),
        Op::Fixed(c.constant, zero()),
        Op::Next,
    ]
}

/// The first `n` rows of the windows of a scalar, five windows to a row.
pub open spec fn limb_rows(
    c: Columns,
    scalar: Option<Scalar>,
    w: nat,
    zero_cell: AssignedValue,
    n: nat,
) -> Seq<Op>
    decreases n,
{
    if n == 0 {
        Seq::empty()
    } else {
        limb_rows(c, scalar, w, zero_cell, (n - 1) as nat) + limb_row(
            c,
            scalar,
            w,
            zero_cell,
            (5 * (n - 1)) as nat,
        )
    }
}

/// The cell that a step of a row of windows fills holds a value in the
/// range.
proof fn lemma_limb_in_range(
    c: Columns,
    s: Scalar,
    w: nat,
    zero_cell: AssignedValue,
    start: nat,
    i: int,
)
    requires
        1 <= w < 64,
        zero_cell.value == Some(zero()),
    ensures
        match limb_op(c, Some(s), w, zero_cell, start, i) {
            Op::Advice(_, v) => in_range(v, w),
            Op::Copy(_, _, v) => in_range(v, w),
            _ => false,
        },
{
    lemma_pow2_pos(w);
    lemma_pow2_strictly_increases(w, 64);
    lemma2_to64();
    lemma_window_bound(s@, w, (start + i) as nat);
}

/// A row of windows of a known scalar satisfies what it turns on: every
/// advice cell of the row is in the range `[0, 2^w)`.
pub proof fn lemma_window_row_in_range(
    c: Columns,
    s: Scalar,
    w: nat,
    zero_cell: AssignedValue,
    start: nat,
)
    requires
        distinct(c),
        1 <= w < 64,
        zero_cell.value == Some(zero()),
    ensures
        table(limb_row(c, Some(s), w, zero_cell, start), c).len() == 1,
        table(limb_row(c, Some(s), w, zero_cell, start), c)[0].windows,
        windows_ok(table(limb_row(c, Some(s), w, zero_cell, start), c)[0], w),
{
    let ops = limb_row(c, Some(s), w, zero_cell, start);
    lemma_one_row(ops, c);
    lemma_limb_in_range(c, s, w, zero_cell, start, 0);
    lemma_limb_in_range(c, s, w, zero_cell, start, 1);
    lemma_limb_in_range(c, s, w, zero_cell, start, 2);
    lemma_limb_in_range(c, s, w, zero_cell, start, 3);
    lemma_limb_in_range(c, s, w, zero_cell, start, 4);
    reveal_with_fuel(row_after, 9);
    let row = row_after(ops, c, 7);
    assert(row.windows);
}

/// The entry of a sorted trace at a position, where the trace is known.
pub open spec fn entry(trace: Option<Seq<SortedQuery>>, i: int) -> Option<SortedQuery> {
    match trace {
        Some(t) => Some(t[i]),
        None => None,
    }
}

/// The row of the `i`-th entry of the sorted trace: address, point and
/// timestamp. Rows of odd index are marked as reads.
pub open spec fn sorted_row(c: Columns, i: nat, q: Option<SortedQuery>) -> Seq<Op> {
    let head = if i % 2 == 1 {
        seq![Op::Enable(Selector::Sorted), Op::Enable(Selector::SortedRead)]
    } else {
        seq![Op::Enable(Selector::Sorted)]
    };
    head + seq![
        Op::Advice(
            c.a0,
            match q {
                Some(q) => Some(q.address),
                None => None,
            },
        ),
        Op::Advice(
            c.a1,
            match q {
                Some(q) => Some(q.x),
                None => None,
            },
        ),
        Op::Advice(
            c.a2,
            match q {
                Some(q) => Some(q.y),
                None => None,
            },
        ),
        Op::Advice(
            c.a3,
            match q {
                Some(q) => Some(word(q.timestamp as nat)),
                None => None,
            },
        ),
        zero_advice(c.a4),
        Op::Fixed(c.constant, zero()),
        Op::Next,
    ]
}

/// The region of the sorted trace: a row of zeros, then the first `n`
/// entries.
pub open spec fn sorted_rows(c: Columns, trace: Option<Seq<SortedQuery>>, n: nat) -> Seq<Op>
    decreases n,
{
    if n == 0 {
        all_zero_ops(c)
    } else {
        sorted_rows(c, trace, (n - 1) as nat) + sorted_row(
            c,
            (n - 1) as nat,
            entry(trace, n - 1),
        )
    }
}

/// Entry `i` of the sorted trace is a read exactly when `i` is odd: at each
/// address a write, then reads and writes in turn, and a read at the end.
pub open spec fn alternates(trace: Seq<SortedQuery>) -> bool {
    forall|i: int| 0 <= i < trace.len() ==> (#[trigger] trace[i]).is_read == (i % 2 == 1)
}

/// Tests `alternates`.
pub fn check_alternates(trace: &Vec<SortedQuery>) -> (r: bool)
    ensures
        r == alternates(trace@),
{
    let mut i: usize = 0;
    while i < trace.len()
        invariant
            i <= trace@.len(),
            forall|k: int| 0 <= k < i ==> (#[trigger] trace@[k]).is_read == (k % 2 == 1),
        decreases trace@.len() - i,
    {
        if trace[i].is_read != (i % 2 == 1) {
            return false;
        }
        i = i + 1;
    }
    true
}

/// The trace is the sorted trace of the queries: known where every query
/// is, and then the queries with their timestamps, in the order by address
/// and then by timestamp.
pub open spec fn sorts(trace: Option<Seq<SortedQuery>>, queries: Seq<Query>) -> bool {
    &&& trace.is_some() == all_known(queries)
    &&& trace matches Some(t) ==> t.to_multiset() == timestamped(queries).to_multiset()
        && ordered(t)
}

/// The steps of a region, where there is one.
pub open spec fn steps(r: Option<RegionCtx>) -> Option<Seq<Op>> {
    match r {
        Some(ctx) => Some(ctx@),
        None => None,
    }
}

/// What the layout of the sorted trace gives for the queries of a memory:
/// the rows of the sorted trace, where it alternates or is unknown; nothing
/// where it is known and does not alternate.
pub open spec fn sorted_region(c: Columns, queries: Seq<Query>, r: Option<Seq<Op>>) -> bool {
    exists|trace: Option<Seq<SortedQuery>>|
        {
            &&& #[trigger] sorts(trace, queries)
            &&& match r {
                Some(ops) => (trace matches Some(t) ==> alternates(t)) && ops == sorted_rows(
                    c,
                    trace,
                    queries.len(),
                ),
                None => trace matches Some(t) && !alternates(t),
            }
        }
}

/// Lays out the row of one entry of the sorted trace.
fn sorted_entry(c: &Columns, ctx: &mut RegionCtx, i: usize, q: &Option<SortedQuery>)
    requires
        old(ctx).wf(),
    ensures
        final(ctx).wf(),
        final(ctx)@ == old(ctx)@ + sorted_row(*c, i as nat, *q),
{
    ctx.enable(Selector::Sorted);
    if i % 2 == 1 {
        ctx.enable(Selector::SortedRead);
    }
    let (address, x, y, timestamp) = match q {
        Some(q) => (
            Some(q.address),
            Some(q.x),
            Some(q.y),
            Some(Fe::from_u64(q.timestamp as u64)),
        ),
        None => (None, None, None, None),
    };
    ctx.advice(c.a0, address);
    ctx.advice(c.a1, x);
    ctx.advice(c.a2, y);
    ctx.advice(c.a3, timestamp);
    ctx.empty(Column::Advice(c.a4));
    ctx.fixed(c.constant, Fe::zero());
    ctx.next();
    assert(ctx@ =~= old(ctx)@ + sorted_row(*c, i as nat, *q));
}

/// Lays out the windows of a scalar, five to a row and the least
/// significant first, with the range of every cell of the rows turned on,
/// and returns their cells, the most significant first. The cells of a row
/// past the last window are copies of `zero_cell`.
pub fn assign_windows(
    c: &Columns,
    ctx: &mut RegionCtx,
    zero_cell: &AssignedValue,
    width: usize,
    scalar: &Option<Scalar>,
) -> (r: Vec<AssignedValue>)
    requires
        old(ctx).wf(),
        1 <= width < 64,
    ensures
        final(ctx).wf(),
        r@.len() == number_of_rounds(width as nat),
        forall|j: int|
            0 <= j < r@.len() ==> (#[trigger] r@[j]).value == limb_value(
                *scalar,
                width as nat,
                (r@.len() - 1 - j) as nat,
            ),
        final(ctx)@ == old(ctx)@ + limb_rows(
            *c,
            *scalar,
            width as nat,
            *zero_cell,
            (number_of_rounds(width as nat) + 4) / 5,
        ),
{
    let c = *c;
    let zero_cell = *zero_cell;
    let number_of_limbs = rounds(width);
    let limbs: Option<Vec<u64>> = match scalar {
        Some(s) => Some(s.decompose(number_of_limbs, width)),
        None => None,
    };
    let ghost base = ctx@;
    let mut assigned: Vec<AssignedValue> = Vec::new();
    let number_of_rows = (number_of_limbs + 4) / 5;
    let mut row: usize = 0;
    proof {
        assert(ctx@ =~= base + limb_rows(c, *scalar, width as nat, zero_cell, 0));
    }
    while row < number_of_rows
        invariant
            row <= number_of_rows,
            number_of_rows == (number_of_limbs + 4) / 5,
            number_of_limbs == number_of_rounds(width as nat),
            number_of_limbs <= 255,
            1 <= width < 64,
            ctx.wf(),
            ctx@ == base + limb_rows(c, *scalar, width as nat, zero_cell, row as nat),
            assigned@.len() == if 5 * row <= number_of_limbs {
                5 * row
            } else {
                number_of_limbs as int
            },
            limbs.is_some() == scalar.is_some(),
            limbs matches Some(l) ==> l@.len() == number_of_limbs && forall|k: int|
                0 <= k < number_of_limbs ==> l@[k] == window(
                    scalar.unwrap()@,
                    width as nat,
                    k as nat,
                ),
            forall|k: int|
                0 <= k < assigned@.len() ==> (#[trigger] assigned@[k]).value == limb_value(
                    *scalar,
                    width as nat,
                    k as nat,
                ),
        decreases number_of_rows - row,
    {
        let start = 5 * row;
        let ghost begun = ctx@;
        ctx.enable(Selector::Windows);
        let ghost before = ctx@;
        let mut i: usize = 0;
        while i < 5
            invariant
                i <= 5,
                start == 5 * row,
                start < number_of_limbs,
                number_of_limbs == number_of_rounds(width as nat),
                number_of_limbs <= 255,
                ctx.wf(),
                ctx@ == before + Seq::new(
                    i as nat,
                    |k: int| limb_op(c, *scalar, width as nat, zero_cell, start as nat, k),
                ),
                assigned@.len() == if start + i <= number_of_limbs {
                    start + i
                } else {
                    number_of_limbs as int
                },
                limbs.is_some() == scalar.is_some(),
                limbs matches Some(l) ==> l@.len() == number_of_limbs && forall|k: int|
                    0 <= k < number_of_limbs ==> l@[k] == window(
                        scalar.unwrap()@,
                        width as nat,
                        k as nat,
                    ),
                forall|k: int|
                    0 <= k < assigned@.len() ==> (#[trigger] assigned@[k]).value == limb_value(
                        *scalar,
                        width as nat,
                        k as nat,
                    ),
            decreases 5 - i,
        {
            let column = if i == 0 {
                c.a0
            } else if i == 1 {
                c.a1
            } else if i == 2 {
                c.a2
            } else if i == 3 {
                c.a3
            } else {
                c.a4
            };
            if start + i < number_of_limbs {
                let value = match &limbs {
                    Some(l) => Some(Fe::from_u64(l[start + i])),
                    None => None,
                };
                let limb = ctx.advice(column, value);
                assigned.push(limb);
            } else {
                ctx.copy(column, &zero_cell);
            }
            proof {
                let f = |k: int| limb_op(c, *scalar, width as nat, zero_cell, start as nat, k);
                assert(Seq::new((i + 1) as nat, f) =~= Seq::new(i as nat, f).push(f(i as int)));
                assert(ctx@ =~= before + Seq::new((i + 1) as nat, f));
            }
            i = i + 1;
        }
        ctx.fixed(c.constant, Fe::zero());
        ctx.next();
        proof {
            let f = |k: int| limb_op(c, *scalar, width as nat, zero_cell, start as nat, k);
            assert(seq![Op::Enable(Selector::Windows)] + Seq::new(5, f).push(
                Op::Fixed(c.constant, zero()),
            ).push(Op::Next) =~= limb_row(c, *scalar, width as nat, zero_cell, start as nat));
            assert(before =~= begun + seq![Op::Enable(Selector::Windows)]);
            assert(ctx@ =~= base + limb_rows(
                c,
                *scalar,
                width as nat,
                zero_cell,
                (row + 1) as nat,
            ));
        }
        row = row + 1;
    }
    let mut r: Vec<AssignedValue> = Vec::new();
    let mut j: usize = assigned.len();
    while j > 0
        invariant
            j <= assigned@.len(),
            r@.len() == assigned@.len() - j,
            forall|k: int| 0 <= k < r@.len() ==> r@[k] == assigned@[assigned@.len() - 1 - k],
        decreases j,
    {
        j = j - 1;
        r.push(assigned[j]);
    }
    r
}

impl MSMGate {
    /// Lays out the windows of a scalar, five to a row and the least
    /// significant first, and returns their cells, the most significant
    /// first. The cells of a row past the last window are copies of zero,
    /// and the range of every cell of the rows is turned on.
    pub fn assign_scalar(&mut self, ctx: &mut RegionCtx, scalar: &Option<Scalar>) -> (r: Vec<
        AssignedValue,
    >)
        requires
            old(self).wf(),
            old(ctx).wf(),
        ensures
            final(self).wf(),
            final(ctx).wf(),
            final(self).same_setup(old(self)),
            final(self).memory == old(self).memory,
            r@.len() == number_of_rounds(old(self).window as nat),
            forall|j: int|
                0 <= j < r@.len() ==> (#[trigger] r@[j]).value == limb_value(
                    *scalar,
                    old(self).window as nat,
                    (r@.len() - 1 - j) as nat,
                ),
            ({
                let (cache, ops) = crate::gate::constant_step(
                    old(self).columns,
                    old(self).constants@,
                    old(ctx)@,
                    zero(),
                );
                &&& final(self).constants@ == cache
                &&& final(ctx)@ == ops + limb_rows(
                    old(self).columns,
                    *scalar,
                    old(self).window as nat,
                    cache[zero()],
                    (number_of_rounds(old(self).window as nat) + 4) / 5,
                )
            }),
    {
        let c = self.columns;
        let width = self.window;
        let zero_cell = self.get_constant(ctx, Fe::zero());
        assign_windows(&c, ctx, &zero_cell, width, scalar)
    }

    /// The region of the sorted trace: a row of zeros, then one row for each
    /// query, in the order by address and then by timestamp. While a query
    /// is unknown the rows hold unknown witnesses. Nothing where the sorted
    /// trace is known and does not alternate: the rows of odd index are
    /// marked as reads, so a write there, or a read elsewhere, has no row.
    pub fn layout_sorted_rw(&self) -> (r: Option<RegionCtx>)
        requires
            self.wf(),
        ensures
            r matches Some(ctx) ==> ctx.wf(),
            sorted_region(self.columns, self.memory.trace(), steps(r)),
    {
        let c = self.columns;
        let sorted = self.memory.sort();
        let number_of_queries = self.memory.timestamp();
        let ghost trace: Option<Seq<SortedQuery>> = if sorted.is_some() {
            Some(sorted.unwrap()@)
        } else {
            None
        };
        assert(sorts(trace, self.memory.trace()));
        let alternating = match &sorted {
            Some(t) => check_alternates(t),
            None => true,
        };
        if !alternating {
            return None;
        }
        let mut ctx = RegionCtx::new();
        crate::gate::all_zero(&c, &mut ctx);
        proof {
            assert(ctx@ =~= all_zero_ops(c));
            if sorted.is_some() {
                sorted.unwrap()@.to_multiset_ensures();
                timestamped(self.memory.trace()).to_multiset_ensures();
            }
        }
        let mut i: usize = 0;
        while i < number_of_queries
            invariant
                i <= number_of_queries,
                ctx.wf(),
                ctx@ == sorted_rows(c, trace, i as nat),
                sorted matches Some(t) ==> trace == Some(t@) && t@.len() == number_of_queries,
                sorted.is_none() ==> trace.is_none(),
            decreases number_of_queries - i,
        {
            let q = match &sorted {
                Some(t) => Some(t[i]),
                None => None,
            };
            sorted_entry(&c, &mut ctx, i, &q);
            i = i + 1;
        }
        Some(ctx)
    }

    /// The values of the range table: every window, from zero up.
    pub fn layout_range_table(&self) -> (r: Vec<Fe>)
        requires
            self.wf(),
        ensures
            r@.len() == pow2(self.window as nat),
            forall|i: int| 0 <= i < r@.len() ==> r@[i] == word(i as nat),
    {
        let max_limb = number_of_buckets(self.window);
        let mut r: Vec<Fe> = Vec::new();
        let mut i: u64 = 0;
        while i < max_limb
            invariant
                i <= max_limb,
                r@.len() == i,
                forall|k: int| 0 <= k < i ==> r@[k] == word(k as nat),
            decreases max_limb - i,
        {
            r.push(Fe::from_u64(i));
            i = i + 1;
        }
        r
    }
}

} // verus!
