//! A read/write memory of points: the trace of its queries, the state that
//! the witnesses are computed from, and the trace sorted by address and time.

use crate::curve::Point;
use crate::fe_map::FeMap;
use crate::field::{fadd, fe, lemma_fe_of_view, Fe};
use crate::gate::{coord_x, coord_y, unzip, zero};
use crate::region::{point_of, valid, Value};
use vstd::prelude::*;
use vstd::seq_lib::to_multiset_contains;

verus! {

/// One read or write, in the order of the calls.
#[derive(Clone, Copy, Debug, PartialEq, Eq, Structural)]
pub struct Query {
    pub is_read: bool,
    pub address: Value,
    pub x: Value,
    pub y: Value,
}

/// One read or write of known values, with its position in the trace.
#[derive(Clone, Copy, Debug, PartialEq, Eq, Structural)]
pub struct SortedQuery {
    pub is_read: bool,
    pub timestamp: usize,
    pub address: Fe,
    pub x: Fe,
    pub y: Fe,
}

impl Query {
    pub fn read(address: &Value, x: &Value, y: &Value) -> (r: Query)
        ensures
            r == (Query { is_read: true, address: *address, x: *x, y: *y }),
    {
        Query { is_read: true, address: *address, x: *x, y: *y }
    }

    pub fn write(address: &Value, x: &Value, y: &Value) -> (r: Query)
        ensures
            r == (Query { is_read: false, address: *address, x: *x, y: *y }),
    {
        Query { is_read: false, address: *address, x: *x, y: *y }
    }

    /// Address and both coordinates are known.
    pub open spec fn known(&self) -> bool {
        self.address.is_some() && self.x.is_some() && self.y.is_some()
    }

    /// The query is a write to `address`.
    pub open spec fn writes(&self, address: Fe) -> bool {
        !self.is_read && self.address == Some(address)
    }
}

/// The position of the last write to `address` among the first `n` queries.
pub open spec fn latest_write(queries: Seq<Query>, n: int, address: Fe) -> Option<int>
    decreases n,
{
    if n <= 0 {
        None
    } else if queries[n - 1].writes(address) {
        Some(n - 1)
    } else {
        latest_write(queries, n - 1, address)
    }
}

/// The point that a query carries, where both coordinates are known.
pub open spec fn carried(query: Query) -> Option<Point> {
    point_of(query.x, query.y)
}

/// If the `i`-th query is a read and something was written at its address
/// before it, the read returns what was last written there.
pub open spec fn read_latest(queries: Seq<Query>, i: int) -> bool {
    queries[i].is_read && queries[i].address.is_some() ==> (latest_write(
        queries,
        i,
        queries[i].address.unwrap(),
    ) matches Some(j) ==> carried(queries[i]) == carried(queries[j]))
}

/// Every read of a written address returns what was last written there.
pub open spec fn reads_latest(queries: Seq<Query>) -> bool {
    forall|i: int| 0 <= i < queries.len() ==> #[trigger] read_latest(queries, i)
}

/// If the trace writes to `address`, the state holds its last write there.
pub open spec fn holds_latest(
    state: Map<Fe, Option<Point>>,
    queries: Seq<Query>,
    address: Fe,
) -> bool {
    latest_write(queries, queries.len() as int, address) matches Some(j) ==> state.contains_key(
        address,
    ) && state[address] == carried(queries[j])
}

/// The queries of known values with their positions as timestamps.
pub open spec fn timestamped(queries: Seq<Query>) -> Seq<SortedQuery> {
    Seq::new(
        queries.len(),
        |i: int|
            SortedQuery {
                is_read: queries[i].is_read,
                timestamp: i as usize,
                address: queries[i].address.unwrap(),
                x: queries[i].x.unwrap(),
                y: queries[i].y.unwrap(),
            },
    )
}

/// `a` comes no later than `b` in the order by address, then by timestamp.
pub open spec fn precedes(a: SortedQuery, b: SortedQuery) -> bool {
    a.address@ < b.address@ || (a.address == b.address && a.timestamp <= b.timestamp)
}

/// The trace is in the order by address, then by timestamp.
pub open spec fn ordered(trace: Seq<SortedQuery>) -> bool {
    forall|i: int, j: int| 0 <= i < j < trace.len() ==> precedes(#[trigger] trace[i], #[trigger] trace[j])
}

/// The order of `sort_by_key` on the key `(l3, l2, l1, l0, timestamp)`, where
/// `l3` is the most significant limb of the address.
pub open spec fn key_le(a: SortedQuery, b: SortedQuery) -> bool {
    let (p, q) = (a.address, b.address);
    if p.l3 != q.l3 {
        p.l3 < q.l3
    } else if p.l2 != q.l2 {
        p.l2 < q.l2
    } else if p.l1 != q.l1 {
        p.l1 < q.l1
    } else if p.l0 != q.l0 {
        p.l0 < q.l0
    } else {
        a.timestamp <= b.timestamp
    }
}

/// The keys of the trace ascend.
pub open spec fn keys_ascend(trace: Seq<SortedQuery>) -> bool {
    forall|i: int, j: int| 0 <= i < j < trace.len() ==> key_le(#[trigger] trace[i], #[trigger] trace[j])
}

/// The order of the keys is the order by the value of the address, then by
/// timestamp.
pub proof fn lemma_key_order(a: SortedQuery, b: SortedQuery)
    ensures
        key_le(a, b) == precedes(a, b),
{
}

/// Every query of the trace is known.
pub open spec fn all_known(queries: Seq<Query>) -> bool {
    forall|i: int| 0 <= i < queries.len() ==> (#[trigger] queries[i]).known()
}

/// Every read follows a write to its address.
pub open spec fn written_before_read(queries: Seq<Query>) -> bool {
    forall|i: int|
        0 <= i < queries.len() && (#[trigger] queries[i]).is_read && queries[i].address.is_some()
            ==> latest_write(queries, i, queries[i].address.unwrap()).is_some()
}

/// A read of the sorted trace repeats the address and the point of the row
/// before it.
pub open spec fn echoes(trace: Seq<SortedQuery>, i: int) -> bool {
    trace[i].is_read ==> i > 0 && trace[i - 1].address == trace[i].address && trace[i - 1].x
        == trace[i].x && trace[i - 1].y == trace[i].y
}

/// What the sorted region asks of its `i`-th entry and the one before it,
/// which for the first entry is the row of zeros: the address is the same
/// or one more; a read repeats the point; and at the same address the
/// timestamp grows.
pub open spec fn transition(trace: Seq<SortedQuery>, i: int) -> bool {
    let cur = trace[i];
    let (address, x, y) = if i == 0 {
        (zero(), zero(), zero())
    } else {
        (trace[i - 1].address, trace[i - 1].x, trace[i - 1].y)
    };
    &&& cur.address == address || cur.address == fe(fadd(address@, 1))
    &&& cur.is_read ==> cur.x == x && cur.y == y
    &&& i > 0 && cur.address == address ==> trace[i - 1].timestamp < cur.timestamp
}

/// Every entry of the sorted trace satisfies what the sorted region asks.
pub open spec fn transitions_hold(trace: Seq<SortedQuery>) -> bool {
    forall|i: int| 0 <= i < trace.len() ==> #[trigger] transition(trace, i)
}

/// At each address the first entry of the sorted trace is a write.
pub open spec fn writes_come_first(trace: Seq<SortedQuery>) -> bool {
    forall|i: int|
        0 <= i < trace.len() && (i == 0 || trace[i - 1].address != trace[i].address) ==> !(
        #[trigger] trace[i]).is_read
}

/// Tests whether the sorted trace satisfies what the sorted region asks.
pub fn check_sorted_trace(trace: &Vec<SortedQuery>) -> (r: bool)
    ensures
        r == transitions_hold(trace@),
{
    let mut i: usize = 0;
    while i < trace.len()
        invariant
            i <= trace@.len(),
            forall|k: int| 0 <= k < i ==> #[trigger] transition(trace@, k),
        decreases trace@.len() - i,
    {
        let cur = trace[i];
        let (address, x, y) = if i == 0 {
            (Fe::zero(), Fe::zero(), Fe::zero())
        } else {
            (trace[i - 1].address, trace[i - 1].x, trace[i - 1].y)
        };
        let next = address.add(&Fe::one());
        proof {
            lemma_fe_of_view(next);
        }
        let stepped = cur.address == address || cur.address == next;
        let echoed = !cur.is_read || (cur.x == x && cur.y == y);
        let later = !(i > 0 && cur.address == address) || trace[i - 1].timestamp < cur.timestamp;
        if !(stepped && echoed && later) {
            assert(!transition(trace@, i as int));
            return false;
        }
        i = i + 1;
    }
    true
}

/// In a sorted trace that satisfies what the sorted region asks, and in
/// which the first entry at each address is a write, every read repeats the
/// address and the point of the entry before it.
pub proof fn lemma_transitions_echo(trace: Seq<SortedQuery>, i: int)
    requires
        transitions_hold(trace),
        writes_come_first(trace),
        0 <= i < trace.len(),
    ensures
        echoes(trace, i),
{
    assert(transition(trace, i));
}

/// The memory behind the bucket method.
pub struct Memory {
    queries: Vec<Query>,
    state: FeMap<Option<Point>>,
}

impl Memory {
    /// The trace of the queries made so far.
    pub closed spec fn trace(&self) -> Seq<Query> {
        self.queries@
    }

    /// What the memory holds, by address.
    pub closed spec fn state(&self) -> Map<Fe, Option<Point>> {
        self.state@
    }

    /// The state holds the last write of the trace at each address that the
    /// trace writes to, and every read of the trace returns the last write
    /// before it.
    pub open spec fn wf(&self) -> bool {
        &&& forall|a: Fe| #[trigger] holds_latest(self.state(), self.trace(), a)
        &&& reads_latest(self.trace())
    }

    /// Every pair that the state holds is a point of the curve, or unknown.
    pub open spec fn on_curve(&self) -> bool {
        forall|a: Fe| self.state().contains_key(a) ==> valid(#[trigger] self.state()[a])
    }

    /// An empty memory.
    pub fn new() -> (r: Memory)
        ensures
            r.wf(),
            r.on_curve(),
            r.trace() == Seq::<Query>::empty(),
            r.state() == Map::<Fe, Option<Point>>::empty(),
    {
        Memory { queries: Vec::new(), state: FeMap::new() }
    }

    /// Forgets the trace and keeps the state.
    pub fn clear_queries(&mut self)
        requires
            old(self).wf(),
        ensures
            final(self).wf(),
            final(self).trace() == Seq::<Query>::empty(),
            final(self).state() == old(self).state(),
    {
        self.queries.clear();
        proof {
            assert(self.trace() =~= Seq::<Query>::empty());
            assert(self.state() == old(self).state());
            assert forall|a: Fe| #[trigger] holds_latest(self.state(), self.trace(), a) by {
                assert(latest_write(self.trace(), 0, a).is_none());
            }
            assert(reads_latest(self.trace()));
        }
    }

    /// Forgets the trace and the state.
    pub fn clear(&mut self)
        ensures
            final(self).wf(),
            final(self).on_curve(),
            final(self).trace() == Seq::<Query>::empty(),
            final(self).state() == Map::<Fe, Option<Point>>::empty(),
    {
        self.queries.clear();
        self.state.clear();
        proof {
            assert(self.trace() =~= Seq::<Query>::empty());
            assert forall|a: Fe| #[trigger] holds_latest(self.state(), self.trace(), a) by {
                assert(latest_write(self.trace(), 0, a).is_none());
            }
        }
    }

    /// The timestamp of the next query.
    pub fn timestamp(&self) -> (r: usize)
        ensures
            r == self.trace().len(),
    {
        self.queries.len()
    }

    /// Whether anything was written at `address`.
    pub fn contains(&self, address: &Fe) -> (r: bool)
        ensures
            r == self.state().contains_key(*address),
    {
        self.state.get(address).is_some()
    }

    /// Reads the point at `address` and records the read. An unknown address
    /// gives an unknown point. Something must have been written at the
    /// address, and what it holds must be a point of the curve.
    pub fn read(&mut self, address: &Value) -> (r: Option<Point>)
        requires
            old(self).wf(),
            *address matches Some(a) ==> old(self).state().contains_key(a) && valid(
                old(self).state()[a],
            ),
        ensures
            final(self).wf(),
            valid(r),
            r == match *address {
                Some(a) => old(self).state()[a],
                None => None,
            },
            final(self).trace() == old(self).trace().push(
                Query { is_read: true, address: *address, x: coord_x(r), y: coord_y(r) },
            ),
            final(self).state() == old(self).state(),
    {
        let r = match address {
            Some(a) => self.state.get(a).unwrap(),
            None => None,
        };
        let (x, y) = unzip(&r);
        let query = Query::read(address, &x, &y);
        proof {
            let q = self.trace();
            let p = q.push(query);
            let before = self.state();
            assert forall|a: Fe| #[trigger] holds_latest(self.state@, p, a) by {
                assert(holds_latest(before, q, a));
                lemma_latest_write_prefix(q, p, q.len() as int, a);
            }
            assert forall|i: int| 0 <= i < p.len() implies #[trigger] read_latest(p, i) by {
                if p[i].address.is_some() {
                    let a = p[i].address.unwrap();
                    lemma_latest_write_prefix(q, p, i, a);
                    if i < q.len() {
                        assert(read_latest(q, i));
                    } else {
                        assert(holds_latest(before, q, a));
                    }
                }
            }
        }
        self.add_query(&query);
        r
    }

    /// Writes a pair at `address`, on the curve or not, and records the
    /// write. With an unknown address the state stays as it is.
    pub fn write(&mut self, address: &Value, coords: &Option<Point>)
        requires
            old(self).wf(),
        ensures
            final(self).wf(),
            final(self).trace() == old(self).trace().push(
                Query {
                    is_read: false,
                    address: *address,
                    x: coord_x(*coords),
                    y: coord_y(*coords),
                },
            ),
            final(self).state() == match *address {
                Some(a) => old(self).state().insert(a, *coords),
                None => old(self).state(),
            },
    {
        let (x, y) = unzip(coords);
        let query = Query::write(address, &x, &y);
        let ghost q = self.trace();
        let ghost p = q.push(query);
        let ghost before = self.state();
        match address {
            Some(a) => {
                self.state.insert(*a, *coords);
            },
            None => {},
        }
        proof {
            assert forall|a: Fe| #[trigger] holds_latest(self.state@, p, a) by {
                assert(holds_latest(before, q, a));
                lemma_latest_write_prefix(q, p, q.len() as int, a);
            }
            assert forall|i: int| 0 <= i < p.len() implies #[trigger] read_latest(p, i) by {
                if p[i].address.is_some() {
                    let a = p[i].address.unwrap();
                    lemma_latest_write_prefix(q, p, i, a);
                    if i < q.len() {
                        assert(read_latest(q, i));
                    } else {
                        assert(holds_latest(before, q, a));
                    }
                }
            }
        }
        self.queries.push(query);
    }

    /// The trace with timestamps, in the order by address and then by
    /// timestamp; nothing while a query of the trace is unknown.
    pub fn sort(&self) -> (r: Option<Vec<SortedQuery>>)
        ensures
            r.is_some() == all_known(self.trace()),
            r matches Some(t) ==> t@.to_multiset() == timestamped(self.trace()).to_multiset()
                && ordered(t@),
    {
        let mut trace: Vec<SortedQuery> = Vec::new();
        let mut i: usize = 0;
        while i < self.queries.len()
            invariant
                i <= self.queries@.len(),
                trace@.len() == i,
                forall|k: int| 0 <= k < i ==> (#[trigger] self.queries@[k]).known(),
                forall|k: int| 0 <= k < i ==> trace@[k] == timestamped(self.queries@)[k],
            decreases self.queries@.len() - i,
        {
            let q = &self.queries[i];
            match (q.address, q.x, q.y) {
                (Some(address), Some(x), Some(y)) => {
                    trace.push(SortedQuery { is_read: q.is_read, timestamp: i, address, x, y });
                },
                _ => {
                    assert(!self.queries@[i as int].known());
                    return None;
                },
            }
            i = i + 1;
        }
        assert(trace@ =~= timestamped(self.queries@));
        sort_trace(&mut trace);
        proof {
            assert forall|i: int, j: int| 0 <= i < j < trace@.len() implies precedes(
                #[trigger] trace@[i],
                #[trigger] trace@[j],
            ) by {
                lemma_key_order(trace@[i], trace@[j]);
            }
        }
        Some(trace)
    }

    /// Records a query, whatever it says.
    pub fn add_query(&mut self, query: &Query)
        ensures
            final(self).trace() == old(self).trace().push(*query),
            final(self).state() == old(self).state(),
    {
        self.queries.push(*query);
    }
}

/// `sort_by_key` of slices, with the key `(l3, l2, l1, l0, timestamp)` of
/// integers: the same items, their keys ascending.
#[verifier::external_body]
fn sort_trace(trace: &mut Vec<SortedQuery>)
    ensures
        final(trace)@.to_multiset() == old(trace)@.to_multiset(),
        keys_ascend(final(trace)@),
{
    trace.sort_by_key(|q| (q.address.l3, q.address.l2, q.address.l1, q.address.l0, q.timestamp));
}

/// The last write among the first `n` queries depends on those alone.
pub proof fn lemma_latest_write_prefix(q: Seq<Query>, p: Seq<Query>, n: int, a: Fe)
    requires
        n <= q.len() <= p.len(),
        forall|i: int| 0 <= i < q.len() ==> q[i] == p[i],
    ensures
        latest_write(p, n, a) == latest_write(q, n, a),
        latest_write(q, n, a) matches Some(j) ==> 0 <= j < n && q[j].writes(a),
    decreases n,
{
    if n > 0 {
        lemma_latest_write_prefix(q, p, n - 1, a);
    }
}

/// No write to the address lies between the last write and the end.
pub proof fn lemma_latest_write_last(q: Seq<Query>, n: int, a: Fe, k: int)
    requires
        n <= q.len(),
        latest_write(q, n, a) matches Some(j) && j <= k < n,
    ensures
        latest_write(q, k + 1, a) == latest_write(q, n, a),
        latest_write(q, n, a).unwrap() < k ==> !q[k].writes(a) && latest_write(q, k, a)
            == latest_write(q, n, a),
    decreases n,
{
    lemma_latest_write_prefix(q, q, n, a);
    if k < n - 1 {
        if q[n - 1].writes(a) {
        } else {
            lemma_latest_write_last(q, n - 1, a, k);
        }
    } else {
        let j = latest_write(q, n, a).unwrap();
        if j < k {
            lemma_latest_write_prefix(q, q, k, a);
        }
    }
}

/// In the sorted trace of a memory whose reads follow writes, every read
/// repeats the row before it: the sorted trace is a reordering of the
/// queries with their timestamps, ordered by address and then by timestamp,
/// and a read returns the last write to its address, so the row before a
/// read is that write or a later read of the same point.
pub proof fn lemma_sorted_reads_echo(q: Seq<Query>, t: Seq<SortedQuery>, i: int)
    requires
        q.len() <= usize::MAX,
        all_known(q),
        reads_latest(q),
        written_before_read(q),
        t.to_multiset() == timestamped(q).to_multiset(),
        ordered(t),
        0 <= i < t.len(),
    ensures
        echoes(t, i),
{
    let tq = timestamped(q);
    if t[i].is_read {
        let a = t[i].address;
        // the read, in the trace
        assert(t.contains(t[i]));
        to_multiset_contains(t, t[i]);
        to_multiset_contains(tq, t[i]);
        let m = choose|m: int| 0 <= m < tq.len() && tq[m] == t[i];
        assert(q[m].known());
        assert(read_latest(q, m));
        let j = latest_write(q, m, a).unwrap();
        lemma_latest_write_prefix(q, q, m, a);
        assert(q[j].known());
        // the write, in the sorted trace
        assert(tq.contains(tq[j]));
        to_multiset_contains(tq, tq[j]);
        to_multiset_contains(t, tq[j]);
        let p = choose|p: int| 0 <= p < t.len() && t[p] == tq[j];
        if p > i {
            assert(precedes(t[i], t[p]));
        }
        assert(p < i);
        // the row before the read
        let b = t[i - 1];
        assert(precedes(b, t[i]));
        if p < i - 1 {
            assert(precedes(t[p], b));
        }
        assert(b.address@ == a@);
        lemma_fe_of_view(b.address);
        lemma_fe_of_view(a);
        assert(t.contains(b));
        to_multiset_contains(t, b);
        to_multiset_contains(tq, b);
        let n = choose|n: int| 0 <= n < tq.len() && tq[n] == b;
        assert(q[n].known());
        assert(j <= n <= m);
        if n < m {
            lemma_latest_write_last(q, m, a, n);
            if j < n {
                assert(read_latest(q, n));
            }
        }
    }
}

/// In a sorted trace whose reads repeat the row before them, every read
/// returns the point of the last write to its address before it: there is a
/// write at the same address with the same point, earlier in the trace, with
/// nothing but reads of that address between the two.
pub proof fn lemma_read_returns_latest_write(t: Seq<SortedQuery>, i: int) -> (j: int)
    requires
        forall|k: int| 0 <= k < t.len() ==> #[trigger] echoes(t, k),
        0 <= i < t.len(),
        t[i].is_read,
    ensures
        0 <= j < i,
        !t[j].is_read,
        t[j].address == t[i].address && t[j].x == t[i].x && t[j].y == t[i].y,
        forall|k: int| j < k <= i ==> (#[trigger] t[k]).is_read && t[k].address == t[i].address,
    decreases i,
{
    assert(echoes(t, i));
    if t[i - 1].is_read {
        lemma_read_returns_latest_write(t, i - 1)
    } else {
        i - 1
    }
}

} // verus!
