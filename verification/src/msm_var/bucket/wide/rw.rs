//! A memory of points in which every query reads what an address holds and
//! writes something in its place, and the trace of the queries sorted by
//! address and time.

use crate::curve::Point;
use crate::fe_map::FeMap;
use crate::field::{fadd, fe, lemma_fe_of_view, Fe};
use crate::gate::{coord_x, coord_y, unzip, zero};
use crate::region::{valid, Value};
use vstd::prelude::*;
use vstd::seq_lib::to_multiset_contains;

verus! {

/// What the memory holds at an address that was written to: nothing any
/// more, or a point that may be unknown.
#[derive(Clone, Copy, Debug, PartialEq, Eq, Structural)]
pub enum Content {
    Zero,
    Holds(Option<Point>),
}

/// One query: what was read at the address and what was written there.
#[derive(Clone, Copy, Debug, PartialEq, Eq, Structural)]
pub struct Query {
    pub address: Value,
    pub x0: Value,
    pub y0: Value,
    pub x1: Value,
    pub y1: Value,
}

/// One query of known values, with its position in the trace.
#[derive(Clone, Copy, Debug, PartialEq, Eq, Structural)]
pub struct SortedQuery {
    pub timestamp: usize,
    pub address: Fe,
    pub x0: Fe,
    pub y0: Fe,
    pub x1: Fe,
    pub y1: Fe,
}

/// The coordinates that the cells of a query show for what an address
/// holds: zeros where it holds nothing.
pub open spec fn shown(content: Option<Content>) -> (Value, Value) {
    match content {
        Some(Content::Holds(p)) => (coord_x(p), coord_y(p)),
        _ => (Some(zero()), Some(zero())),
    }
}

/// What the state holds at an address, if it was written to.
pub open spec fn held(state: Map<Fe, Content>, address: Fe) -> Option<Content> {
    if state.contains_key(address) {
        Some(state[address])
    } else {
        None
    }
}

/// The points of a state, by address.
pub open spec fn points_of(state: Map<Fe, Content>) -> Map<Fe, Option<Point>> {
    Map::new(
        |a: Fe| state.contains_key(a) && state[a] is Holds,
        |a: Fe| state[a]->Holds_0,
    )
}

/// The position of the last query at `address` among the first `n` queries.
pub open spec fn latest(queries: Seq<Query>, n: int, address: Fe) -> Option<int>
    decreases n,
{
    if n <= 0 {
        None
    } else if queries[n - 1].address == Some(address) {
        Some(n - 1)
    } else {
        latest(queries, n - 1, address)
    }
}

/// The `i`-th query read what the last query at its address before it
/// wrote, or zeros where there was none.
pub open spec fn chained(queries: Seq<Query>, i: int) -> bool {
    queries[i].address matches Some(a) ==> (queries[i].x0, queries[i].y0) == match latest(
        queries,
        i,
        a,
    ) {
        Some(j) => (queries[j].x1, queries[j].y1),
        None => (Some(zero()), Some(zero())),
    }
}

/// The state shows at `address` what the last query there wrote, or holds
/// nothing where there was none.
pub open spec fn current(state: Map<Fe, Content>, queries: Seq<Query>, address: Fe) -> bool {
    match latest(queries, queries.len() as int, address) {
        Some(j) => state.contains_key(address) && shown(Some(state[address])) == (
            queries[j].x1,
            queries[j].y1,
        ),
        None => !state.contains_key(address),
    }
}

/// The queries of known values with their positions as timestamps.
pub open spec fn timestamped(queries: Seq<Query>) -> Seq<SortedQuery> {
    Seq::new(
        queries.len(),
        |i: int|
            SortedQuery {
                timestamp: i as usize,
                address: queries[i].address.unwrap(),
                x0: queries[i].x0.unwrap(),
                y0: queries[i].y0.unwrap(),
                x1: queries[i].x1.unwrap(),
                y1: queries[i].y1.unwrap(),
            },
    )
}

/// Address and all coordinates of the query are known.
pub open spec fn known(q: Query) -> bool {
    q.address.is_some() && q.x0.is_some() && q.y0.is_some() && q.x1.is_some() && q.y1.is_some()
}

/// Every query of the trace is known.
pub open spec fn all_known(queries: Seq<Query>) -> bool {
    forall|i: int| 0 <= i < queries.len() ==> known(#[trigger] queries[i])
}

/// The order of `sort_by_key` on the key `(l3, l2, l1, l0, timestamp)`, where
/// `l3` is the most significant limb of the address.
pub open spec fn key_le(a: SortedQuery, b: SortedQuery) -> bool {
    let (p, q) = (a.address, b.address);
    if p.l3 != q.l3 {
        p.l3 < q.l3
    } else if p.l2 != q.l2 {
        p.l2 < q.l2
    } else if p.l1 != q.l1 {
        p.l1 < q.l1
    } else if p.l0 != q.l0 {
        p.l0 < q.l0
    } else {
        a.timestamp <= b.timestamp
    }
}

/// The keys of the trace ascend.
pub open spec fn keys_ascend(trace: Seq<SortedQuery>) -> bool {
    forall|i: int, j: int| 0 <= i < j < trace.len() ==> key_le(#[trigger] trace[i], #[trigger] trace[j])
}

/// `a` comes no later than `b` in the order by address, then by timestamp.
pub open spec fn precedes(a: SortedQuery, b: SortedQuery) -> bool {
    a.address@ < b.address@ || (a.address == b.address && a.timestamp <= b.timestamp)
}

/// The trace is in the order by address, then by timestamp.
pub open spec fn ordered(trace: Seq<SortedQuery>) -> bool {
    forall|i: int, j: int| 0 <= i < j < trace.len() ==> precedes(#[trigger] trace[i], #[trigger] trace[j])
}

/// What the sorted region asks of its `i`-th entry and the one before it,
/// which for the first entry is the row of zeros: the address is the same
/// or one more; at the same address the entry reads what the entry before
/// it wrote, and the timestamp grows.
pub open spec fn transition(trace: Seq<SortedQuery>, i: int) -> bool {
    let cur = trace[i];
    let (address, x, y) = if i == 0 {
        (zero(), zero(), zero())
    } else {
        (trace[i - 1].address, trace[i - 1].x1, trace[i - 1].y1)
    };
    &&& cur.address == address || cur.address == fe(fadd(address@, 1))
    &&& cur.address == address ==> cur.x0 == x && cur.y0 == y
    &&& i > 0 && cur.address == address ==> trace[i - 1].timestamp < cur.timestamp
}

/// What the lookup of the wide layout binds: the address of every query is
/// the address of an entry of the sorted trace. Points and timestamps are
/// not looked up, so this alone does not make the sorted trace a reordering
/// of the queries; `to_multiset` equality, which `sort` gives, does.
pub open spec fn addresses_bound(queries: Seq<Query>, trace: Seq<SortedQuery>) -> bool {
    forall|i: int|
        0 <= i < queries.len() ==> (#[trigger] queries[i]).address.is_some() && exists|j: int|
            0 <= j < trace.len() && (#[trigger] trace[j]).address == queries[i].address.unwrap()
}

/// A reordering of the queries binds their addresses.
pub proof fn lemma_sorted_binds_addresses(queries: Seq<Query>, trace: Seq<SortedQuery>)
    requires
        all_known(queries),
        trace.to_multiset() == timestamped(queries).to_multiset(),
    ensures
        addresses_bound(queries, trace),
{
    let stamped = timestamped(queries);
    assert forall|i: int| 0 <= i < queries.len() implies (#[trigger] queries[i]).address.is_some()
        && exists|j: int|
        0 <= j < trace.len() && (#[trigger] trace[j]).address == queries[i].address.unwrap() by {
        assert(known(queries[i]));
        assert(stamped.contains(stamped[i]));
        vstd::seq_lib::to_multiset_contains(stamped, stamped[i]);
        vstd::seq_lib::to_multiset_contains(trace, stamped[i]);
        let j = choose|j: int| 0 <= j < trace.len() && trace[j] == stamped[i];
        assert(trace[j].address == queries[i].address.unwrap());
    }
}

/// Every entry of the sorted trace satisfies what the sorted region asks.
pub open spec fn transitions_hold(trace: Seq<SortedQuery>) -> bool {
    forall|i: int| 0 <= i < trace.len() ==> #[trigger] transition(trace, i)
}

/// Tests whether the sorted trace satisfies what the sorted region asks.
pub fn check_sorted_trace(trace: &Vec<SortedQuery>) -> (r: bool)
    ensures
        r == transitions_hold(trace@),
{
    let mut i: usize = 0;
    while i < trace.len()
        invariant
            i <= trace@.len(),
            forall|k: int| 0 <= k < i ==> #[trigger] transition(trace@, k),
        decreases trace@.len() - i,
    {
        let cur = trace[i];
        let (address, x, y) = if i == 0 {
            (Fe::zero(), Fe::zero(), Fe::zero())
        } else {
            (trace[i - 1].address, trace[i - 1].x1, trace[i - 1].y1)
        };
        let next = address.add(&Fe::one());
        proof {
            lemma_fe_of_view(next);
        }
        let same = cur.address == address;
        let stepped = same || cur.address == next;
        let echoed = !same || (cur.x0 == x && cur.y0 == y);
        let later = !(i > 0 && same) || trace[i - 1].timestamp < cur.timestamp;
        if !(stepped && echoed && later) {
            assert(!transition(trace@, i as int));
            return false;
        }
        i = i + 1;
    }
    true
}

/// The query that puts `content` in the place of what the address holds:
/// it shows what the address held, zeros where it held nothing, and the
/// content. With an unknown address what it held is unknown.
pub open spec fn replaced(state: Map<Fe, Content>, address: Value, content: Content) -> Query {
    let (x0, y0) = match address {
        Some(a) => shown(held(state, a)),
        None => (None, None),
    };
    Query { address, x0, y0, x1: shown(Some(content)).0, y1: shown(Some(content)).1 }
}

/// The memory behind the wide layout of the bucket method.
pub struct Memory {
    queries: Vec<Query>,
    state: FeMap<Content>,
}

impl Memory {
    /// The trace of the queries made so far.
    pub closed spec fn trace(&self) -> Seq<Query> {
        self.queries@
    }

    /// What the memory holds, by address.
    pub closed spec fn state(&self) -> Map<Fe, Content> {
        self.state@
    }

    /// The points that the memory holds, by address.
    pub open spec fn points(&self) -> Map<Fe, Option<Point>> {
        points_of(self.state())
    }

    /// The state shows at each address what the last query there wrote, and
    /// every query read what the query before it at its address wrote.
    pub open spec fn wf(&self) -> bool {
        &&& forall|a: Fe| #[trigger] current(self.state(), self.trace(), a)
        &&& forall|i: int| 0 <= i < self.trace().len() ==> #[trigger] chained(self.trace(), i)
    }

    /// Every pair that the state holds is a point of the curve, or unknown.
    pub open spec fn on_curve(&self) -> bool {
        forall|a: Fe|
            self.state().contains_key(a) ==> ((#[trigger] self.state()[a]) matches Content::Holds(
                p,
            ) ==> valid(p))
    }

    /// An empty memory.
    pub fn new() -> (r: Memory)
        ensures
            r.wf(),
            r.on_curve(),
            r.trace() == Seq::<Query>::empty(),
            r.state() == Map::<Fe, Content>::empty(),
    {
        let r = Memory { queries: Vec::new(), state: FeMap::new() };
        proof {
            assert forall|a: Fe| #[trigger] current(r.state(), r.trace(), a) by {
                assert(latest(r.trace(), 0, a).is_none());
            }
        }
        r
    }

    /// Forgets the trace and the state.
    pub fn clear(&mut self)
        ensures
            final(self).wf(),
            final(self).on_curve(),
            final(self).trace() == Seq::<Query>::empty(),
            final(self).state() == Map::<Fe, Content>::empty(),
    {
        self.queries.clear();
        self.state.clear();
        proof {
            assert(self.trace() =~= Seq::<Query>::empty());
            assert forall|a: Fe| #[trigger] current(self.state(), self.trace(), a) by {
                assert(latest(self.trace(), 0, a).is_none());
            }
        }
    }

    /// The timestamp of the next query.
    pub fn timestamp(&self) -> (r: usize)
        ensures
            r == self.trace().len(),
    {
        self.queries.len()
    }

    /// What the next query at the address shows as read: the coordinates
    /// of the pair there, zeros where nothing is held or nothing was
    /// written. An unknown address shows unknown coordinates.
    pub fn previous(&self, address: &Value) -> (r: (Value, Value))
        ensures
            r == match *address {
                Some(a) => shown(held(self.state(), a)),
                None => (None, None),
            },
    {
        match address {
            Some(a) => match self.state.get(a) {
                Some(Content::Holds(p)) => unzip(&p),
                _ => (Some(Fe::zero()), Some(Fe::zero())),
            },
            None => (None, None),
        }
    }

    /// Reads the coordinates of the pair at the address, zeros where a
    /// write left nothing. An unknown address gives unknown coordinates.
    /// Something must have been written at the address.
    pub fn read(&self, address: &Value) -> (r: (Value, Value))
        requires
            *address matches Some(a) ==> self.state().contains_key(a),
        ensures
            r == match *address {
                Some(a) => shown(Some(self.state()[a])),
                None => (None, None),
            },
    {
        self.previous(address)
    }

    /// The point at the address, where the memory holds one.
    pub fn point_at(&self, address: &Value) -> (r: Option<Point>)
        requires
            self.wf(),
            self.on_curve(),
            *address matches Some(a) ==> self.points().contains_key(a),
        ensures
            valid(r),
            r == match *address {
                Some(a) => self.points()[a],
                None => None,
            },
    {
        match address {
            Some(a) => match self.state.get(a) {
                Some(Content::Holds(p)) => p,
                _ => None,
            },
            None => None,
        }
    }

    /// Puts `content` in the place of what the address holds and records
    /// the query.
    fn replace(&mut self, address: &Value, content: Content)
        requires
            old(self).wf(),
        ensures
            final(self).wf(),
            final(self).trace() == old(self).trace().push(
                replaced(old(self).state(), *address, content),
            ),
            final(self).state() == match *address {
                Some(a) => old(self).state().insert(a, content),
                None => old(self).state(),
            },
    {
        let (x0, y0) = self.previous(address);
        let ghost q = self.trace();
        let ghost before = self.state();
        let (x1, y1) = match content {
            Content::Holds(p) => unzip(&p),
            Content::Zero => (Some(Fe::zero()), Some(Fe::zero())),
        };
        match address {
            Some(a) => {
                self.state.insert(*a, content);
            },
            None => {},
        }
        let query = Query { address: *address, x0, y0, x1, y1 };
        proof {
            let p = q.push(query);
            assert forall|a: Fe| #[trigger] current(self.state(), p, a) by {
                assert(current(before, q, a));
                lemma_latest_prefix(q, p, q.len() as int, a);
            }
            assert forall|i: int| 0 <= i < p.len() implies #[trigger] chained(p, i) by {
                if p[i].address.is_some() {
                    let a = p[i].address.unwrap();
                    lemma_latest_prefix(q, p, i, a);
                    if i < q.len() {
                        assert(chained(q, i));
                    } else {
                        assert(current(before, q, a));
                    }
                }
            }
        }
        self.queries.push(query);
    }

    /// Writes a pair, on the curve or not, in the place of what the address
    /// holds, and records the query: what the address showed before, zeros
    /// where nothing was written, and the pair.
    pub fn write(&mut self, address: &Value, coords: &Option<Point>)
        requires
            old(self).wf(),
        ensures
            final(self).wf(),
            final(self).trace() == old(self).trace().push(
                replaced(old(self).state(), *address, Content::Holds(*coords)),
            ),
            final(self).state() == match *address {
                Some(a) => old(self).state().insert(a, Content::Holds(*coords)),
                None => old(self).state(),
            },
    {
        self.replace(address, Content::Holds(*coords));
    }

    /// Puts nothing in the place of what the address holds, and records
    /// the query: what the address showed before, and zeros.
    pub fn dummy_write(&mut self, address: &Value)
        requires
            old(self).wf(),
        ensures
            final(self).wf(),
            final(self).trace() == old(self).trace().push(
                replaced(old(self).state(), *address, Content::Zero),
            ),
            final(self).state() == match *address {
                Some(a) => old(self).state().insert(a, Content::Zero),
                None => old(self).state(),
            },
    {
        self.replace(address, Content::Zero);
    }

    /// The trace with timestamps, in the order by address and then by
    /// timestamp; nothing while a query of the trace is unknown.
    pub fn sort(&self) -> (r: Option<Vec<SortedQuery>>)
        ensures
            r.is_some() == all_known(self.trace()),
            r matches Some(t) ==> t@.to_multiset() == timestamped(self.trace()).to_multiset()
                && ordered(t@),
    {
        let mut trace: Vec<SortedQuery> = Vec::new();
        let mut i: usize = 0;
        while i < self.queries.len()
            invariant
                i <= self.queries@.len(),
                trace@.len() == i,
                forall|k: int| 0 <= k < i ==> known(#[trigger] self.queries@[k]),
                forall|k: int| 0 <= k < i ==> trace@[k] == timestamped(self.queries@)[k],
            decreases self.queries@.len() - i,
        {
            let q = &self.queries[i];
            match (q.address, q.x0, q.y0, q.x1, q.y1) {
                (Some(address), Some(x0), Some(y0), Some(x1), Some(y1)) => {
                    trace.push(SortedQuery { timestamp: i, address, x0, y0, x1, y1 });
                },
                _ => {
                    assert(!known(self.queries@[i as int]));
                    return None;
                },
            }
            i = i + 1;
        }
        assert(trace@ =~= timestamped(self.queries@));
        sort_trace(&mut trace);
        proof {
            assert forall|i: int, j: int| 0 <= i < j < trace@.len() implies precedes(
                #[trigger] trace@[i],
                #[trigger] trace@[j],
            ) by {
                assert(key_le(trace@[i], trace@[j]) == precedes(trace@[i], trace@[j]));
            }
        }
        Some(trace)
    }
}

/// `sort_by_key` of slices, with the key `(l3, l2, l1, l0, timestamp)` of
/// integers: the same items, their keys ascending.
#[verifier::external_body]
fn sort_trace(trace: &mut Vec<SortedQuery>)
    ensures
        final(trace)@.to_multiset() == old(trace)@.to_multiset(),
        keys_ascend(final(trace)@),
{
    trace.sort_by_key(|q| (q.address.l3, q.address.l2, q.address.l1, q.address.l0, q.timestamp));
}

/// The last query at an address before position `n` is no earlier than any
/// query at that address before `n`.
pub proof fn lemma_latest_is_last(q: Seq<Query>, n: int, a: Fe, k: int)
    requires
        0 <= k < n <= q.len(),
        q[k].address == Some(a),
    ensures
        latest(q, n, a) matches Some(j) && k <= j < n && q[j].address == Some(a),
    decreases n,
{
    if q[n - 1].address != Some(a) {
        lemma_latest_is_last(q, n - 1, a, k);
    }
}

/// In the sorted trace of a memory, an entry at the address of the entry
/// before it reads what that entry wrote: the sorted trace is a reordering
/// of the queries with their timestamps, ordered by address and then by
/// timestamp, and a query reads what the last query at its address wrote.
pub proof fn lemma_sorted_chain(q: Seq<Query>, t: Seq<SortedQuery>, i: int)
    requires
        q.len() <= usize::MAX,
        all_known(q),
        forall|k: int| 0 <= k < q.len() ==> #[trigger] chained(q, k),
        t.to_multiset() == timestamped(q).to_multiset(),
        ordered(t),
        0 < i < t.len(),
        t[i - 1].address == t[i].address,
    ensures
        t[i].x0 == t[i - 1].x1,
        t[i].y0 == t[i - 1].y1,
{
    let tq = timestamped(q);
    let a = t[i].address;
    // no query occurs twice in the sorted trace
    assert(tq.no_duplicates()) by {
        assert forall|x: int, y: int| 0 <= x < tq.len() && 0 <= y < tq.len() && x != y implies tq[x]
            != tq[y] by {
            assert(tq[x].timestamp == x && tq[y].timestamp == y);
        }
    }
    tq.lemma_multiset_has_no_duplicates();
    t.lemma_multiset_has_no_duplicates_conv();
    assert(t[i - 1] != t[i]);
    // the two entries, in the trace
    assert(t.contains(t[i]));
    to_multiset_contains(t, t[i]);
    to_multiset_contains(tq, t[i]);
    let m = choose|m: int| 0 <= m < tq.len() && tq[m] == t[i];
    assert(t.contains(t[i - 1]));
    to_multiset_contains(t, t[i - 1]);
    to_multiset_contains(tq, t[i - 1]);
    let n = choose|n: int| 0 <= n < tq.len() && tq[n] == t[i - 1];
    assert(known(q[m]) && known(q[n]));
    assert(precedes(t[i - 1], t[i]));
    assert(n < m);
    // the last query at the address before the later one is the earlier one
    lemma_latest_is_last(q, m, a, n);
    let j = latest(q, m, a).unwrap();
    assert(known(q[j]));
    if j != n {
        assert(tq.contains(tq[j]));
        to_multiset_contains(tq, tq[j]);
        to_multiset_contains(t, tq[j]);
        let p = choose|p: int| 0 <= p < t.len() && t[p] == tq[j];
        if p < i - 1 {
            assert(precedes(t[p], t[i - 1]));
        } else if p > i {
            assert(precedes(t[i], t[p]));
        }
    }
    assert(chained(q, m));
}

/// The last query at an address among the first `n` queries depends on
/// those alone.
pub proof fn lemma_latest_prefix(q: Seq<Query>, p: Seq<Query>, n: int, a: Fe)
    requires
        n <= q.len() <= p.len(),
        forall|i: int| 0 <= i < q.len() ==> q[i] == p[i],
    ensures
        latest(p, n, a) == latest(q, n, a),
        latest(q, n, a) matches Some(j) ==> 0 <= j < n && q[j].address == Some(a),
    decreases n,
{
    if n > 0 {
        lemma_latest_prefix(q, p, n - 1, a);
    }
}

} // verus!
