//! A map keyed by field elements, for the few keys that a gate keeps.

use crate::field::Fe;
use vstd::prelude::*;

verus! {

/// A key with what it maps to.
pub struct Entry<V> {
    pub key: Fe,
    pub value: V,
}

/// What the first entry for `key` holds.
pub open spec fn lookup<V>(entries: Seq<Entry<V>>, key: Fe) -> Option<V>
    decreases entries.len(),
{
    if entries.len() == 0 {
        None
    } else if entries[0].key == key {
        Some(entries[0].value)
    } else {
        lookup(entries.subrange(1, entries.len() as int), key)
    }
}

/// The map that entries stand for.
pub open spec fn as_map<V>(entries: Seq<Entry<V>>) -> Map<Fe, V> {
    Map::new(|k: Fe| lookup(entries, k).is_some(), |k: Fe| lookup(entries, k).unwrap())
}

proof fn lemma_lookup_update<V>(entries: Seq<Entry<V>>, i: int, value: V, k: Fe)
    requires
        0 <= i < entries.len(),
        forall|j: int| 0 <= j < i ==> (#[trigger] entries[j]).key != entries[i].key,
    ensures
        lookup(entries.update(i, Entry { key: entries[i].key, value }), k) == if k
            == entries[i].key {
            Some(value)
        } else {
            lookup(entries, k)
        },
    decreases entries.len(),
{
    let updated = entries.update(i, Entry { key: entries[i].key, value });
    let rest = entries.subrange(1, entries.len() as int);
    if i > 0 {
        assert(updated.subrange(1, updated.len() as int) =~= rest.update(
            i - 1,
            Entry { key: entries[i].key, value },
        ));
        assert(entries[0].key != entries[i].key);
        assert(rest[i - 1] == entries[i]);
        assert forall|j: int| 0 <= j < i - 1 implies (#[trigger] rest[j]).key != rest[i
            - 1].key by {
            assert(rest[j] == entries[j + 1]);
        }
        lemma_lookup_update(rest, i - 1, value, k);
        assert(updated[0] == entries[0]);
    } else {
        assert(updated.subrange(1, updated.len() as int) =~= rest);
        assert(updated[0].key == entries[0].key);
    }
}

proof fn lemma_lookup_push<V>(entries: Seq<Entry<V>>, entry: Entry<V>, k: Fe)
    requires
        lookup(entries, entry.key).is_none(),
    ensures
        lookup(entries.push(entry), k) == if k == entry.key {
            Some(entry.value)
        } else {
            lookup(entries, k)
        },
    decreases entries.len(),
{
    let pushed = entries.push(entry);
    if entries.len() > 0 {
        let rest = entries.subrange(1, entries.len() as int);
        assert(pushed.subrange(1, pushed.len() as int) =~= rest.push(entry));
        lemma_lookup_push(rest, entry, k);
        assert(pushed[0] == entries[0]);
    } else {
        assert(pushed.subrange(1, pushed.len() as int) =~= Seq::<Entry<V>>::empty());
        assert(pushed[0] == entry);
        assert(lookup(Seq::<Entry<V>>::empty(), k).is_none());
    }
}

/// A map from field elements, kept as a list of entries.
pub struct FeMap<V> {
    entries: Vec<Entry<V>>,
}

impl<V: Copy> View for FeMap<V> {
    type V = Map<Fe, V>;

    closed spec fn view(&self) -> Map<Fe, V> {
        as_map(self.entries@)
    }
}

impl<V: Copy> FeMap<V> {
    pub fn new() -> (r: FeMap<V>)
        ensures
            r@ == Map::<Fe, V>::empty(),
    {
        let r = FeMap { entries: Vec::new() };
        assert(r@ =~= Map::<Fe, V>::empty());
        r
    }

    pub fn clear(&mut self)
        ensures
            final(self)@ == Map::<Fe, V>::empty(),
    {
        self.entries.clear();
        assert(self@ =~= Map::<Fe, V>::empty());
    }

    fn find(&self, key: &Fe) -> (r: Option<usize>)
        ensures
            match r {
                Some(i) => i < self.entries@.len() && self.entries@[i as int].key == *key
                    && lookup(self.entries@, *key) == Some(self.entries@[i as int].value)
                    && forall|j: int| 0 <= j < i ==> (#[trigger] self.entries@[j]).key != *key,
                None => lookup(self.entries@, *key).is_none(),
            },
    {
        let mut i: usize = 0;
        assert(self.entries@.subrange(0, self.entries@.len() as int) =~= self.entries@);
        while i < self.entries.len()
            invariant
                i <= self.entries@.len(),
                lookup(self.entries@, *key) == lookup(
                    self.entries@.subrange(i as int, self.entries@.len() as int),
                    *key,
                ),
                forall|j: int| 0 <= j < i ==> (#[trigger] self.entries@[j]).key != *key,
            decreases self.entries@.len() - i,
        {
            let ghost rest = self.entries@.subrange(i as int, self.entries@.len() as int);
            assert(rest[0] == self.entries@[i as int]);
            if self.entries[i].key == *key {
                return Some(i);
            }
            assert(rest.subrange(1, rest.len() as int) =~= self.entries@.subrange(
                i + 1,
                self.entries@.len() as int,
            ));
            i = i + 1;
        }
        assert(self.entries@.subrange(i as int, self.entries@.len() as int).len() == 0);
        None
    }

    /// What the map holds under `key`.
    pub fn get(&self, key: &Fe) -> (r: Option<V>)
        ensures
            r == if self@.contains_key(*key) {
                Some(self@[*key])
            } else {
                None
            },
    {
        match self.find(key) {
            Some(i) => Some(self.entries[i].value),
            None => None,
        }
    }

    /// Maps `key` to `value`, and gives back what it was mapped to.
    pub fn insert(&mut self, key: Fe, value: V) -> (r: Option<V>)
        ensures
            final(self)@ == old(self)@.insert(key, value),
            r == if old(self)@.contains_key(key) {
                Some(old(self)@[key])
            } else {
                None
            },
    {
        let ghost before = self.entries@;
        let r = match self.find(&key) {
            Some(i) => {
                let r = self.entries[i].value;
                self.entries[i] = Entry { key, value };
                proof {
                    assert forall|k: Fe|
                        lookup(self.entries@, k) == if k == key {
                            Some(value)
                        } else {
                            lookup(before, k)
                        } by {
                        lemma_lookup_update(before, i as int, value, k);
                    }
                }
                Some(r)
            },
            None => {
                self.entries.push(Entry { key, value });
                proof {
                    assert forall|k: Fe|
                        lookup(self.entries@, k) == if k == key {
                            Some(value)
                        } else {
                            lookup(before, k)
                        } by {
                        lemma_lookup_push(before, Entry { key, value }, k);
                    }
                }
                None
            },
        };
        assert(self@ =~= as_map(before).insert(key, value));
        r
    }
}

} // verus!
