//! A map from string keys to values, kept in ascending key order, so that
//! listing it gives the same sequence whatever order the writes came in.

use vstd::prelude::*;
use crate::records::Duplicate;
use crate::text::{key_less, lemma_lex_asymmetric, lemma_lex_irreflexive, lemma_lex_total, lemma_lex_transitive, lex_lt};

verus! {

/// Each key comes strictly before the next one.
pub open spec fn strictly_sorted(keys: Seq<Seq<char>>) -> bool {
    forall|i: int, j: int| 0 <= i < j < keys.len() ==> lex_lt(#[trigger] keys[i], #[trigger] keys[j])
}

/// `values` lists the values of `m` in ascending order of their keys, which
/// `keys` gives: one entry per key of `m`, each key once.
pub open spec fn listed_in_key_order<V>(
    m: Map<Seq<char>, V>,
    keys: Seq<Seq<char>>,
    values: Seq<V>,
) -> bool {
    &&& keys.len() == values.len()
    &&& strictly_sorted(keys)
    &&& forall|i: int|
        0 <= i < keys.len() ==> m.contains_key(#[trigger] keys[i]) && m[keys[i]] == values[i]
    &&& forall|k: Seq<char>| m.contains_key(k) ==> #[trigger] keys.contains(k)
}

/// A listing in key order holds the stored values themselves: the value at
/// each place is the map's value under that place's key, and every stored
/// value is listed.
pub proof fn lemma_listing_holds_stored_values<V>(
    m: Map<Seq<char>, V>,
    keys: Seq<Seq<char>>,
    values: Seq<V>,
)
    requires
        listed_in_key_order(m, keys, values),
    ensures
        values.len() == keys.len(),
        forall|i: int| 0 <= i < values.len() ==> m.contains_key(keys[i]) && #[trigger] values[i] == m[keys[i]],
        forall|k: Seq<char>| #[trigger] m.contains_key(k) ==> values.contains(m[k]),
{
    assert forall|k: Seq<char>| #[trigger] m.contains_key(k) implies values.contains(m[k]) by {
        assert(keys.contains(k));
        let i = choose|i: int| 0 <= i < keys.len() && keys[i] == k;
        assert(values[i] == m[keys[i]]);
    }
}

proof fn lemma_sorted_distinct(keys: Seq<Seq<char>>, i: int, j: int)
    requires
        strictly_sorted(keys),
        0 <= i < keys.len(),
        0 <= j < keys.len(),
        i != j,
    ensures
        keys[i] != keys[j],
{
    if i < j {
        assert(lex_lt(keys[i], keys[j]));
    } else {
        assert(lex_lt(keys[j], keys[i]));
    }
    lemma_lex_irreflexive(keys[i]);
}

/// A map has only one listing in key order: two listings of the same map
/// are the same sequence.
pub proof fn lemma_key_order_listing_unique<V>(
    m: Map<Seq<char>, V>,
    keys1: Seq<Seq<char>>,
    values1: Seq<V>,
    keys2: Seq<Seq<char>>,
    values2: Seq<V>,
)
    requires
        listed_in_key_order(m, keys1, values1),
        listed_in_key_order(m, keys2, values2),
    ensures
        keys1 == keys2,
        values1 == values2,
{
    lemma_listing_prefix_equal(m, keys1, values1, keys2, values2, 0);
    assert(keys1 =~= keys2);
    assert forall|i: int| 0 <= i < values1.len() implies values1[i] == values2[i] by {
        assert(keys1[i] == keys2[i]);
    }
    assert(values1 =~= values2);
}

proof fn lemma_listing_prefix_equal<V>(
    m: Map<Seq<char>, V>,
    keys1: Seq<Seq<char>>,
    values1: Seq<V>,
    keys2: Seq<Seq<char>>,
    values2: Seq<V>,
    n: int,
)
    requires
        listed_in_key_order(m, keys1, values1),
        listed_in_key_order(m, keys2, values2),
        0 <= n,
        forall|i: int| 0 <= i < n && i < keys1.len() && i < keys2.len() ==> keys1[i] == keys2[i],
        n <= keys1.len(),
        n <= keys2.len(),
    ensures
        keys1.len() == keys2.len(),
        forall|i: int| 0 <= i < keys1.len() ==> keys1[i] == keys2[i] && values1[i] == values2[i],
    decreases keys1.len() + keys2.len() + 2 - 2 * n,
{
    if n < keys1.len() && n < keys2.len() {
        // keys1[n] sits in keys2 at some p >= n, and keys2[n] in keys1 at some q >= n.
        let a = keys1[n];
        let b = keys2[n];
        assert(m.contains_key(a));
        assert(keys2.contains(a));
        let p = choose|p: int| 0 <= p < keys2.len() && keys2[p] == a;
        assert(m.contains_key(b));
        assert(keys1.contains(b));
        let q = choose|q: int| 0 <= q < keys1.len() && keys1[q] == b;
        if p < n {
            assert(keys1[p] == keys2[p]);
            lemma_sorted_distinct(keys1, p, n);
        }
        if q < n {
            assert(keys2[q] == keys1[q]);
            lemma_sorted_distinct(keys2, q, n);
        }
        if a != b {
            assert(p > n) by {
                if p == n {
                    assert(keys2[n] == a);
                }
            }
            assert(lex_lt(b, a));
            assert(q > n) by {
                if q == n {
                    assert(keys1[n] == b);
                }
            }
            assert(lex_lt(a, b));
            lemma_lex_asymmetric(a, b);
        }
        lemma_listing_prefix_equal(m, keys1, values1, keys2, values2, n + 1);
    } else if n < keys1.len() {
        // keys2 is a prefix of keys1 and shorter: keys1[n] has nowhere to sit in keys2.
        let a = keys1[n];
        assert(keys2.contains(a));
        let p = choose|p: int| 0 <= p < keys2.len() && keys2[p] == a;
        assert(keys1[p] == keys2[p]);
        lemma_sorted_distinct(keys1, p, n);
    } else if n < keys2.len() {
        let b = keys2[n];
        assert(keys1.contains(b));
        let q = choose|q: int| 0 <= q < keys1.len() && keys1[q] == b;
        assert(keys1[q] == keys2[q]);
        lemma_sorted_distinct(keys2, q, n);
    } else {
        assert forall|i: int| 0 <= i < keys1.len() implies keys1[i] == keys2[i] && values1[i]
            == values2[i] by {
            assert(m[keys1[i]] == values1[i]);
            assert(m[keys2[i]] == values2[i]);
        }
    }
}

/// Values under string keys, kept in ascending key order.
pub struct KeyedStore<V> {
    entries: Vec<(String, V)>,
}

impl<V> KeyedStore<V> {
    /// The keys, in the order they are kept.
    pub closed spec fn keys(&self) -> Seq<Seq<char>> {
        self.entries@.map_values(|e: (String, V)| e.0@)
    }

    /// The values, in the same order as `keys`.
    pub closed spec fn values_in_order(&self) -> Seq<V> {
        self.entries@.map_values(|e: (String, V)| e.1)
    }

    /// The store is well formed: its keys are strictly ascending.
    pub closed spec fn wf(&self) -> bool {
        strictly_sorted(self.keys())
    }

    /// Where `k` is kept.
    closed spec fn position(&self, k: Seq<char>) -> int {
        choose|i: int| 0 <= i < self.keys().len() && self.keys()[i] == k
    }

    /// The map that the store holds.
    pub closed spec fn map(&self) -> Map<Seq<char>, V> {
        Map::new(
            |k: Seq<char>| self.keys().contains(k),
            |k: Seq<char>| self.entries@[self.position(k)].1,
        )
    }

    proof fn lemma_map_at(&self, i: int)
        requires
            self.wf(),
            0 <= i < self.entries@.len(),
        ensures
            self.map().contains_key(self.entries@[i].0@),
            self.map()[self.entries@[i].0@] == self.entries@[i].1,
    {
        let k = self.entries@[i].0@;
        assert(self.keys()[i] == k);
        assert(self.keys().contains(k));
        let c = self.position(k);
        assert(self.keys()[c] == k);
        assert(self.map()[k] == self.entries@[c].1);
        if c != i {
            assert(self.keys()[c] == k);
            lemma_sorted_distinct(self.keys(), c, i);
        }
    }

    /// The listing of the store is its map in key order.
    pub proof fn lemma_listing(&self)
        requires
            self.wf(),
        ensures
            listed_in_key_order(self.map(), self.keys(), self.values_in_order()),
    {
        assert forall|i: int| 0 <= i < self.keys().len() implies self.map().contains_key(
            #[trigger] self.keys()[i],
        ) && self.map()[self.keys()[i]] == self.values_in_order()[i] by {
            self.lemma_map_at(i);
        }
    }

    /// An empty store.
    pub fn new() -> (store: Self)
        ensures
            store.wf(),
            store.map() == Map::<Seq<char>, V>::empty(),
    {
        let store = KeyedStore { entries: Vec::new() };
        assert(store.map() =~= Map::<Seq<char>, V>::empty());
        store
    }

    /// Stores `value` under `key`, replacing what was stored there.
    pub fn upsert(&mut self, key: String, value: V)
        requires
            old(self).wf(),
        ensures
            final(self).wf(),
            final(self).map() == old(self).map().insert(key@, value),
    {
        let ghost old_self = *self;
        let ghost old_entries = self.entries@;
        let ghost old_keys = self.keys();
        let mut p: usize = 0;
        while p < self.entries.len()
            invariant_except_break
                forall|q: int| 0 <= q < p ==> lex_lt(#[trigger] old_keys[q], key@),
            invariant
                self.entries@ == old_entries,
                old_keys == self.keys(),
                p <= old_entries.len(),
            ensures
                forall|q: int| 0 <= q < p ==> lex_lt(#[trigger] old_keys[q], key@),
                p < old_entries.len() ==> !lex_lt(old_keys[p as int], key@),
            decreases self.entries@.len() - p,
        {
            if !key_less(&self.entries[p].0, &key) {
                assert(old_keys[p as int] == self.entries@[p as int].0@);
                break;
            }
            assert(old_keys[p as int] == self.entries@[p as int].0@);
            p = p + 1;
        }
        let ghost old_map = self.map();
        if p < self.entries.len() && self.entries[p].0 == key {
            self.entries.set(p, (key, value));
            proof {
                let k2 = key@;
                assert(self.keys() =~= old_keys);
                assert(old_keys[p as int] == k2);
                assert forall|k: Seq<char>| #[trigger] self.map().contains_key(k) == old_map.insert(
                    k2,
                    value,
                ).contains_key(k) by {
                    if old_keys.contains(k) {
                    }
                    if k == k2 {
                        assert(old_keys.contains(k2));
                    }
                }
                assert forall|k: Seq<char>| #[trigger] self.map().contains_key(k) implies self.map()[k]
                    == old_map.insert(k2, value)[k] by {
                    let i = choose|i: int| 0 <= i < self.keys().len() && self.keys()[i] == k;
                    assert(self.keys()[i] == k);
                    self.lemma_map_at(i);
                    if i != p {
                        assert(self.entries@[i] == old_entries[i]);
                        assert(old_self.keys() == old_keys);
                        old_self.lemma_map_at(i);
                        assert(old_self.map() == old_map);
                        lemma_sorted_distinct(old_keys, i, p as int);
                    }
                }
                assert(self.map() =~= old_map.insert(k2, value));
            }
        } else {
            self.entries.insert(p, (key, value));
            proof {
                let k2 = key@;
                assert(old_self.keys() == old_keys);
                assert(old_self.map() == old_map);
                assert(self.keys() =~= old_keys.insert(p as int, k2));
                if p < old_keys.len() {
                    assert(old_keys[p as int] != k2);
                    lemma_lex_total(old_keys[p as int], k2);
                }
                assert forall|i: int, j: int|
                    0 <= i < j < self.keys().len() implies lex_lt(
                    #[trigger] self.keys()[i],
                    #[trigger] self.keys()[j],
                ) by {
                    if j == p {
                        assert(lex_lt(old_keys[i], k2));
                    } else if i == p {
                        let oj = j - 1;
                        if oj > p {
                            assert(lex_lt(old_keys[p as int], old_keys[oj]));
                            lemma_lex_transitive(k2, old_keys[p as int], old_keys[oj]);
                        }
                    } else if i < p && j > p {
                        assert(lex_lt(old_keys[i], old_keys[j - 1]));
                    } else if i > p {
                        assert(lex_lt(old_keys[i - 1], old_keys[j - 1]));
                    } else {
                        assert(lex_lt(old_keys[i], old_keys[j]));
                    }
                }
                assert forall|k: Seq<char>| #[trigger] self.map().contains_key(k) == old_map.insert(
                    k2,
                    value,
                ).contains_key(k) by {
                    if old_keys.contains(k) {
                        let i = choose|i: int| 0 <= i < old_keys.len() && old_keys[i] == k;
                        if i < p {
                            assert(self.keys()[i] == k);
                        } else {
                            assert(self.keys()[i + 1] == k);
                        }
                    }
                    if k == k2 {
                        assert(self.keys()[p as int] == k2);
                    }
                    if self.keys().contains(k) {
                        let i = choose|i: int| 0 <= i < self.keys().len() && self.keys()[i] == k;
                        if i < p {
                            assert(old_keys[i] == k);
                        } else if i > p {
                            assert(old_keys[i - 1] == k);
                        }
                    }
                }
                assert forall|k: Seq<char>| #[trigger] self.map().contains_key(k) implies self.map()[k]
                    == old_map.insert(k2, value)[k] by {
                    let i = choose|i: int| 0 <= i < self.keys().len() && self.keys()[i] == k;
                    assert(self.keys()[i] == k);
                    self.lemma_map_at(i);
                    if i < p {
                        assert(self.entries@[i] == old_entries[i]);
                        old_self.lemma_map_at(i);
                        lemma_sorted_distinct(self.keys(), i, p as int);
                    } else if i > p {
                        assert(self.entries@[i] == old_entries[i - 1]);
                        old_self.lemma_map_at(i - 1);
                        lemma_sorted_distinct(self.keys(), i, p as int);
                    }
                }
                assert(self.map() =~= old_map.insert(k2, value));
            }
        }
    }
}

impl<V: Duplicate> KeyedStore<V> {
    /// Copies of the stored values, in ascending key order.
    pub fn values(&self) -> (vals: Vec<V>)
        requires
            self.wf(),
        ensures
            listed_in_key_order(self.map(), self.keys(), vals@),
    {
        let mut vals: Vec<V> = Vec::new();
        let mut i: usize = 0;
        while i < self.entries.len()
            invariant
                i <= self.entries@.len(),
                vals@ =~= self.values_in_order().take(i as int),
            decreases self.entries@.len() - i,
        {
            let v = self.entries[i].1.duplicate();
            vals.push(v);
            i = i + 1;
        }
        proof {
            assert(vals@ =~= self.values_in_order());
            self.lemma_listing();
        }
        vals
    }
}

} // verus!
