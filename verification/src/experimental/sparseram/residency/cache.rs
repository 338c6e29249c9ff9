//! Least-recently-used cache.

use vstd::prelude::*;
use std::collections::BTreeMap;
use vstd::laws_cmp::obeys_cmp;
use vstd::pervasive::strictly_cloned;
use vstd::std_specs::btree::increasing_seq;
use vstd::std_specs::iter::IteratorSpec;
use crate::experimental::sparseram::storage::index::btree_get_mut;

verus! {

/// A cached value with the time of its last access.
#[derive(Debug, Clone)]
struct CacheEntry<V> {
    value: V,
    access_time: u64,
}

/// Least-recently-used cache of bounded capacity.
///
/// Every insertion and every read through `get`/`get_mut` stamps the entry
/// with a fresh value of a global access counter; when the cache is full, a
/// new key evicts the entry with the oldest stamp.
#[derive(Debug, Clone)]
pub struct LRUCache<K, V> {
    capacity: usize,
    cache: BTreeMap<K, CacheEntry<V>>,
    access_counter: u64,
}

/// Cloning a key gives back an equal key.
pub open spec fn clones_exactly<K: Clone>() -> bool {
    forall|a: K, b: K| #[trigger] strictly_cloned(a, b) ==> a == b
}

/// The least recently used of the stamped keys: the one with the oldest stamp.
pub open spec fn least_recent<K>(rec: Map<K, u64>) -> K {
    choose|k: K| rec.contains_key(k) && forall|k2: K| #[trigger] rec.contains_key(k2) ==> rec[k] <= rec[k2]
}

/// The contents, stamps and access counter of a cache of capacity `cap`
/// after inserting `key` with `value`: the counter advances and stamps the
/// key; a new key in a full cache first evicts the least recently used one.
pub open spec fn inserted<K, V>(
    view: Map<K, V>,
    rec: Map<K, u64>,
    count: u64,
    cap: nat,
    key: K,
    value: V,
) -> (Map<K, V>, Map<K, u64>, u64) {
    let c = (count + 1) as u64;
    if view.contains_key(key) || view.len() < cap {
        (view.insert(key, value), rec.insert(key, c), c)
    } else {
        let ek = least_recent(rec);
        (view.remove(ek).insert(key, value), rec.remove(ek).insert(key, c), c)
    }
}

impl<K, V> LRUCache<K, V> {
    /// The time of the last access of each cached key.
    pub closed spec fn recency(&self) -> Map<K, u64> {
        self.cache@.map_values(|e: CacheEntry<V>| e.access_time)
    }

    /// Number of cached entries.
    pub closed spec fn spec_len(&self) -> nat {
        self.cache@.len()
    }

    /// Maximum number of cached entries.
    pub closed spec fn spec_capacity(&self) -> nat {
        self.capacity as nat
    }

    /// Value of the global access counter.
    pub closed spec fn spec_access_count(&self) -> u64 {
        self.access_counter
    }
}

impl<K, V> View for LRUCache<K, V> {
    type V = Map<K, V>;

    closed spec fn view(&self) -> Map<K, V> {
        self.cache@.map_values(|e: CacheEntry<V>| e.value)
    }
}

impl<K: Ord + Clone, V> LRUCache<K, V> {
    /// The cache's internal invariant.
    pub closed spec fn wf(&self) -> bool {
        &&& obeys_cmp::<K>()
        &&& clones_exactly::<K>()
        &&& self.capacity > 0
        &&& self.cache@.len() <= self.capacity
        &&& forall|k1: K, k2: K|
            #[trigger] self.cache@.contains_key(k1) && #[trigger] self.cache@.contains_key(k2) && k1 != k2
                ==> self.cache@[k1].access_time != self.cache@[k2].access_time
        &&& forall|k: K| #[trigger]
            self.cache@.contains_key(k) ==> self.cache@[k].access_time <= self.access_counter
    }

    /// The least recently used key: the cached key with the oldest stamp.
    pub open spec fn is_lru_key(&self, k: K) -> bool {
        &&& self@.contains_key(k)
        &&& forall|k2: K| #[trigger]
            self@.contains_key(k2) ==> self.recency()[k] <= self.recency()[k2]
    }

    /// Every cached key has a stamp no later than the access counter, and no
    /// two cached keys share a stamp.
    pub proof fn lemma_recency_invariant(&self)
        requires
            self.wf(),
        ensures
            self.recency().dom() == self@.dom(),
            forall|k: K| #[trigger]
                self.recency().contains_key(k) ==> self.recency()[k] <= self.spec_access_count(),
            forall|k1: K, k2: K|
                #[trigger] self.recency().contains_key(k1) && #[trigger] self.recency().contains_key(k2)
                    && k1 != k2 ==> self.recency()[k1] != self.recency()[k2],
            self@.dom().finite(),
            self@.dom().len() == self.spec_len(),
            self.spec_len() <= self.spec_capacity(),
    {
        assert(self.recency().dom() =~= self@.dom());
        assert(self@.dom() =~= self.cache@.dom());
    }

    /// The entry stamped last (by the latest `insert`, `get` or `get_mut`)
    /// is never the least recently used one while another key is cached, so
    /// the next eviction spares it.
    pub proof fn lemma_latest_is_not_lru(&self, k: K, other: K)
        requires
            self.wf(),
            self@.contains_key(k),
            self.recency()[k] == self.spec_access_count(),
            self@.contains_key(other),
            other != k,
        ensures
            !self.is_lru_key(k),
    {
        self.lemma_recency_invariant();
        assert(self.recency()[other] <= self.spec_access_count());
        assert(self.recency()[other] != self.recency()[k]);
    }

    /// The least recently used key is the one with the oldest stamp, and
    /// there is only one.
    pub proof fn lemma_lru_key_is_least_recent(&self, k: K)
        requires
            self.wf(),
            self.is_lru_key(k),
        ensures
            k == least_recent(self.recency()),
    {
        self.lemma_recency_invariant();
        let rec = self.recency();
        let c = least_recent(rec);
        assert forall|k2: K| #[trigger] rec.contains_key(k2) implies rec[k] <= rec[k2] by {
            assert(self@.contains_key(k2));
        }
        assert(rec.contains_key(k));
        assert(rec.contains_key(c));
        if c != k {
            assert(self.recency()[c] <= self.recency()[k]);
            assert(self.recency()[k] <= self.recency()[c]);
            assert(self.recency().contains_key(c) && self.recency().contains_key(k));
        }
    }

    /// A new empty cache holding at most `capacity` entries.
    pub fn new(capacity: usize) -> (c: Self)
        requires
            capacity > 0,
            obeys_cmp::<K>(),
            clones_exactly::<K>(),
        ensures
            c.wf(),
            c@ == Map::<K, V>::empty(),
            c.spec_capacity() == capacity,
            c.spec_len() == 0,
            c.spec_access_count() == 0,
    {
        let c = LRUCache { capacity, cache: BTreeMap::new(), access_counter: 0 };
        assert(c@ =~= Map::<K, V>::empty());
        c
    }

    /// The value cached under `key`, which becomes the most recently used;
    /// `None`, with the cache unchanged, when the key is not cached.
    pub fn get(&mut self, key: &K) -> (r: Option<&V>)
        requires
            old(self).wf(),
            old(self)@.contains_key(*key) ==> old(self).spec_access_count() < u64::MAX,
        ensures
            final(self).wf(),
            final(self)@ == old(self)@,
            final(self).spec_len() == old(self).spec_len(),
            final(self).spec_capacity() == old(self).spec_capacity(),
            match r {
                Some(v) => {
                    &&& old(self)@.contains_key(*key)
                    &&& *v == old(self)@[*key]
                    &&& final(self).spec_access_count() == old(self).spec_access_count() + 1
                    &&& final(self).recency() == old(self).recency().insert(
                        *key,
                        final(self).spec_access_count(),
                    )
                },
                None => {
                    &&& !old(self)@.contains_key(*key)
                    &&& final(self).spec_access_count() == old(self).spec_access_count()
                    &&& final(self).recency() == old(self).recency()
                },
            },
    {
        let found = match btree_get_mut(&mut self.cache, key) {
            Some(entry) => {
                self.access_counter = self.access_counter + 1;
                entry.access_time = self.access_counter;
                true
            },
            None => false,
        };
        if !found {
            return None;
        }
        proof {
            self.lemma_stamped(*old(self), *key);
        }
        match self.cache.get(key) {
            Some(entry) => Some(&entry.value),
            None => None,
        }
    }

    /// After `key`'s entry is stamped with the advanced counter and nothing
    /// else changes, the cache is well formed, holds the same values, and
    /// only `key`'s stamp changed.
    proof fn lemma_stamped(self, old_c: Self, key: K)
        requires
            old_c.wf(),
            old_c.cache@.contains_key(key),
            self.capacity == old_c.capacity,
            self.access_counter == old_c.access_counter + 1,
            self.cache@.contains_key(key),
            self.cache@[key].access_time == self.access_counter,
            self.cache@ == old_c.cache@.insert(key, self.cache@[key]),
        ensures
            self.wf(),
            self@ == old_c@.insert(key, self.cache@[key].value),
            self.recency() == old_c.recency().insert(key, self.access_counter),
            self.spec_len() == old_c.spec_len(),
    {
        assert(self.cache@.dom() =~= old_c.cache@.dom());
        assert(self@ =~= old_c@.insert(key, self.cache@[key].value));
        assert(self.recency() =~= old_c.recency().insert(key, self.access_counter));
    }

    /// Whether `key` is cached; the access stamps are left unchanged.
    pub fn contains(&self, key: &K) -> (r: bool)
        requires
            self.wf(),
        ensures
            r == self@.contains_key(*key),
    {
        self.cache.contains_key(key)
    }

    /// Mutable access to the value cached under `key`, which becomes the
    /// most recently used; `None`, with the cache unchanged, when the key is
    /// not cached.
    pub fn get_mut(&mut self, key: &K) -> (r: Option<&mut V>)
        requires
            old(self).wf(),
            old(self)@.contains_key(*key) ==> old(self).spec_access_count() < u64::MAX,
        ensures
            final(self).wf(),
            final(self).spec_len() == old(self).spec_len(),
            final(self).spec_capacity() == old(self).spec_capacity(),
            match r {
                Some(v) => {
                    &&& old(self)@.contains_key(*key)
                    &&& *v == old(self)@[*key]
                    &&& final(self)@ == old(self)@.insert(*key, *final(v))
                    &&& final(self).spec_access_count() == old(self).spec_access_count() + 1
                    &&& final(self).recency() == old(self).recency().insert(
                        *key,
                        final(self).spec_access_count(),
                    )
                },
                None => {
                    &&& !old(self)@.contains_key(*key)
                    &&& final(self)@ == old(self)@
                    &&& final(self).spec_access_count() == old(self).spec_access_count()
                    &&& final(self).recency() == old(self).recency()
                },
            },
    {
        match btree_get_mut(&mut self.cache, key) {
            Some(entry) => {
                self.access_counter = self.access_counter + 1;
                entry.access_time = self.access_counter;
                let r = &mut entry.value;
                proof {
                    after_borrow(*self).lemma_stamped(*old(self), *key);
                }
                Some(r)
            },
            None => None,
        }
    }

    /// Inserts `value` under `key`, stamped as the most recently used. When
    /// the cache is full and `key` is new, the least recently used entry is
    /// evicted first and returned.
    pub fn insert(&mut self, key: K, value: V) -> (evicted: Option<(K, V)>)
        requires
            old(self).wf(),
            old(self).spec_access_count() < u64::MAX,
        ensures
            final(self).wf(),
            final(self).spec_capacity() == old(self).spec_capacity(),
            final(self).spec_access_count() == old(self).spec_access_count() + 1,
            match evicted {
                None => {
                    &&& (old(self)@.contains_key(key) || old(self).spec_len() < old(self).spec_capacity())
                    &&& final(self)@ == old(self)@.insert(key, value)
                    &&& final(self).recency() == old(self).recency().insert(
                        key,
                        final(self).spec_access_count(),
                    )
                },
                Some((ek, ev)) => {
                    &&& !old(self)@.contains_key(key)
                    &&& old(self).spec_len() == old(self).spec_capacity()
                    &&& old(self).is_lru_key(ek)
                    &&& old(self)@[ek] == ev
                    &&& final(self)@ == old(self)@.remove(ek).insert(key, value)
                    &&& final(self).recency() == old(self).recency().remove(ek).insert(
                        key,
                        final(self).spec_access_count(),
                    )
                },
            },
    {
        let mut evicted = None;
        if self.cache.len() >= self.capacity && !self.cache.contains_key(&key) {
            evicted = self.evict_lru();
        }
        let ghost mid = *self;
        self.access_counter = self.access_counter + 1;
        let entry = CacheEntry { value, access_time: self.access_counter };
        self.cache.insert(key, entry);
        proof {
            assert(self@ =~= mid@.insert(key, value));
            assert(self.recency() =~= mid.recency().insert(key, self.access_counter));
            if !mid.cache@.contains_key(key) {
                assert(self.cache@.dom() =~= mid.cache@.dom().insert(key));
            } else {
                assert(self.cache@.dom() =~= mid.cache@.dom());
            }
        }
        evicted
    }

    /// Removes and returns the value cached under `key`, if any.
    pub fn remove(&mut self, key: &K) -> (r: Option<V>)
        requires
            old(self).wf(),
        ensures
            final(self).wf(),
            final(self).spec_capacity() == old(self).spec_capacity(),
            final(self).spec_access_count() == old(self).spec_access_count(),
            final(self)@ == old(self)@.remove(*key),
            final(self).recency() == old(self).recency().remove(*key),
            match r {
                Some(v) => old(self)@.contains_key(*key) && v == old(self)@[*key],
                None => !old(self)@.contains_key(*key),
            },
    {
        let r = match self.cache.remove(key) {
            Some(entry) => Some(entry.value),
            None => None,
        };
        proof {
            assert(self@ =~= old(self)@.remove(*key));
            assert(self.recency() =~= old(self).recency().remove(*key));
            if old(self).cache@.contains_key(*key) {
                assert(self.cache@.dom() =~= old(self).cache@.dom().remove(*key));
            } else {
                assert(self.cache@.dom() =~= old(self).cache@.dom());
            }
        }
        r
    }

    /// Evicts the least recently used entry and returns it; `None` when the
    /// cache is empty.
    fn evict_lru(&mut self) -> (r: Option<(K, V)>)
        requires
            old(self).wf(),
        ensures
            final(self).wf(),
            final(self).capacity == old(self).capacity,
            final(self).access_counter == old(self).access_counter,
            match r {
                None => old(self).cache@.len() == 0 && final(self)@ == old(self)@
                    && final(self).recency() == old(self).recency(),
                Some((k, v)) => {
                    &&& old(self).is_lru_key(k)
                    &&& old(self)@[k] == v
                    &&& final(self)@ == old(self)@.remove(k)
                    &&& final(self).recency() == old(self).recency().remove(k)
                    &&& final(self).cache@.len() + 1 == old(self).cache@.len()
                },
            },
    {
        let mut best: Option<(&K, u64)> = None;
        for kv in it: self.cache.iter()
            invariant
                self.wf(),
                it.seq() == self.cache.iter().remaining(),
                it.index() == 0 <==> best is None,
                best matches Some((bk, bt)) ==> self.cache@.contains_key(*bk) && bt == self.cache@[*bk].access_time
                    && forall|j: int| 0 <= j < it.index() ==> bt <= (*#[trigger] it.seq()[j].1).access_time,
        {
            let (k, e) = kv;
            match best {
                None => {
                    best = Some((k, e.access_time));
                },
                Some((_, t)) => {
                    if e.access_time < t {
                        best = Some((k, e.access_time));
                    }
                },
            }
        }
        let ghost v = self.cache.iter().remaining();
        proof {
            assert(v.len() == self.cache@.dom().len());
        }
        let bk = match best {
            Some((k, t)) => {
                let c = k.clone();
                proof {
                    assert(strictly_cloned(*k, c));
                    assert(c == *k);
                    assert forall|k2: K| #[trigger] self@.contains_key(k2) implies self.recency()[c] <= self.recency()[k2] by {
                        assert(self.cache@.contains_key(k2));
                        assert(v.contains((&k2, &self.cache@[k2])));
                        let j = choose|j: int| 0 <= j < v.len() && v[j] == (&k2, &self.cache@[k2]);
                        assert(t <= (*v[j].1).access_time);
                    }
                }
                c
            },
            None => {
                proof {
                    assert(self.cache@.dom().len() == 0);
                }
                return None;
            },
        };
        let ghost before = *self;
        let e = match self.cache.remove(&bk) {
            Some(e) => e,
            None => {
                return None;
            },
        };
        proof {
            assert(self@ =~= before@.remove(bk));
            assert(self.recency() =~= before.recency().remove(bk));
            assert(self.cache@.dom() =~= before.cache@.dom().remove(bk));
        }
        Some((bk, e.value))
    }

    /// Number of cached entries.
    pub fn len(&self) -> (n: usize)
        requires
            self.wf(),
        ensures
            n == self.spec_len(),
    {
        self.cache.len()
    }

    /// Whether the cache holds no entry.
    pub fn is_empty(&self) -> (r: bool)
        requires
            self.wf(),
        ensures
            r == (self.spec_len() == 0),
    {
        proof {
            if self.cache@.len() == 0 {
                assert(self.cache@.dom() =~= Set::empty());
            }
        }
        self.cache.is_empty()
    }

    /// Maximum number of cached entries.
    pub fn capacity(&self) -> (n: usize)
        ensures
            n == self.spec_capacity(),
    {
        self.capacity
    }

    /// Removes every entry; the access counter keeps its value.
    pub fn clear(&mut self)
        requires
            old(self).wf(),
        ensures
            final(self).wf(),
            final(self)@ == Map::<K, V>::empty(),
            final(self).spec_len() == 0,
            final(self).spec_capacity() == old(self).spec_capacity(),
            final(self).spec_access_count() == old(self).spec_access_count(),
    {
        self.cache.clear();
        assert(self@ =~= Map::<K, V>::empty());
    }

    /// Value of the global access counter: the number of stamps handed out.
    pub fn access_count(&self) -> (n: u64)
        ensures
            n == self.spec_access_count(),
    {
        self.access_counter
    }

    /// The cached keys, in ascending order.
    pub fn keys(&self) -> (r: Vec<&K>)
        requires
            self.wf(),
        ensures
            r@.len() == self.spec_len(),
            exists|ks: Seq<K>|
                {
                    &&& increasing_seq(ks)
                    &&& ks.to_set() == self@.dom()
                    &&& ks.len() == r@.len()
                    &&& forall|i: int| 0 <= i < r@.len() ==> *r@[i] == #[trigger] ks[i]
                },
    {
        let mut r: Vec<&K> = Vec::new();
        for kv in it: self.cache.iter()
            invariant
                it.seq() == self.cache.iter().remaining(),
                r@.len() == it.index(),
                forall|j: int| 0 <= j < it.index() ==> r@[j] == (#[trigger] it.seq()[j]).0,
        {
            let (k, _) = kv;
            r.push(k);
        }
        proof {
            let v = self.cache.iter().remaining();
            let ks = v.map_values(|kv: (&K, &CacheEntry<V>)| *kv.0);
            assert forall|k: K| ks.to_set().contains(k) <==> self@.dom().contains(k) by {
                if self.cache@.contains_key(k) {
                    assert(v.contains((&k, &self.cache@[k])));
                    let j = choose|j: int| 0 <= j < v.len() && v[j] == (&k, &self.cache@[k]);
                    assert(ks[j] == k);
                }
                if ks.to_set().contains(k) {
                    let j = choose|j: int| 0 <= j < ks.len() && ks[j] == k;
                    assert(self.cache@.contains_key(*v[j].0));
                }
            }
            assert(ks.to_set() =~= self@.dom());
        }
        r
    }

    /// The cached values, in the ascending order of their keys.
    pub fn values(&self) -> (r: Vec<&V>)
        requires
            self.wf(),
        ensures
            exists|ks: Seq<K>|
                {
                    &&& increasing_seq(ks)
                    &&& ks.no_duplicates()
                    &&& ks.to_set() == self@.dom()
                    &&& ks.len() == r@.len()
                    &&& forall|i: int| 0 <= i < r@.len() ==> *r@[i] == self@[#[trigger] ks[i]]
                },
    {
        let mut r: Vec<&V> = Vec::new();
        for e in it: self.cache.values()
            invariant
                it.seq() == self.cache.values().remaining(),
                r@.len() == it.index(),
                forall|j: int| 0 <= j < it.index() ==> *r@[j] == (*#[trigger] it.seq()[j]).value,
        {
            r.push(&e.value);
        }
        proof {
            let ks = choose|key_seq: Seq<K>|
                {
                    &&& increasing_seq(key_seq)
                    &&& key_seq.to_set() == self.cache@.dom()
                    &&& key_seq.no_duplicates()
                    &&& self.cache.values().remaining() == key_seq.map(|i: int, k: K| &self.cache@[k])
                };
            assert(self@.dom() =~= self.cache@.dom());
            assert forall|i: int| 0 <= i < r@.len() implies *r@[i] == self@[#[trigger] ks[i]] by {
                assert(ks.to_set().contains(ks[i]));
                assert(*self.cache.values().remaining()[i] == self.cache@[ks[i]]);
            }
        }
        r
    }
}

} // verus!
