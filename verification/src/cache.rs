//! The executable cache.

use crate::laws::lemma_insert_keeps_wf;
use crate::laws::lemma_live_within_capacity;
use crate::model::FifoState;
use std::collections::HashMap;
use std::collections::VecDeque;
use std::hash::Hash;
use std::sync::Arc;
use vstd::pervasive::runtime_assert;
use vstd::prelude::*;
use vstd::std_specs::hash::obeys_key_model;

verus! {

/// Whether a clone of a key is that key again, whatever the key.
///
/// The cache holds each live key twice, in its queue and in its table, and
/// one of the two is a clone of the other.
pub open spec fn clone_keeps_key<K: Clone>() -> bool {
    forall|a: K, b: K| #[trigger] cloned::<K>(a, b) ==> a == b
}

/// What a shared value holds, if there is one.
pub open spec fn snapshot<V>(shared: Option<Arc<V>>) -> Option<V> {
    match shared {
        Some(a) => Some(*a),
        None => None,
    }
}

/// A simple fifo cache.
///
/// If too many entries are inserted into the cache, the oldest entries are
/// removed from it to keep it no bigger than its size.
#[derive(Debug)]
pub struct FifoCache<K: Eq + Hash, V> {
    size: usize,
    fifo: VecDeque<K>,
    map: HashMap<K, Arc<V>>,
}

impl<K: Eq + Hash, V> View for FifoCache<K, V> {
    type V = FifoState<K, V>;

    closed spec fn view(&self) -> FifoState<K, V> {
        FifoState {
            capacity: self.size as nat,
            order: self.fifo@,
            table: Map::new(|k: K| self.map@.contains_key(k), |k: K| *self.map@[k]),
        }
    }
}

impl<K: Eq + Hash, V> FifoCache<K, V> {
    /// Whether the cache is one that `new` and `insert` can have made: its
    /// model is well formed, and the equality and the hash of its keys follow
    /// the model that vstd has for the keys of a hash table.
    pub open spec fn wf(&self) -> bool {
        &&& self@.wf()
        &&& obeys_key_model::<K>()
    }

    /// Create a FifoCache with the size specified.
    pub fn new(size: usize) -> (cache: Self)
        requires
            size > 0,
            obeys_key_model::<K>(),
        ensures
            cache.wf(),
            cache@ == FifoState::<K, V>::empty(size as nat),
    {
        runtime_assert(size > 0);
        let cache = FifoCache {
            size: size,
            fifo: VecDeque::with_capacity(size),
            map: HashMap::with_capacity(size),
        };
        assert(cache@.table =~= Map::<K, V>::empty());
        cache
    }

    /// Gets a shared handle to the value of the entry.
    ///
    /// `None` means that the entry was never inserted into the cache, or that
    /// it was removed because too many entries were inserted after it.
    pub fn get(&self, k: &K) -> (found: Option<Arc<V>>)
        requires
            self.wf(),
        ensures
            snapshot(found) == self@.lookup(*k),
    {
        match self.map.get(k) {
            Some(v) => Some(v.clone()),
            None => None,
        }
    }
}

impl<K: Eq + Hash + Clone, V> FifoCache<K, V> {
    /// Inserts a key and its value into the cache.
    ///
    /// If the cache did not have this key, `None` is returned, and the oldest
    /// entry is removed first if the cache was full. If the cache did have
    /// this key, its value is updated and the old value is returned; the key
    /// keeps its place in the eviction order.
    pub fn insert(&mut self, k: K, v: V) -> (displaced: Option<Arc<V>>)
        requires
            old(self).wf(),
            clone_keeps_key::<K>(),
        ensures
            final(self).wf(),
            final(self)@ == old(self)@.insert(k, v),
            final(self)@.live() <= final(self)@.capacity,
            snapshot(displaced) == old(self)@.lookup(k),
    {
        let ghost key = k;
        let ghost value = v;
        let v = Arc::new(v);

        // the key is live: only its value changes
        if self.map.contains_key(&k) {
            let displaced = self.map.insert(k, v);
            proof {
                assert(self@.table =~= old(self)@.table.insert(key, value));
                lemma_insert_keeps_wf(old(self)@, key, value);
                lemma_live_within_capacity(self@);
            }
            return displaced;
        }

        // the key is new: if the cache is full, the oldest entry makes room
        while self.fifo.len() > self.size - 1
            invariant
                old(self).wf(),
                !old(self).map@.contains_key(key),
                self.size == old(self).size,
                self.fifo@.len() <= self.size,
                self.fifo@ == old(self).fifo@ && self.map@ == old(self).map@ || {
                    &&& old(self).fifo@.len() == self.size
                    &&& self.fifo@ == old(self).fifo@.drop_first()
                    &&& self.map@ == old(self).map@.remove(old(self).fifo@.first())
                },
            decreases self.fifo@.len(),
        {
            assert(self.fifo@.to_set().contains(self.fifo@[0]));
            let oldest = self.fifo.pop_front().expect("failed to pop_front from FifoCache");
            self.map.remove(&oldest).expect("failed to remove from FifoCache");
        }

        // the new key goes to the back of the queue and into the table
        let queued = k.clone();
        assert(cloned::<K>(k, queued));
        self.fifo.push_back(queued);
        let displaced = self.map.insert(k, v);
        proof {
            let before = old(self)@;
            let after = before.insert(key, value);
            assert(self@.order =~= after.order);
            assert(self@.table =~= after.table);
            lemma_insert_keeps_wf(before, key, value);
            lemma_live_within_capacity(self@);
        }
        displaced
    }
}

/// Reads can be repeated: as long as the cache is not changed, whatever two
/// calls of `get` return for one key is equal.
pub proof fn lemma_reads_agree<K: Eq + Hash, V>(
    cache: FifoCache<K, V>,
    k: K,
    first: Option<Arc<V>>,
    second: Option<Arc<V>>,
)
    requires
        cache.wf(),
        call_ensures(FifoCache::<K, V>::get, (&cache, &k), first),
        call_ensures(FifoCache::<K, V>::get, (&cache, &k), second),
    ensures
        first == second,
{
}

} // verus!
