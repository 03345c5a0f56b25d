//! The mathematical model of the cache.

use vstd::prelude::*;

verus! {

/// What a cache is, apart from how it is stored.
#[verifier::reject_recursive_types(K)]
pub struct FifoState<K, V> {
    /// How many keys the cache may hold at once.
    pub capacity: nat,
    /// The live keys in the order in which they entered, the oldest first.
    pub order: Seq<K>,
    /// The value that each live key has now.
    pub table: Map<K, V>,
}

impl<K, V> FifoState<K, V> {
    /// The cache of the given capacity that holds nothing.
    pub open spec fn empty(capacity: nat) -> Self {
        FifoState { capacity, order: Seq::empty(), table: Map::empty() }
    }

    /// The invariant of a cache: room for at least one key, no more keys than
    /// the capacity, no key twice in the order, and the table holding exactly
    /// the keys of the order.
    pub open spec fn wf(self) -> bool {
        &&& self.capacity >= 1
        &&& self.order.len() <= self.capacity
        &&& self.order.no_duplicates()
        &&& self.table.dom() =~= self.order.to_set()
    }

    /// The number of live keys.
    pub open spec fn live(self) -> nat {
        self.table.dom().len()
    }

    /// Whether a new key can enter only after the oldest one has left.
    pub open spec fn is_full(self) -> bool {
        self.order.len() >= self.capacity
    }

    /// The value that `k` has, if it is live.
    pub open spec fn lookup(self, k: K) -> Option<V> {
        if self.table.contains_key(k) {
            Some(self.table[k])
        } else {
            None
        }
    }

    /// The cache after `k` has been given the value `v`.
    ///
    /// A live key keeps its place in the order and only changes its value. A
    /// new key goes to the back of the order; if the cache is full, the
    /// oldest key leaves first.
    pub open spec fn insert(self, k: K, v: V) -> Self {
        if self.table.contains_key(k) {
            FifoState { table: self.table.insert(k, v), ..self }
        } else if self.is_full() {
            FifoState {
                capacity: self.capacity,
                order: self.order.drop_first().push(k),
                table: self.table.remove(self.order.first()).insert(k, v),
            }
        } else {
            FifoState {
                capacity: self.capacity,
                order: self.order.push(k),
                table: self.table.insert(k, v),
            }
        }
    }

    /// The cache after the given entries have been inserted one after the
    /// other, the first of them first.
    pub open spec fn insert_all(self, entries: Seq<(K, V)>) -> Self
        decreases entries.len(),
    {
        if entries.len() == 0 {
            self
        } else {
            self.insert_all(entries.drop_last()).insert(entries.last().0, entries.last().1)
        }
    }
}

/// The keys of the given entries, in their order.
pub open spec fn keys_of<K, V>(entries: Seq<(K, V)>) -> Seq<K> {
    Seq::new(entries.len(), |i: int| entries[i].0)
}

/// Whether no two of the given entries have the same key.
pub open spec fn distinct_keys<K, V>(entries: Seq<(K, V)>) -> bool {
    forall|i: int, j: int| 0 <= i < j < entries.len() ==> entries[i].0 != entries[j].0
}

} // verus!
