//! Properties of the model.
//!
//! Each law is stated over [`FifoState`], the view of the executable cache:
//! what `new`, `get` and `insert` ensure is stated over the same functions,
//! so a law about `insert` and `lookup` here is a law about the calls.

use crate::model::distinct_keys;
use crate::model::keys_of;
use crate::model::FifoState;
use vstd::prelude::*;

verus! {

/// Dropping the first key of an order without duplicates removes that key and
/// no other.
proof fn lemma_drop_first_contains<K>(order: Seq<K>, x: K)
    requires
        order.len() > 0,
        order.no_duplicates(),
    ensures
        order.drop_first().contains(x) <==> order.contains(x) && x != order.first(),
{
    if order.drop_first().contains(x) {
        let i = choose|i: int| 0 <= i < order.drop_first().len() && order.drop_first()[i] == x;
        assert(order[i + 1] == x);
    }
    if order.contains(x) && x != order.first() {
        let i = choose|i: int| 0 <= i < order.len() && order[i] == x;
        assert(order.drop_first()[i - 1] == x);
    }
}

/// A key is in an order with one more key at its back if it is that key or
/// was in the order before.
proof fn lemma_push_contains<K>(order: Seq<K>, k: K, x: K)
    ensures
        order.push(k).contains(x) <==> order.contains(x) || x == k,
{
    if order.push(k).contains(x) {
        let i = choose|i: int| 0 <= i < order.push(k).len() && order.push(k)[i] == x;
        assert(i < order.len() ==> order[i] == x);
    }
    if order.contains(x) {
        let i = choose|i: int| 0 <= i < order.len() && order[i] == x;
        assert(order.push(k)[i] == x);
    }
    if x == k {
        assert(order.push(k)[order.len() as int] == x);
    }
}

/// A cache that has just been made is well formed and holds no key.
pub proof fn lemma_empty_holds_nothing<K, V>(capacity: nat, k: K)
    requires
        capacity >= 1,
    ensures
        FifoState::<K, V>::empty(capacity).wf(),
        FifoState::<K, V>::empty(capacity).lookup(k) is None,
        FifoState::<K, V>::empty(capacity).live() == 0,
{
    let fresh = FifoState::<K, V>::empty(capacity);
    assert(fresh.table.dom() =~= fresh.order.to_set());
}

/// An insert keeps the invariant and the capacity.
pub proof fn lemma_insert_keeps_wf<K, V>(s: FifoState<K, V>, k: K, v: V)
    requires
        s.wf(),
    ensures
        s.insert(k, v).wf(),
        s.insert(k, v).capacity == s.capacity,
{
    let t = s.insert(k, v);
    if s.table.contains_key(k) {
        assert(s.order.to_set().contains(k));
        assert(t.table.dom() =~= s.table.dom());
    } else {
        let kept = if s.is_full() {
            s.order.drop_first()
        } else {
            s.order
        };
        assert(t.order == kept.push(k));
        assert forall|x: K| kept.contains(x) <==> s.order.contains(x) && !(s.is_full() && x
            == s.order.first()) by {
            if s.is_full() {
                lemma_drop_first_contains(s.order, x);
            }
        }
        assert(!kept.contains(k));
        assert(t.order.no_duplicates());
        assert forall|x: K| t.table.dom().contains(x) <==> t.order.to_set().contains(x) by {
            lemma_push_contains(kept, k, x);
        }
    }
}

/// The live keys of a cache are the keys of its order, and there are never
/// more of them than its capacity.
pub proof fn lemma_live_within_capacity<K, V>(s: FifoState<K, V>)
    requires
        s.wf(),
    ensures
        s.table.dom().finite(),
        s.live() == s.order.len(),
        s.live() <= s.capacity,
{
    s.order.unique_seq_to_set();
}

/// Whatever is inserted, and however much of it, the cache keeps its
/// invariant and its capacity, and never holds more keys than its capacity.
///
/// Since this holds of every sequence of entries, it holds after each insert
/// of a sequence: what has been inserted up to there is a sequence too.
pub proof fn lemma_capacity_bound<K, V>(s: FifoState<K, V>, entries: Seq<(K, V)>)
    requires
        s.wf(),
    ensures
        s.insert_all(entries).wf(),
        s.insert_all(entries).capacity == s.capacity,
        s.insert_all(entries).live() <= s.capacity,
    decreases entries.len(),
{
    if entries.len() > 0 {
        lemma_capacity_bound(s, entries.drop_last());
        lemma_insert_keeps_wf(
            s.insert_all(entries.drop_last()),
            entries.last().0,
            entries.last().1,
        );
    }
    lemma_live_within_capacity(s.insert_all(entries));
}

/// An update changes the value of its key and nothing else: every key keeps
/// its place in the order, and every other key keeps its value.
pub proof fn lemma_update_keeps_place<K, V>(s: FifoState<K, V>, k: K, v: V)
    requires
        s.wf(),
        s.lookup(k) is Some,
    ensures
        s.insert(k, v).order == s.order,
        s.insert(k, v).capacity == s.capacity,
        s.insert(k, v).lookup(k) == Some(v),
        forall|x: K| x != k ==> s.insert(k, v).lookup(x) == s.lookup(x),
{
}

/// A new key enters with its value. If the cache is full, it drives out the
/// oldest key; every other key keeps its value.
pub proof fn lemma_miss_evicts_oldest<K, V>(s: FifoState<K, V>, k: K, v: V)
    requires
        s.wf(),
        s.lookup(k) is None,
    ensures
        s.insert(k, v).lookup(k) == Some(v),
        s.is_full() ==> s.insert(k, v).lookup(s.order.first()) is None,
        forall|x: K|
            x != k && !(s.is_full() && x == s.order.first()) ==> #[trigger] s.insert(k, v).lookup(
                x,
            ) == s.lookup(x),
{
    if s.is_full() {
        assert(s.order.to_set().contains(s.order[0]));
    }
}

/// An update does not put off the eviction of its key: when the oldest key
/// of a full cache is updated, the next new key still drives it out.
pub proof fn lemma_update_does_not_refresh<K, V>(
    s: FifoState<K, V>,
    k: K,
    v: V,
    newcomer: K,
    w: V,
)
    requires
        s.wf(),
        s.is_full(),
        s.order.first() == k,
        s.lookup(newcomer) is None,
    ensures
        s.insert(k, v).lookup(k) == Some(v),
        s.insert(k, v).insert(newcomer, w).lookup(k) is None,
        s.insert(k, v).insert(newcomer, w).lookup(newcomer) == Some(w),
{
    assert(s.order.to_set().contains(s.order[0]));
    lemma_update_keeps_place(s, k, v);
    lemma_insert_keeps_wf(s, k, v);
    lemma_miss_evicts_oldest(s.insert(k, v), newcomer, w);
}

/// Of distinct keys inserted into a cache that has just been made, the cache
/// holds the newest, as many as its capacity allows, in the order in which
/// they came and each with its value; the keys before them are gone.
pub proof fn lemma_fresh_cache_keeps_newest<K, V>(capacity: nat, entries: Seq<(K, V)>)
    requires
        capacity >= 1,
        distinct_keys(entries),
    ensures
        ({
            let s = FifoState::<K, V>::empty(capacity).insert_all(entries);
            let gone = if entries.len() > capacity {
                entries.len() - capacity
            } else {
                0
            };
            &&& s.wf()
            &&& s.capacity == capacity
            &&& s.order == keys_of(entries).skip(gone)
            &&& forall|i: int| 0 <= i < gone ==> s.lookup(#[trigger] entries[i].0) is None
            &&& forall|i: int|
                gone <= i < entries.len() ==> s.lookup(#[trigger] entries[i].0) == Some(
                    entries[i].1,
                )
        }),
    decreases entries.len(),
{
    let fresh = FifoState::<K, V>::empty(capacity);
    let s = fresh.insert_all(entries);
    let n = entries.len() as int;
    let gone = if n > capacity {
        n - capacity
    } else {
        0
    };
    if n == 0 {
        assert(s.order =~= keys_of(entries).skip(gone));
        assert(s.table.dom() =~= s.order.to_set());
    } else {
        let earlier = entries.drop_last();
        let (k, v) = entries.last();
        let t = fresh.insert_all(earlier);
        let gone_earlier = if n - 1 > capacity {
            n - 1 - capacity
        } else {
            0
        };
        lemma_fresh_cache_keeps_newest::<K, V>(capacity, earlier);
        assert(s == t.insert(k, v));
        assert(t.order.len() == n - 1 - gone_earlier);

        // the new key is none of the earlier ones, so it enters as a new key
        assert(t.lookup(k) is None) by {
            if t.order.to_set().contains(k) {
                let i = choose|i: int| 0 <= i < t.order.len() && t.order[i] == k;
                assert(entries[gone_earlier + i].0 == entries[n - 1].0);
            }
        }
        lemma_insert_keeps_wf(t, k, v);
        lemma_miss_evicts_oldest(t, k, v);

        // the oldest key leaves exactly when the cache was full
        assert(t.is_full() <==> gone == gone_earlier + 1);
        assert(!t.is_full() ==> gone == 0 && gone_earlier == 0);
        assert(s.order =~= keys_of(entries).skip(gone));

        assert forall|i: int| 0 <= i < gone implies s.lookup(#[trigger] entries[i].0) is None by {
            if i < gone_earlier {
                assert(t.lookup(earlier[i].0) is None);
            } else {
                assert(t.order.first() == earlier[i].0);
            }
        }
        assert forall|i: int| gone <= i < n implies s.lookup(#[trigger] entries[i].0) == Some(
            entries[i].1,
        ) by {
            if i < n - 1 {
                assert(t.lookup(earlier[i].0) == Some(earlier[i].1));
                if t.is_full() {
                    assert(t.order.first() == entries[gone_earlier].0);
                }
            }
        }
    }
}

/// First in, first out: when one key more than the capacity has been
/// inserted into a cache that has just been made, all of them distinct, the
/// first of them is gone and each of the others has its value.
pub proof fn lemma_fifo_eviction<K, V>(capacity: nat, entries: Seq<(K, V)>)
    requires
        capacity >= 1,
        entries.len() == capacity + 1,
        distinct_keys(entries),
    ensures
        ({
            let s = FifoState::<K, V>::empty(capacity).insert_all(entries);
            &&& s.lookup(entries[0].0) is None
            &&& forall|i: int|
                1 <= i < entries.len() ==> s.lookup(#[trigger] entries[i].0) == Some(
                    entries[i].1,
                )
        }),
{
    lemma_fresh_cache_keeps_newest(capacity, entries);
}

} // verus!
