//! Eviction: removing keys when the keyspace reaches its soft limit.

use vstd::prelude::*;
use vstd::math::min;
use crate::store::{shrinks, Store, StoreEntry};

verus! {

/// The ratio is given in thousandths: 400 stands for 0.4.
pub struct EvictionManagerConfiguration {
    pub keys_limit: u64,
    pub eviction_ratio_per_mille: u64,
}

impl EvictionManagerConfiguration {
    /// How many keys one eviction removes: `keys_limit * ratio`, rounded down.
    pub open spec fn keys_to_remove(&self) -> nat {
        let n = self.keys_limit as nat * self.eviction_ratio_per_mille as nat / 1000;
        if n > u64::MAX {
            u64::MAX as nat
        } else {
            n
        }
    }

    pub fn get_keys_to_remove(&self) -> (r: u64)
        ensures
            r == self.keys_to_remove(),
    {
        let a = self.keys_limit as u128;
        let b = self.eviction_ratio_per_mille as u128;
        assert(a * b <= 0xFFFF_FFFF_FFFF_FFFF * 0xFFFF_FFFF_FFFF_FFFFu128) by (nonlinear_arith)
            requires
                a <= 0xFFFF_FFFF_FFFF_FFFFu128,
                b <= 0xFFFF_FFFF_FFFF_FFFFu128,
        ;
        let n: u128 = a * b / 1000;
        if n > u64::MAX as u128 {
            u64::MAX
        } else {
            n as u64
        }
    }
}

/// Removes the first key in iteration order.
pub struct SimpleEvictionStrategy {}

/// Another name for [`SimpleEvictionStrategy`].
pub type SimpleEvictionPolicy = SimpleEvictionStrategy;

/// Removes the first `keys_limit * ratio` keys in iteration order.
pub struct AllKeysRandomEvictionStrategy {}

/// Another name for [`AllKeysRandomEvictionStrategy`].
pub type AllKeysRandomEvictionPolicy = AllKeysRandomEvictionStrategy;

/// A candidate for approximate-LRU eviction: a key and its access clock when sampled.
pub struct EvictionPoolItem {
    pub key: String,
    pub last_accessed_at: u32,
}

/// Approximate LRU: a small pool of old candidates, refreshed from a sample
/// of the keyspace on each eviction; the oldest candidates are evicted.
pub struct AllKeysLRUEvictionStrategy {
    pool: Vec<EvictionPoolItem>,
    capacity: usize,
    sample_size: usize,
}

/// The pool is ordered by access clock, oldest first.
pub open spec fn pool_sorted(pool: Seq<EvictionPoolItem>) -> bool {
    forall|i: int, j: int|
        0 <= i <= j < pool.len() ==> (#[trigger] pool[i]).last_accessed_at <= (
        #[trigger] pool[j]).last_accessed_at
}

/// No key stands twice in the pool.
pub open spec fn pool_distinct(pool: Seq<EvictionPoolItem>) -> bool {
    forall|i: int, j: int|
        0 <= i < j < pool.len() ==> (#[trigger] pool[i]).key@ != (#[trigger] pool[j]).key@
}

/// Whether a key stands in the pool.
pub open spec fn pool_has(pool: Seq<EvictionPoolItem>, k: Seq<char>) -> bool {
    exists|i: int| 0 <= i < pool.len() && #[trigger] pool[i].key@ == k
}

/// Where a candidate with access clock `clock` goes: after every candidate
/// that is not newer.
pub open spec fn insert_position(pool: Seq<EvictionPoolItem>, clock: u32) -> int
    decreases pool.len(),
{
    if pool.len() == 0 || pool[0].last_accessed_at > clock {
        0
    } else {
        1 + insert_position(pool.drop_first(), clock)
    }
}

/// The candidate an entry offers.
pub open spec fn item_of(e: StoreEntry) -> EvictionPoolItem {
    EvictionPoolItem { key: e.key, last_accessed_at: e.object.last_accessed_at }
}

/// Offering a candidate to the pool: a key already there is skipped; while
/// there is room it goes in its place by clock; when full it replaces the
/// oldest candidate if it is older still.
pub open spec fn offer(pool: Seq<EvictionPoolItem>, item: EvictionPoolItem, capacity: nat) -> Seq<
    EvictionPoolItem,
> {
    if pool_has(pool, item.key@) {
        pool
    } else if pool.len() < capacity {
        pool.insert(insert_position(pool, item.last_accessed_at), item)
    } else if pool.len() > 0 && item.last_accessed_at < pool[0].last_accessed_at {
        pool.update(0, item)
    } else {
        pool
    }
}

/// Offering the candidates of the entries, in order.
pub open spec fn offer_all(pool: Seq<EvictionPoolItem>, entries: Seq<StoreEntry>, capacity: nat) -> Seq<
    EvictionPoolItem,
>
    decreases entries.len(),
{
    if entries.len() == 0 {
        pool
    } else {
        offer(offer_all(pool, entries.drop_last(), capacity), item_of(entries.last()), capacity)
    }
}

proof fn lemma_insert_position(pool: Seq<EvictionPoolItem>, clock: u32, p: int)
    requires
        0 <= p <= pool.len(),
        forall|j: int| 0 <= j < p ==> (#[trigger] pool[j]).last_accessed_at <= clock,
        p < pool.len() ==> pool[p].last_accessed_at > clock,
    ensures
        insert_position(pool, clock) == p,
    decreases p,
{
    if p > 0 {
        let rest = pool.drop_first();
        assert forall|j: int| 0 <= j < p - 1 implies (#[trigger] rest[j]).last_accessed_at <= clock by {
            assert(rest[j] == pool[j + 1]);
        }
        if p - 1 < rest.len() {
            assert(rest[p - 1] == pool[p]);
        }
        lemma_insert_position(rest, clock, p - 1);
        assert(pool[0].last_accessed_at <= clock);
    }
}

/// The pool that an eviction refreshes from a keyspace: the first
/// `sample_size` entries in iteration order offered in turn.
pub open spec fn refreshed_pool(lru: AllKeysLRUEvictionStrategy, s: Store) -> Seq<EvictionPoolItem> {
    offer_all(
        lru.pool(),
        s.entries().subrange(0, min(lru.sample_size() as int, s.entries().len() as int)),
        lru.capacity(),
    )
}

/// What an approximate-LRU eviction does: the refreshed pool loses its
/// `keys_to_remove` oldest candidates (all if it holds fewer), and the
/// keyspace loses exactly their keys, from both tables.
pub open spec fn lru_eviction_effect(
    config: EvictionManagerConfiguration,
    lru0: AllKeysLRUEvictionStrategy,
    lru1: AllKeysLRUEvictionStrategy,
    s0: Store,
    s1: Store,
) -> bool {
    let pool1 = refreshed_pool(lru0, s0);
    let j = min(config.keys_to_remove() as int, pool1.len() as int);
    &&& lru1.wf()
    &&& lru1.capacity() == lru0.capacity()
    &&& lru1.sample_size() == lru0.sample_size()
    &&& lru1.pool() == pool1.subrange(j, pool1.len() as int)
    &&& s1.wf()
    &&& s1.len() <= s0.len()
    &&& shrinks(s0, s1)
    &&& forall|k: Seq<char>|
        #[trigger] s1.objects().contains_key(k) <==> s0.objects().contains_key(k) && !pool_has(
            pool1.subrange(0, j),
            k,
        )
    &&& forall|k: Seq<char>|
        #[trigger] s1.expirations().contains_key(k) <==> s0.expirations().contains_key(k)
            && !pool_has(pool1.subrange(0, j), k)
}

impl AllKeysLRUEvictionStrategy {
    pub closed spec fn pool(&self) -> Seq<EvictionPoolItem> {
        self.pool@
    }

    pub closed spec fn capacity(&self) -> nat {
        self.capacity as nat
    }

    pub closed spec fn sample_size(&self) -> nat {
        self.sample_size as nat
    }

    /// The pool is sorted, holds no key twice, and is within its capacity.
    pub closed spec fn wf(&self) -> bool {
        &&& pool_sorted(self.pool@)
        &&& pool_distinct(self.pool@)
        &&& self.pool@.len() <= self.capacity
    }

    /// An empty pool of 15 candidates, refreshed from 5 keys at a time.
    pub fn new() -> (r: Self)
        ensures
            r.wf(),
            r.pool() == Seq::<EvictionPoolItem>::empty(),
            r.capacity() == 15,
            r.sample_size() == 5,
    {
        AllKeysLRUEvictionStrategy { pool: Vec::new(), capacity: 15, sample_size: 5 }
    }

    fn pool_contains(&self, key: &String) -> (r: bool)
        ensures
            r == pool_has(self.pool@, key@),
    {
        let mut i: usize = 0;
        while i < self.pool.len()
            invariant
                i <= self.pool@.len(),
                forall|j: int| 0 <= j < i ==> (#[trigger] self.pool@[j]).key@ != key@,
            decreases self.pool@.len() - i,
        {
            if self.pool[i].key == *key {
                return true;
            }
            i += 1;
        }
        false
    }

    /// Inserts a candidate whose key is not in the pool where its access clock places it.
    fn insert_sorted(&mut self, item: EvictionPoolItem)
        requires
            pool_sorted(old(self).pool@),
            pool_distinct(old(self).pool@),
            !pool_has(old(self).pool@, item.key@),
        ensures
            final(self).pool@ == old(self).pool@.insert(
                insert_position(old(self).pool@, item.last_accessed_at),
                item,
            ),
            final(self).pool@.len() == old(self).pool@.len() + 1,
            pool_sorted(final(self).pool@),
            pool_distinct(final(self).pool@),
            final(self).capacity == old(self).capacity,
            final(self).sample_size == old(self).sample_size,
    {
        let mut p: usize = 0;
        while p < self.pool.len() && self.pool[p].last_accessed_at <= item.last_accessed_at
            invariant
                p <= self.pool@.len(),
                forall|j: int| 0 <= j < p ==> (#[trigger] self.pool@[j]).last_accessed_at <= item.last_accessed_at,
            decreases self.pool@.len() - p,
        {
            p += 1;
        }
        let ghost old_pool = self.pool@;
        let ghost it = item;
        let ghost clock = item.last_accessed_at;
        proof {
            lemma_insert_position(old_pool, clock, p as int);
        }
        self.pool.insert(p, item);
        proof {
            let n = self.pool@;
            assert forall|i: int, j: int| 0 <= i <= j < n.len() implies (
            #[trigger] n[i]).last_accessed_at <= (#[trigger] n[j]).last_accessed_at by {
                if i < p && j > p {
                    assert(n[i] == old_pool[i]);
                    assert(n[j] == old_pool[j - 1]);
                } else if i < p && j < p {
                    assert(n[i] == old_pool[i]);
                    assert(n[j] == old_pool[j]);
                } else if i > p {
                    assert(n[i] == old_pool[i - 1]);
                    assert(n[j] == old_pool[j - 1]);
                } else if i == p && j > p {
                    assert(n[j] == old_pool[j - 1]);
                    assert(!(old_pool[p as int].last_accessed_at <= clock));
                } else if i < p && j == p {
                    assert(n[i] == old_pool[i]);
                }
            }
            assert forall|i: int, j: int| 0 <= i < j < n.len() implies (#[trigger] n[i]).key@ != (
            #[trigger] n[j]).key@ by {
                if i == p {
                    assert(n[j] == old_pool[j - 1]);
                } else if j == p {
                    assert(n[i] == old_pool[i]);
                } else {
                    let i0 = if i < p { i } else { i - 1 };
                    let j0 = if j < p { j } else { j - 1 };
                    assert(n[i] == old_pool[i0]);
                    assert(n[j] == old_pool[j0]);
                }
            }
        }
    }

    /// Offers the first `sample_size` keys in iteration order to the pool.
    fn populate_pool(&mut self, store: &Store)
        requires
            old(self).wf(),
        ensures
            final(self).wf(),
            final(self).capacity == old(self).capacity,
            final(self).sample_size == old(self).sample_size,
            final(self).pool@ == refreshed_pool(*old(self), *store),
    {
        let data = store.get_data();
        let ghost pool0 = self.pool@;
        let ghost cap = self.capacity as nat;
        let mut i: usize = 0;
        proof {
            assert(data@.subrange(0, 0) =~= Seq::<StoreEntry>::empty());
        }
        while i < data.len() && i < self.sample_size
            invariant
                self.wf(),
                self.capacity == old(self).capacity,
                self.sample_size == old(self).sample_size,
                cap == self.capacity as nat,
                pool0 == old(self).pool@,
                data@ == store.entries(),
                i <= data@.len(),
                i <= self.sample_size,
                self.pool@ == offer_all(pool0, data@.subrange(0, i as int), cap),
            decreases data@.len() - i,
        {
            let entry: &StoreEntry = &data[i];
            let ghost before = self.pool@;
            let ghost next = data@.subrange(0, i + 1);
            proof {
                assert(next.drop_last() =~= data@.subrange(0, i as int));
                assert(next.last() == data@[i as int]);
            }
            if !self.pool_contains(&entry.key) {
                let item = EvictionPoolItem {
                    key: entry.key.clone(),
                    last_accessed_at: entry.object.last_accessed_at,
                };
                assert(item == item_of(*entry));
                if self.pool.len() < self.capacity {
                    self.insert_sorted(item);
                } else if self.pool.len() > 0 && item.last_accessed_at
                    < self.pool[0].last_accessed_at {
                    let ghost it = item;
                    self.pool.set(0, item);
                    proof {
                        let n = self.pool@;
                        assert(n == before.update(0, it));
                        assert forall|a: int, b: int| 0 <= a <= b < n.len() implies (
                        #[trigger] n[a]).last_accessed_at <= (#[trigger] n[b]).last_accessed_at by {
                            if a > 0 {
                                assert(n[a] == before[a]);
                            }
                            assert(before[0].last_accessed_at <= before[b].last_accessed_at);
                        }
                        assert forall|a: int, b: int| 0 <= a < b < n.len() implies (
                        #[trigger] n[a]).key@ != (#[trigger] n[b]).key@ by {
                            assert(n[b] == before[b]);
                            if a > 0 {
                                assert(n[a] == before[a]);
                            } else {
                                assert(!pool_has(before, it.key@));
                                assert(before[b].key@ != it.key@);
                            }
                        }
                    }
                }
            }
            i += 1;
        }
        proof {
            let m = min(self.sample_size as int, data@.len() as int);
            assert(i == m);
        }
    }

    /// Refreshes the pool, then evicts its oldest `keys_to_remove` candidates;
    /// a candidate whose key is already gone is skipped.
    pub fn evict(&mut self, config: &EvictionManagerConfiguration, store: &mut Store)
        requires
            old(self).wf(),
            old(store).wf(),
        ensures
            lru_eviction_effect(*config, *old(self), *final(self), *old(store), *final(store)),
    {
        self.populate_pool(store);
        let ghost pool1 = self.pool@;
        let n = config.get_keys_to_remove();
        let mut removed: u64 = 0;
        proof {
            assert(pool1.subrange(0, 0) =~= Seq::<EvictionPoolItem>::empty());
            assert(pool1.subrange(0, pool1.len() as int) =~= pool1);
        }
        while removed < n && self.pool.len() > 0
            invariant
                self.wf(),
                self.capacity == old(self).capacity,
                self.sample_size == old(self).sample_size,
                pool1 == refreshed_pool(*old(self), *old(store)),
                store.wf(),
                store.len() <= old(store).len(),
                n == config.keys_to_remove(),
                removed <= n,
                removed <= pool1.len(),
                self.pool@ == pool1.subrange(removed as int, pool1.len() as int),
                shrinks(*old(store), *store),
                forall|k: Seq<char>|
                    #[trigger] store.objects().contains_key(k) <==> old(store).objects().contains_key(k)
                        && !pool_has(pool1.subrange(0, removed as int), k),
                forall|k: Seq<char>|
                    #[trigger] store.expirations().contains_key(k) <==> old(store).expirations().contains_key(k)
                        && !pool_has(pool1.subrange(0, removed as int), k),
            decreases n - removed,
        {
            let ghost old_pool = self.pool@;
            let item = self.pool.remove(0);
            let ghost k0 = item.key@;
            proof {
                assert(item == pool1[removed as int]);
                assert forall|i: int, j: int| 0 <= i <= j < self.pool@.len() implies (
                #[trigger] self.pool@[i]).last_accessed_at <= (
                #[trigger] self.pool@[j]).last_accessed_at by {
                    assert(self.pool@[i] == old_pool[i + 1]);
                    assert(self.pool@[j] == old_pool[j + 1]);
                }
                assert forall|i: int, j: int| 0 <= i < j < self.pool@.len() implies (
                #[trigger] self.pool@[i]).key@ != (#[trigger] self.pool@[j]).key@ by {
                    assert(self.pool@[i] == old_pool[i + 1]);
                    assert(self.pool@[j] == old_pool[j + 1]);
                }
                assert(self.pool@ =~= pool1.subrange(removed + 1, pool1.len() as int));
                let a = pool1.subrange(0, removed as int);
                let b = pool1.subrange(0, removed + 1);
                assert forall|k: Seq<char>| pool_has(b, k) <==> pool_has(a, k) || k == k0 by {
                    if pool_has(b, k) {
                        let w = choose|w: int| 0 <= w < b.len() && #[trigger] b[w].key@ == k;
                        if w < removed {
                            assert(a[w] == b[w]);
                        }
                    }
                    if pool_has(a, k) {
                        let w = choose|w: int| 0 <= w < a.len() && #[trigger] a[w].key@ == k;
                        assert(b[w] == a[w]);
                    }
                    if k == k0 {
                        assert(b[removed as int] == item);
                    }
                }
            }
            store.remove(item.key.as_str());
            removed += 1;
        }
        proof {
            let j = min(config.keys_to_remove() as int, pool1.len() as int);
            assert(removed == j);
        }
    }
}

/// How the keys to evict are chosen.
pub enum EvictionStrategy {
    Simple(SimpleEvictionStrategy),
    AllKeysRandom(AllKeysRandomEvictionStrategy),
    AllKeysLRU(AllKeysLRUEvictionStrategy),
}

impl EvictionStrategy {
    pub open spec fn wf(&self) -> bool {
        match self {
            EvictionStrategy::AllKeysLRU(s) => s.wf(),
            _ => true,
        }
    }
}

/// What removing the first key in iteration order does.
pub open spec fn simple_eviction_effect(s0: Store, s1: Store) -> bool {
    &&& s1.wf()
    &&& s1.len() <= s0.len()
    &&& s0.len() == 0 ==> s1.objects() == s0.objects() && s1.expirations() == s0.expirations()
    &&& s0.len() > 0 ==> s1.objects() == s0.objects().remove(s0.entries()[0].key@)
        && s1.expirations() == s0.expirations().remove(s0.entries()[0].key@) && s1.len() + 1
        == s0.len()
}

impl SimpleEvictionStrategy {
    /// Removes the first key in iteration order, if there is one.
    pub fn evict(&self, config: &EvictionManagerConfiguration, store: &mut Store)
        requires
            old(store).wf(),
        ensures
            simple_eviction_effect(*old(store), *final(store)),
    {
        proof {
            store.lemma_wf();
        }
        if store.get_data().len() > 0 {
            let key = store.get_data()[0].key.clone();
            store.remove(key.as_str());
        }
    }
}

/// What removing the first `keys_to_remove` keys in iteration order does:
/// the entries lose that many from the front (all if there are fewer), and
/// every key that remains keeps its value and its expiry.
pub open spec fn random_eviction_effect(config: EvictionManagerConfiguration, s0: Store, s1: Store) -> bool {
    let m = min(config.keys_to_remove() as int, s0.len() as int);
    &&& s1.wf()
    &&& s1.len() == s0.len() - m
    &&& s1.entries() == s0.entries().subrange(m, s0.len() as int)
    &&& shrinks(s0, s1)
}

impl AllKeysRandomEvictionStrategy {
    /// Removes the first `keys_to_remove` keys in iteration order, or all of
    /// them if there are fewer.
    pub fn evict(&self, config: &EvictionManagerConfiguration, store: &mut Store)
        requires
            old(store).wf(),
        ensures
            random_eviction_effect(*config, *old(store), *final(store)),
    {
        let n = config.get_keys_to_remove();
        let ghost entries0 = store.entries();
        let ghost len0 = store.len();
        let mut removed: u64 = 0;
        proof {
            store.lemma_wf();
            assert(entries0.subrange(0, len0 as int) =~= entries0);
        }
        while removed < n && store.get_data().len() > 0
            invariant
                store.wf(),
                removed <= n,
                removed <= len0,
                entries0 == old(store).entries(),
                len0 == old(store).len(),
                len0 == entries0.len(),
                store.entries() == entries0.subrange(removed as int, len0 as int),
                shrinks(*old(store), *store),
            decreases n - removed,
        {
            proof {
                store.lemma_wf();
            }
            assert(store.entries().len() == len0 - removed);
            let key = store.get_data()[0].key.clone();
            let ghost before = store.entries();
            store.remove(key.as_str());
            proof {
                store.lemma_wf();
                let i = choose|i: int|
                    0 <= i < before.len() && before[i].key@ == key@ && store.entries()
                        == before.remove(i);
                if i != 0 {
                    assert(before[0].key@ != before[i].key@);
                }
                assert(store.entries() =~= entries0.subrange(removed + 1, len0 as int));
            }
            removed += 1;
        }
        proof {
            store.lemma_wf();
        }
    }
}

pub struct EvictionManager {
    pub strategy: EvictionStrategy,
    pub config: EvictionManagerConfiguration,
}

impl EvictionManager {
    pub open spec fn wf(&self) -> bool {
        self.strategy.wf()
    }

    pub fn new(config: EvictionManagerConfiguration, strategy: EvictionStrategy) -> (r: EvictionManager)
        ensures
            r.config == config,
            r.strategy == strategy,
    {
        EvictionManager { config, strategy }
    }

    /// Whether the keyspace has reached its limit.
    pub fn ready_for_evict(&self, store: &Store) -> (r: bool)
        requires
            store.wf(),
        ensures
            r == (store.len() >= self.config.keys_limit),
    {
        proof {
            store.lemma_wf();
        }
        store.get_data().len() as u64 >= self.config.keys_limit
    }

    /// Evicts keys as the strategy chooses them.
    pub fn evict(&mut self, store: &mut Store)
        requires
            old(self).wf(),
            old(store).wf(),
        ensures
            final(self).wf(),
            final(self).config == old(self).config,
            final(self).strategy is AllKeysRandom <==> old(self).strategy is AllKeysRandom,
            final(store).wf(),
            final(store).len() <= old(store).len(),
            shrinks(*old(store), *final(store)),
            match old(self).strategy {
                EvictionStrategy::Simple(_) => final(self).strategy == old(self).strategy
                    && simple_eviction_effect(*old(store), *final(store)),
                EvictionStrategy::AllKeysRandom(_) => final(self).strategy == old(self).strategy
                    && random_eviction_effect(old(self).config, *old(store), *final(store)),
                EvictionStrategy::AllKeysLRU(lru0) => final(self).strategy is AllKeysLRU
                    && lru_eviction_effect(
                    old(self).config,
                    lru0,
                    final(self).strategy->AllKeysLRU_0,
                    *old(store),
                    *final(store),
                ),
            },
    {
        match &mut self.strategy {
            EvictionStrategy::Simple(s) => {
                s.evict(&self.config, store);
            },
            EvictionStrategy::AllKeysRandom(s) => {
                s.evict(&self.config, store);
            },
            EvictionStrategy::AllKeysLRU(s) => {
                s.evict(&self.config, store);
            },
        }
    }
}

} // verus!
