//! Active expiration: a periodic sweep that deletes keys whose expiry has
//! passed, sampling a few keys with a time to live at a time.

use vstd::prelude::*;
use vstd::math::min;
use crate::store::{lemma_shrinks_trans, now_millis, shrinks, ExpirationEntry, Store};

verus! {

/// How many keys with a time to live one sweep looks at.
pub const SAMPLE_SIZE: usize = 20;

/// How many of the first `n` entries have expired before `now_ms`.
pub open spec fn expired_in_sample(entries: Seq<ExpirationEntry>, n: int, now_ms: i64) -> nat
    decreases n,
{
    if n <= 0 {
        0
    } else {
        expired_in_sample(entries, n - 1, now_ms) + if entries[n - 1].expires_at < now_ms {
            1nat
        } else {
            0nat
        }
    }
}

/// Whether `k` is one of the first `n` entries and has expired before `now_ms`.
pub open spec fn sampled_expired(entries: Seq<ExpirationEntry>, n: int, now_ms: i64, k: Seq<char>) -> bool {
    exists|j: int| 0 <= j < n && #[trigger] entries[j].key@ == k && entries[j].expires_at < now_ms
}

/// Whether `k` is among the first `t` of the keys.
pub open spec fn listed(keys: Seq<String>, t: int, k: Seq<char>) -> bool {
    exists|u: int| 0 <= u < t && #[trigger] keys[u]@ == k
}

/// Whether a sweep that sampled `sampled` keys and deleted `deleted` of them
/// deleted more than a quarter of them, so that another sweep follows.
pub open spec fn sweep_again(deleted: nat, sampled: nat) -> bool {
    sampled > 0 && 4 * deleted > sampled
}

pub struct ActiveExpirationManager {
    cron_interval_ms: u64,
    last_run: u64,
    deleted_keys: u64,
    total_keys: u64,
}

impl ActiveExpirationManager {
    pub closed spec fn cron_interval(&self) -> u64 {
        self.cron_interval_ms
    }

    pub closed spec fn last_run(&self) -> u64 {
        self.last_run
    }

    pub fn new(cron_interval: u64) -> (r: Self)
        ensures
            r.cron_interval() == cron_interval,
            r.last_run() == 0,
    {
        Self { cron_interval_ms: cron_interval, last_run: 0, deleted_keys: 0, total_keys: 0 }
    }

    /// One sweep at `now_ms`: deletes every key among the first
    /// `SAMPLE_SIZE` keys with a time to live whose expiry is before `now_ms`,
    /// and says whether more than a quarter of the sample was deleted.
    pub fn sweep(&mut self, store: &mut Store, now_ms: i64) -> (r: bool)
        requires
            old(store).wf(),
        ensures
            sweep_effect(*old(store), *final(store), now_ms, r),
            final(self).cron_interval() == old(self).cron_interval(),
            final(self).last_run() == old(self).last_run(),
    {
        proof {
            store.lemma_wf();
        }
        let ghost e = store.expiration_entries();
        let exp = store.get_expiration_data();
        let n: usize = if exp.len() < SAMPLE_SIZE { exp.len() } else { SAMPLE_SIZE };
        let mut keys_to_delete: Vec<String> = Vec::new();
        let mut i: usize = 0;
        while i < n
            invariant
                n <= exp@.len(),
                exp@ == e,
                e == old(store).expiration_entries(),
                expiration_table_holds(*old(store)),
                i <= n,
                keys_to_delete@.len() == expired_in_sample(e, i as int, now_ms),
                keys_to_delete@.len() <= i,
                forall|t: int|
                    0 <= t < keys_to_delete@.len() ==> old(store).expirations().contains_key(
                        (#[trigger] keys_to_delete@[t])@,
                    ),
                forall|k: Seq<char>|
                    #[trigger] listed(keys_to_delete@, keys_to_delete@.len() as int, k)
                        <==> sampled_expired(e, i as int, now_ms, k),
            decreases n - i,
        {
            let ghost before = keys_to_delete@;
            if exp[i].expires_at < now_ms {
                keys_to_delete.push(exp[i].key.clone());
            }
            proof {
                assert forall|k: Seq<char>|
                    #[trigger] listed(keys_to_delete@, keys_to_delete@.len() as int, k)
                        <==> sampled_expired(e, i + 1, now_ms, k) by {
                    if listed(keys_to_delete@, keys_to_delete@.len() as int, k) {
                        let t = choose|t: int| 0 <= t < keys_to_delete@.len() && #[trigger] keys_to_delete@[t]@ == k;
                        if t < before.len() {
                            assert(keys_to_delete@[t] == before[t]);
                            assert(listed(before, before.len() as int, k));
                            let j = choose|j: int| 0 <= j < i && #[trigger] e[j].key@ == k && e[j].expires_at < now_ms;
                            assert(e[j].key@ == k);
                        } else {
                            assert(e[i as int].key@ == k);
                        }
                    }
                    if sampled_expired(e, i + 1, now_ms, k) {
                        let j = choose|j: int| 0 <= j < i + 1 && #[trigger] e[j].key@ == k && e[j].expires_at < now_ms;
                        if j < i {
                            assert(sampled_expired(e, i as int, now_ms, k));
                            assert(listed(before, before.len() as int, k));
                            let t = choose|t: int| 0 <= t < before.len() && #[trigger] before[t]@ == k;
                            assert(keys_to_delete@[t] == before[t]);
                        } else {
                            assert(keys_to_delete@[before.len() as int]@ == k);
                        }
                    }
                }
            }
            i += 1;
        }
        let ghost keys = keys_to_delete@;
        let count = keys_to_delete.len();
        let mut t: usize = 0;
        while t < count
            invariant
                store.wf(),
                store.eviction_manager() == old(store).eviction_manager(),
                count == keys.len(),
                keys == keys_to_delete@,
                t <= count,
                forall|u: int| 0 <= u < keys.len() ==> old(store).expirations().contains_key((#[trigger] keys[u])@),
                old(store).expirations().dom().subset_of(old(store).objects().dom()),
                store.len() + (if t > 0 { 1int } else { 0int }) <= old(store).len(),
                forall|k: Seq<char>|
                    #[trigger] store.objects().contains_key(k) <==> old(store).objects().contains_key(k)
                        && !listed(keys, t as int, k),
                forall|k: Seq<char>|
                    #[trigger] store.objects().contains_key(k) ==> store.objects()[k] == old(store).objects()[k],
                forall|k: Seq<char>|
                    #[trigger] store.expirations().contains_key(k) <==> old(store).expirations().contains_key(k)
                        && !listed(keys, t as int, k),
                forall|k: Seq<char>|
                    #[trigger] store.expirations().contains_key(k) ==> store.expirations()[k] == old(store).expirations()[k],
            decreases count - t,
        {
            let ghost k0 = keys[t as int]@;
            proof {
                if t == 0 {
                    assert(old(store).objects().contains_key(k0));
                    assert(!listed(keys, t as int, k0));
                    assert(store.objects().contains_key(k0));
                }
            }
            store.remove(keys_to_delete[t].as_str());
            proof {
                assert forall|k: Seq<char>|
                    #[trigger] listed(keys, t + 1, k) <==> listed(keys, t as int, k) || k == k0 by {
                    if listed(keys, t + 1, k) {
                        let u = choose|u: int| 0 <= u < t + 1 && #[trigger] keys[u]@ == k;
                        if u < t {
                            assert(listed(keys, t as int, k));
                        }
                    }
                    if k == k0 {
                        assert(keys[t as int]@ == k);
                    }
                    if listed(keys, t as int, k) {
                        let u = choose|u: int| 0 <= u < t && #[trigger] keys[u]@ == k;
                        assert(keys[u]@ == k);
                    }
                }
            }
            t += 1;
        }
        proof {
            assert forall|k: Seq<char>|
                #[trigger] listed(keys, t as int, k) <==> sampled_expired(e, n as int, now_ms, k) by {
                assert(listed(keys, t as int, k) == listed(keys_to_delete@, keys_to_delete@.len() as int, k));
            }
        }
        self.deleted_keys = count as u64;
        self.total_keys = store.get_data().len() as u64;
        count > 0 && 4 * (count as u64) > n as u64
    }
}

/// What one sweep at `now_ms` does: every key among the first
/// `SAMPLE_SIZE` keys with a time to live whose expiry is before `now_ms`
/// leaves both tables, nothing else changes, and `again` says whether more
/// than a quarter of the sample was deleted.
pub open spec fn sweep_effect(s0: Store, s1: Store, now_ms: i64, again: bool) -> bool {
    let e = s0.expiration_entries();
    let n = min(e.len() as int, SAMPLE_SIZE as int);
    &&& s1.wf()
    &&& s1.eviction_manager() == s0.eviction_manager()
    &&& shrinks(s0, s1)
    &&& forall|k: Seq<char>|
        #[trigger] s1.objects().contains_key(k) <==> s0.objects().contains_key(k)
            && !sampled_expired(e, n, now_ms, k)
    &&& forall|k: Seq<char>|
        #[trigger] s1.expirations().contains_key(k) <==> s0.expirations().contains_key(k)
            && !sampled_expired(e, n, now_ms, k)
    &&& again == sweep_again(expired_in_sample(e, n, now_ms), n as nat)
    &&& s1.len() <= s0.len()
    &&& again ==> s1.len() < s0.len()
}

/// A key that a sweep removes had an expiry before `now_ms`.
pub proof fn lemma_sweep_removes_expired(s0: Store, s1: Store, now_ms: i64, again: bool, k: Seq<char>)
    requires
        s0.wf(),
        sweep_effect(s0, s1, now_ms, again),
        s0.objects().contains_key(k),
        !s1.objects().contains_key(k),
    ensures
        s0.expirations().contains_key(k),
        s0.expirations()[k] < now_ms,
{
    s0.lemma_wf();
    let e = s0.expiration_entries();
    let n = min(e.len() as int, SAMPLE_SIZE as int);
    assert(sampled_expired(e, n, now_ms, k));
    let j = choose|j: int| 0 <= j < n && #[trigger] e[j].key@ == k && e[j].expires_at < now_ms;
    assert(e[j].key@ == k);
}

/// What a tick at `now_ms` does. Before the interval has passed since the
/// last run, nothing. Else: the first sweep's effect stands (every sampled
/// key whose expiry has passed is gone), only keys whose expiry is before
/// `now_ms` ever leave, every remaining key keeps its value and expiry, and
/// the tick ends with a sweep that deleted no more than a quarter of its sample.
pub open spec fn tick_effect(
    m0: ActiveExpirationManager,
    m1: ActiveExpirationManager,
    s0: Store,
    s1: Store,
    now_ms: i64,
    r: bool,
) -> bool {
    &&& s1.wf()
    &&& s1.eviction_manager() == s0.eviction_manager()
    &&& r == m0.due(now_ms)
    &&& m1.cron_interval() == m0.cron_interval()
    &&& !r ==> s1 == s0 && m1 == m0
    &&& r ==> m1.last_run() == ActiveExpirationManager::clock_reading(now_ms)
    &&& shrinks(s0, s1)
    &&& forall|k: Seq<char>|
        s0.objects().contains_key(k) && !#[trigger] s1.objects().contains_key(k)
            ==> s0.expirations().contains_key(k) && s0.expirations()[k] < now_ms
    &&& r ==> exists|first: Store, again: bool|
        sweep_effect(s0, first, now_ms, again) && shrinks(first, s1)
    &&& r ==> exists|last: Store| sweep_effect(last, s1, now_ms, false)
}

impl ActiveExpirationManager {
    /// The clock reading as an unsigned count; instants before the epoch read as 0.
    pub open spec fn clock_reading(now_ms: i64) -> u64 {
        if now_ms < 0 {
            0
        } else {
            now_ms as u64
        }
    }

    /// Whether a tick at `now_ms` runs: the interval has passed since the last run.
    pub open spec fn due(&self, now_ms: i64) -> bool {
        let now = Self::clock_reading(now_ms);
        now >= self.last_run() && now - self.last_run() >= self.cron_interval()
    }

    /// One tick at `now_ms`. Before the interval has passed since the last
    /// run it does nothing; else it sweeps, and sweeps again while a sweep
    /// deletes more than a quarter of its sample. Returns whether it ran.
    pub fn run_at(&mut self, store: &mut Store, now_ms: i64) -> (r: bool)
        requires
            old(store).wf(),
        ensures
            tick_effect(*old(self), *final(self), *old(store), *final(store), now_ms, r),
    {
        let now: u64 = if now_ms < 0 { 0 } else { now_ms as u64 };
        if now < self.last_run || now - self.last_run < self.cron_interval_ms {
            return false;
        }
        let ghost s0 = *store;
        let mut again = self.sweep(store, now_ms);
        let ghost first = *store;
        let ghost first_again = again;
        let ghost mut last = s0;
        proof {
            s0.lemma_wf();
            assert forall|k: Seq<char>|
                s0.objects().contains_key(k) && !#[trigger] store.objects().contains_key(k)
                    implies s0.expirations().contains_key(k) && s0.expirations()[k] < now_ms by {
                lemma_sweep_removes_expired(s0, first, now_ms, again, k);
            }
        }
        while again
            invariant
                s0 == *old(store),
                s0.wf(),
                store.wf(),
                store.eviction_manager() == s0.eviction_manager(),
                self.cron_interval() == old(self).cron_interval(),
                self.last_run() == old(self).last_run(),
                self.cron_interval_ms == old(self).cron_interval_ms,
                self.last_run == old(self).last_run,
                sweep_effect(s0, first, now_ms, first_again),
                sweep_effect(last, *store, now_ms, again),
                shrinks(first, *store),
                shrinks(s0, *store),
                forall|k: Seq<char>|
                    s0.objects().contains_key(k) && !#[trigger] store.objects().contains_key(k)
                        ==> s0.expirations().contains_key(k) && s0.expirations()[k] < now_ms,
            decreases store.len() + if again { 1int } else { 0int },
        {
            let ghost pre = *store;
            again = self.sweep(store, now_ms);
            proof {
                last = pre;
                lemma_shrinks_trans(first, pre, *store);
                lemma_shrinks_trans(s0, pre, *store);
                assert forall|k: Seq<char>|
                    s0.objects().contains_key(k) && !#[trigger] store.objects().contains_key(k)
                        implies s0.expirations().contains_key(k) && s0.expirations()[k] < now_ms by {
                    if pre.objects().contains_key(k) {
                        lemma_sweep_removes_expired(pre, *store, now_ms, again, k);
                        assert(pre.expirations().contains_key(k));
                    }
                }
            }
        }
        self.last_run = now;
        true
    }

    /// One tick now; see `run_at`.
    pub fn run_loop(&mut self, store: &mut Store) -> (r: bool)
        requires
            old(store).wf(),
        ensures
            exists|now_ms: i64| tick_effect(*old(self), *final(self), *old(store), *final(store), now_ms, r),
    {
        let now_ms = now_millis();
        self.run_at(store, now_ms)
    }
}

/// Every expiration entry names a key of the expiration table.
pub open spec fn expiration_table_holds(s: Store) -> bool {
    forall|j: int|
        0 <= j < s.expiration_entries().len() ==> s.expirations().contains_key(
            (#[trigger] s.expiration_entries()[j]).key@,
        )
}

} // verus!
