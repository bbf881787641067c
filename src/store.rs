//! The keyspace: keys mapped to typed values, with expiration and an access
//! clock.

use vstd::prelude::*;
use vstd::utf8::*;
use crate::resp::{DataType, RespValue};
use crate::stats::{update_keyspace_statistics, KeyspaceStatistics};
use crate::eviction::{
    random_eviction_effect, AllKeysRandomEvictionStrategy, EvictionManager, EvictionManagerConfiguration, EvictionStrategy,
};
use vstd::math::min;

verus! {

/// A stored value. Only strings are held for now.
#[derive(Debug, PartialEq)]
pub enum ObjectValue {
    String(String),
}

impl Clone for ObjectValue {
    fn clone(&self) -> (r: Self)
        ensures
            r == *self,
    {
        match self {
            ObjectValue::String(s) => ObjectValue::String(s.clone()),
        }
    }
}

#[derive(Debug)]
pub struct StoreObject {
    /// Type in the high nibble, sub-encoding in the low nibble.
    pub type_encoding: u8,
    pub value: Box<ObjectValue>,
    /// The access clock when the value was last written or read.
    pub last_accessed_at: u32,
}

impl Clone for StoreObject {
    fn clone(&self) -> (r: Self)
        ensures
            r == *self,
    {
        StoreObject {
            type_encoding: self.type_encoding,
            value: Box::new((*self.value).clone()),
            last_accessed_at: self.last_accessed_at,
        }
    }
}

/// Relies on chrono's `Utc::now` and `DateTime::timestamp_millis`: the wall
/// clock, in milliseconds since the Unix epoch.
#[verifier::external_body]
pub(crate) fn now_millis() -> i64 {
    chrono::Utc::now().timestamp_millis()
}

/// The access clock: the low 32 bits of a millisecond timestamp.
pub open spec fn clock_of(now_ms: i64) -> u32 {
    (now_ms & 0xFFFF_FFFF) as u32
}

pub fn clock_from_millis(now_ms: i64) -> (r: u32)
    ensures
        r == clock_of(now_ms),
{
    (now_ms & 0xFFFF_FFFF) as u32
}

impl StoreObject {
    /// A value written now.
    pub fn new(value: ObjectValue, type_encoding: u8) -> (r: Self)
        ensures
            *r.value == value,
            r.type_encoding == type_encoding,
    {
        StoreObject {
            value: Box::new(value),
            type_encoding,
            last_accessed_at: clock_from_millis(now_millis()),
        }
    }

    pub fn get_value_clone(&self) -> (r: ObjectValue)
        ensures
            r == *self.value,
    {
        (*self.value).clone()
    }
}

/// A key and its value.
pub struct StoreEntry {
    pub key: String,
    pub object: StoreObject,
}

/// A key and the instant it expires at, in Unix milliseconds.
pub struct ExpirationEntry {
    pub key: String,
    pub expires_at: i64,
}

/// The entries hold distinct keys, and the map holds exactly their values.
pub open spec fn data_table(data: Seq<StoreEntry>, m: Map<Seq<char>, StoreObject>) -> bool {
    &&& forall|i: int, j: int|
        0 <= i < j < data.len() ==> (#[trigger] data[i]).key@ != (#[trigger] data[j]).key@
    &&& forall|i: int|
        0 <= i < data.len() ==> m.contains_key((#[trigger] data[i]).key@) && m[data[i].key@]
            == data[i].object
    &&& forall|k: Seq<char>|
        #[trigger] m.contains_key(k) ==> exists|i: int| 0 <= i < data.len() && data[i].key@ == k
}

/// The entries hold distinct keys, and the map holds exactly their instants.
pub open spec fn expiration_table(data: Seq<ExpirationEntry>, m: Map<Seq<char>, i64>) -> bool {
    &&& forall|i: int, j: int|
        0 <= i < j < data.len() ==> (#[trigger] data[i]).key@ != (#[trigger] data[j]).key@
    &&& forall|i: int|
        0 <= i < data.len() ==> m.contains_key((#[trigger] data[i]).key@) && m[data[i].key@]
            == data[i].expires_at
    &&& forall|k: Seq<char>|
        #[trigger] m.contains_key(k) ==> exists|i: int| 0 <= i < data.len() && data[i].key@ == k
}

/// When a value written at `now_ms` with a time to live of `ttl_ms` expires.
pub open spec fn expiry_after(now_ms: i64, ttl_ms: i64) -> i64 {
    if now_ms as int + ttl_ms as int > i64::MAX {
        i64::MAX
    } else {
        (now_ms + ttl_ms) as i64
    }
}

/// An object as a read at clock `clock` leaves it.
pub open spec fn touched(o: StoreObject, clock: u32) -> StoreObject {
    StoreObject { type_encoding: o.type_encoding, value: o.value, last_accessed_at: clock }
}

/// Whether a key's expiry has come at `now_ms`.
pub open spec fn expired_at(expirations: Map<Seq<char>, i64>, k: Seq<char>, now_ms: i64) -> bool {
    expirations.contains_key(k) && expirations[k] <= now_ms
}

/// A key is live at `now_ms` when it is present and its expiry, if any, is later.
pub open spec fn live(s: Store, k: Seq<char>, now_ms: i64) -> bool {
    s.objects().contains_key(k) && !expired_at(s.expirations(), k, now_ms)
}

/// What a lookup of `k` at `now_ms` does to the keyspace: nothing for an
/// absent key; an expired key leaves both tables; a live key gets its access
/// clock set.
pub open spec fn get_effect(s0: Store, s1: Store, k: Seq<char>, now_ms: i64) -> bool {
    &&& s1.wf()
    &&& s1.eviction_manager() == s0.eviction_manager()
    &&& !s0.objects().contains_key(k) ==> s1.objects() == s0.objects() && s1.expirations()
        == s0.expirations() && s1.len() == s0.len()
    &&& s0.objects().contains_key(k) && expired_at(s0.expirations(), k, now_ms) ==> s1.objects()
        == s0.objects().remove(k) && s1.expirations() == s0.expirations().remove(k)
    &&& live(s0, k, now_ms) ==> s1.objects() == s0.objects().insert(
        k,
        touched(s0.objects()[k], clock_of(now_ms)),
    ) && s1.expirations() == s0.expirations() && s1.len() == s0.len()
}

/// Keys only leave, and from both tables at once: every key that remains
/// keeps its value and its expiry.
pub open spec fn shrinks(s0: Store, s1: Store) -> bool {
    &&& forall|k: Seq<char>|
        #[trigger] s1.objects().contains_key(k) ==> s0.objects().contains_key(k) && s1.objects()[k]
            == s0.objects()[k]
    &&& forall|k: Seq<char>|
        #[trigger] s1.expirations().contains_key(k) ==> s0.expirations().contains_key(k)
            && s1.expirations()[k] == s0.expirations()[k]
    &&& forall|k: Seq<char>|
        s1.objects().contains_key(k) && #[trigger] s0.expirations().contains_key(k)
            ==> s1.expirations().contains_key(k)
}

/// Shrinking twice is shrinking.
pub proof fn lemma_shrinks_trans(a: Store, b: Store, c: Store)
    requires
        shrinks(a, b),
        shrinks(b, c),
    ensures
        shrinks(a, c),
{
    assert forall|k: Seq<char>|
        c.objects().contains_key(k) && #[trigger] a.expirations().contains_key(k) implies c.expirations().contains_key(k) by {
        assert(b.objects().contains_key(k));
        assert(b.expirations().contains_key(k));
    }
    assert forall|k: Seq<char>| #[trigger] c.expirations().contains_key(k) implies a.expirations().contains_key(k)
        && c.expirations()[k] == a.expirations()[k] by {
        assert(b.expirations().contains_key(k));
    }
    assert forall|k: Seq<char>| #[trigger] c.objects().contains_key(k) implies a.objects().contains_key(k)
        && c.objects()[k] == a.objects()[k] by {
        assert(b.objects().contains_key(k));
    }
}

/// What writing `obj` under `k` with a time to live of `ttl_ms` at `now_ms`
/// does to the keyspace: eviction first if it is due, then the write. Other
/// keys only ever leave; without eviction nothing else changes.
pub open spec fn put_effect(
    s0: Store,
    s1: Store,
    k: Seq<char>,
    obj: StoreObject,
    ttl_ms: i64,
    now_ms: i64,
) -> bool {
    &&& s1.wf()
    &&& s1.eviction_manager() is Some <==> s0.eviction_manager() is Some
    &&& s0.eviction_manager() is Some ==> s1.eviction_manager()->Some_0.config
        == s0.eviction_manager()->Some_0.config
    &&& s1.evicts_first_keys() == s0.evicts_first_keys()
    &&& s1.objects().contains_key(k)
    &&& s1.objects()[k] == obj
    &&& ttl_ms > 0 ==> s1.expirations().contains_key(k) && s1.expirations()[k] == expiry_after(
        now_ms,
        ttl_ms,
    )
    &&& ttl_ms <= 0 ==> !s1.expirations().contains_key(k)
    &&& forall|j: Seq<char>|
        j != k && #[trigger] s1.objects().contains_key(j) ==> s0.objects().contains_key(j)
            && s1.objects()[j] == s0.objects()[j]
    &&& forall|j: Seq<char>|
        j != k && #[trigger] s1.expirations().contains_key(j) ==> s0.expirations().contains_key(j)
            && s1.expirations()[j] == s0.expirations()[j]
    &&& forall|j: Seq<char>|
        j != k && s1.objects().contains_key(j) && #[trigger] s0.expirations().contains_key(j)
            ==> s1.expirations().contains_key(j)
    &&& !s0.eviction_due() ==> s1.objects() == s0.objects().insert(k, obj) && s1.len() == s0.len()
        + if s0.objects().contains_key(k) {
        0int
    } else {
        1int
    }
    &&& !s0.eviction_due() && ttl_ms > 0 ==> s1.expirations() == s0.expirations().insert(
        k,
        expiry_after(now_ms, ttl_ms),
    )
    &&& !s0.eviction_due() && ttl_ms <= 0 ==> s1.expirations() == s0.expirations().remove(k)
    &&& s0.eviction_due() && s0.evicts_first_keys() ==> s1.len() <= s0.len() - min(
        s0.eviction_manager()->Some_0.config.keys_to_remove() as int,
        s0.len() as int,
    ) + 1
    &&& s0.eviction_due() && s0.evicts_first_keys() && !s0.objects().contains_key(k) ==> s1.len()
        == s0.len() - min(
        s0.eviction_manager()->Some_0.config.keys_to_remove() as int,
        s0.len() as int,
    ) + 1
}

pub struct Store {
    data: Vec<StoreEntry>,
    expiration_data: Vec<ExpirationEntry>,
    keyspace_statistics: Vec<KeyspaceStatistics>,
    eviction_manager: Option<EvictionManager>,
    objects: Ghost<Map<Seq<char>, StoreObject>>,
    expirations: Ghost<Map<Seq<char>, i64>>,
}

impl Store {
    /// The value of each key.
    pub closed spec fn objects(&self) -> Map<Seq<char>, StoreObject> {
        self.objects@
    }

    /// The expiry instant of each key that has a time to live.
    pub closed spec fn expirations(&self) -> Map<Seq<char>, i64> {
        self.expirations@
    }

    /// The entries in iteration order.
    pub closed spec fn entries(&self) -> Seq<StoreEntry> {
        self.data@
    }

    /// The expiration entries in iteration order.
    pub closed spec fn expiration_entries(&self) -> Seq<ExpirationEntry> {
        self.expiration_data@
    }

    /// The number of keys.
    pub closed spec fn len(&self) -> nat {
        self.data@.len()
    }

    /// The recorded statistics.
    pub closed spec fn statistics(&self) -> Seq<KeyspaceStatistics> {
        self.keyspace_statistics@
    }

    spec fn tables(&self) -> bool {
        &&& data_table(self.data@, self.objects@)
        &&& expiration_table(self.expiration_data@, self.expirations@)
        &&& self.expirations@.dom().subset_of(self.objects@.dom())
    }

    /// The eviction manager that `put` consults, if any.
    pub closed spec fn eviction_manager(&self) -> Option<EvictionManager> {
        self.eviction_manager
    }

    /// Whether the next `put` evicts first: the keyspace has reached the limit.
    pub open spec fn eviction_due(&self) -> bool {
        self.eviction_manager() is Some && self.len() >= self.eviction_manager()->Some_0.config.keys_limit
    }

    /// Whether `put` evicts the first keys in iteration order.
    pub open spec fn evicts_first_keys(&self) -> bool {
        self.eviction_manager() is Some && self.eviction_manager()->Some_0.strategy is AllKeysRandom
    }

    /// The keyspace invariant.
    pub closed spec fn wf(&self) -> bool {
        &&& self.eviction_manager is Some ==> self.eviction_manager->Some_0.wf()
        &&& self.tables()
        &&& self.keyspace_statistics@.len() == 1
        &&& self.keyspace_statistics@[0].number_of_keys == self.data@.len()
    }

    /// Every key that has an expiry is a key of the keyspace, the entries
    /// are the keys of the keyspace, and the counter matches their number.
    pub proof fn lemma_wf(&self)
        requires
            self.wf(),
        ensures
            self.expirations().dom().subset_of(self.objects().dom()),
            data_table(self.entries(), self.objects()),
            expiration_table(self.expiration_entries(), self.expirations()),
            self.statistics().len() == 1,
            self.statistics()[0].number_of_keys == self.len(),
            self.len() == self.entries().len(),
    {
    }

    /// An empty keyspace that evicts the first keys in iteration order once
    /// it holds 5 keys, 40% of the limit at a time.
    pub fn new() -> (r: Store)
        ensures
            r.wf(),
            r.objects() == Map::<Seq<char>, StoreObject>::empty(),
            r.expirations() == Map::<Seq<char>, i64>::empty(),
            r.len() == 0,
            r.evicts_first_keys(),
            r.eviction_manager()->Some_0.config.keys_limit == 5,
            r.eviction_manager()->Some_0.config.eviction_ratio_per_mille == 400,
    {
        let manager = EvictionManager::new(
            EvictionManagerConfiguration { keys_limit: 5, eviction_ratio_per_mille: 400 },
            EvictionStrategy::AllKeysRandom(AllKeysRandomEvictionStrategy {}),
        );
        Store::with_eviction(Some(manager))
    }

    /// An empty keyspace with the given eviction manager, or none.
    pub fn with_eviction(eviction_manager: Option<EvictionManager>) -> (r: Store)
        requires
            eviction_manager is Some ==> eviction_manager->Some_0.wf(),
        ensures
            r.wf(),
            r.objects() == Map::<Seq<char>, StoreObject>::empty(),
            r.expirations() == Map::<Seq<char>, i64>::empty(),
            r.len() == 0,
            r.eviction_manager() == eviction_manager,
    {
        let mut keyspace_statistics: Vec<KeyspaceStatistics> = Vec::new();
        keyspace_statistics.push(KeyspaceStatistics { number_of_keys: 0 });
        Store {
            data: Vec::new(),
            expiration_data: Vec::new(),
            keyspace_statistics,
            eviction_manager,
            objects: Ghost(Map::empty()),
            expirations: Ghost(Map::empty()),
        }
    }

    fn find_data(&self, key: &String) -> (r: Option<usize>)
        requires
            self.tables(),
        ensures
            match r {
                Some(i) => i < self.data@.len() && self.data@[i as int].key@ == key@,
                None => !self.objects@.contains_key(key@),
            },
    {
        let mut i: usize = 0;
        while i < self.data.len()
            invariant
                self.tables(),
                i <= self.data@.len(),
                forall|j: int| 0 <= j < i ==> (#[trigger] self.data@[j]).key@ != key@,
            decreases self.data@.len() - i,
        {
            if self.data[i].key == *key {
                return Some(i);
            }
            i += 1;
        }
        None
    }

    fn find_expiration(&self, key: &String) -> (r: Option<usize>)
        requires
            self.tables(),
        ensures
            match r {
                Some(i) => i < self.expiration_data@.len() && self.expiration_data@[i as int].key@
                    == key@,
                None => !self.expirations@.contains_key(key@),
            },
    {
        let mut i: usize = 0;
        while i < self.expiration_data.len()
            invariant
                self.tables(),
                i <= self.expiration_data@.len(),
                forall|j: int| 0 <= j < i ==> (#[trigger] self.expiration_data@[j]).key@ != key@,
            decreases self.expiration_data@.len() - i,
        {
            if self.expiration_data[i].key == *key {
                return Some(i);
            }
            i += 1;
        }
        None
    }

    fn refresh_statistics(&mut self)
        requires
            old(self).keyspace_statistics@.len() == 1,
        ensures
            final(self).keyspace_statistics@.len() == 1,
            final(self).keyspace_statistics@[0].number_of_keys == final(self).data@.len(),
            final(self).data == old(self).data,
            final(self).expiration_data == old(self).expiration_data,
            final(self).objects == old(self).objects,
            final(self).expirations == old(self).expirations,
            final(self).eviction_manager == old(self).eviction_manager,
    {
        let n = self.data.len() as u64;
        update_keyspace_statistics(&mut self.keyspace_statistics, 0, n);
    }

    /// Drops the expiry of a key, if it has one.
    fn clear_expiration(&mut self, key: &String)
        requires
            old(self).tables(),
        ensures
            final(self).tables(),
            final(self).keyspace_statistics == old(self).keyspace_statistics,
            final(self).data == old(self).data,
            final(self).objects == old(self).objects,
            final(self).expirations@ == old(self).expirations@.remove(key@),
            final(self).eviction_manager == old(self).eviction_manager,
    {
        match self.find_expiration(key) {
            Some(i) => {
                let ghost old_data = self.expiration_data@;
                self.expiration_data.remove(i);
                self.expirations = Ghost(self.expirations@.remove(key@));
                proof {
                    let d = self.expiration_data@;
                    let m = self.expirations@;
                    assert forall|a: int, b: int| 0 <= a < b < d.len() implies (
                    #[trigger] d[a]).key@ != (#[trigger] d[b]).key@ by {
                        let a0 = if a < i { a } else { a + 1 };
                        let b0 = if b < i { b } else { b + 1 };
                        assert(d[a] == old_data[a0]);
                        assert(d[b] == old_data[b0]);
                    }
                    assert forall|a: int| 0 <= a < d.len() implies m.contains_key(
                        (#[trigger] d[a]).key@,
                    ) && m[d[a].key@] == d[a].expires_at by {
                        let a0 = if a < i { a } else { a + 1 };
                        assert(d[a] == old_data[a0]);
                    }
                    assert forall|k: Seq<char>| #[trigger] m.contains_key(k) implies exists|a: int|
                        0 <= a < d.len() && d[a].key@ == k by {
                        let a0 = choose|a0: int| 0 <= a0 < old_data.len() && old_data[a0].key@ == k;
                        let a = if a0 < i { a0 } else { a0 - 1 };
                        assert(d[a] == old_data[a0]);
                    }
                }
            },
            None => {
                assert(self.expirations@.remove(key@) =~= self.expirations@);
            },
        }
    }

    /// Sets the expiry of a key.
    fn set_expiration(&mut self, key: &String, expires_at: i64)
        requires
            old(self).tables(),
            old(self).objects@.contains_key(key@),
        ensures
            final(self).tables(),
            final(self).keyspace_statistics == old(self).keyspace_statistics,
            final(self).data == old(self).data,
            final(self).objects == old(self).objects,
            final(self).expirations@ == old(self).expirations@.insert(key@, expires_at),
            final(self).eviction_manager == old(self).eviction_manager,
    {
        let ghost old_data = self.expiration_data@;
        let entry = ExpirationEntry { key: key.clone(), expires_at };
        let found = self.find_expiration(key);
        let ghost idx: int = match found {
            Some(i) => i as int,
            None => old_data.len() as int,
        };
        match found {
            Some(i) => {
                self.expiration_data.set(i, entry);
            },
            None => {
                self.expiration_data.push(entry);
            },
        }
        self.expirations = Ghost(self.expirations@.insert(key@, expires_at));
        proof {
            let d = self.expiration_data@;
            let m = self.expirations@;
            assert forall|a: int, b: int| 0 <= a < b < d.len() implies (
            #[trigger] d[a]).key@ != (#[trigger] d[b]).key@ by {
                if a < old_data.len() {
                    assert(d[a].key@ == old_data[a].key@ || d[a].key@ == key@);
                }
                if b < old_data.len() {
                    assert(d[b].key@ == old_data[b].key@ || d[b].key@ == key@);
                }
            }
            assert forall|a: int| 0 <= a < d.len() implies m.contains_key((#[trigger] d[a]).key@)
                && m[d[a].key@] == d[a].expires_at by {
                if a < old_data.len() && d[a].key@ != key@ {
                    assert(d[a] == old_data[a]);
                }
            }
            assert forall|k: Seq<char>| #[trigger] m.contains_key(k) implies exists|a: int|
                0 <= a < d.len() && d[a].key@ == k by {
                if k == key@ {
                    assert(0 <= idx < d.len() && d[idx].key@ == key@);
                } else {
                    let a0 = choose|a0: int| 0 <= a0 < old_data.len() && old_data[a0].key@ == k;
                    assert(d[a0].key@ == k);
                }
            }
        }
    }

    /// Writes the entry of a key, keeping its place if the key is present.
    fn set_object(&mut self, key: &String, object: StoreObject)
        requires
            old(self).tables(),
        ensures
            final(self).tables(),
            final(self).keyspace_statistics == old(self).keyspace_statistics,
            final(self).expiration_data == old(self).expiration_data,
            final(self).expirations == old(self).expirations,
            final(self).objects@ == old(self).objects@.insert(key@, object),
            final(self).data@.len() == old(self).data@.len() + if old(self).objects@.contains_key(
                key@,
            ) {
                0int
            } else {
                1int
            },
            final(self).eviction_manager == old(self).eviction_manager,
    {
        let ghost old_data = self.data@;
        let ghost obj = object;
        let entry = StoreEntry { key: key.clone(), object };
        let found = self.find_data(key);
        let ghost idx: int = match found {
            Some(i) => i as int,
            None => old_data.len() as int,
        };
        match found {
            Some(i) => {
                self.data.set(i, entry);
            },
            None => {
                self.data.push(entry);
            },
        }
        self.objects = Ghost(self.objects@.insert(key@, obj));
        proof {
            let d = self.data@;
            let m = self.objects@;
            assert forall|a: int, b: int| 0 <= a < b < d.len() implies (
            #[trigger] d[a]).key@ != (#[trigger] d[b]).key@ by {
                if a < old_data.len() {
                    assert(d[a].key@ == old_data[a].key@ || d[a].key@ == key@);
                }
                if b < old_data.len() {
                    assert(d[b].key@ == old_data[b].key@ || d[b].key@ == key@);
                }
            }
            assert forall|a: int| 0 <= a < d.len() implies m.contains_key((#[trigger] d[a]).key@)
                && m[d[a].key@] == d[a].object by {
                if a < old_data.len() && d[a].key@ != key@ {
                    assert(d[a] == old_data[a]);
                }
            }
            assert forall|k: Seq<char>| #[trigger] m.contains_key(k) implies exists|a: int|
                0 <= a < d.len() && d[a].key@ == k by {
                if k == key@ {
                    assert(0 <= idx < d.len() && d[idx].key@ == key@);
                } else {
                    let a0 = choose|a0: int| 0 <= a0 < old_data.len() && old_data[a0].key@ == k;
                    assert(d[a0].key@ == k);
                }
            }
            assert(self.expirations@.dom().subset_of(self.objects@.dom()));
        }
    }

    /// Writes a key whose expiry is set or dropped as `ttl_ms` says, at `now_ms`.
    fn write_entry(
        &mut self,
        key: &String,
        value: ObjectValue,
        expiration_duration_ms: i64,
        type_encoding: u8,
        now_ms: i64,
    )
        requires
            old(self).wf(),
        ensures
            final(self).wf(),
            final(self).objects() == old(self).objects().insert(
                key@,
                StoreObject {
                    type_encoding,
                    value: Box::new(value),
                    last_accessed_at: clock_of(now_ms),
                },
            ),
            expiration_duration_ms > 0 ==> final(self).expirations() == old(self).expirations().insert(key@, expiry_after(now_ms, expiration_duration_ms)),
            expiration_duration_ms <= 0 ==> final(self).expirations() == old(self).expirations().remove(key@),
            final(self).len() == old(self).len() + if old(self).objects().contains_key(key@) {
                0int
            } else {
                1int
            },
            final(self).eviction_manager == old(self).eviction_manager,
    {
        let object = StoreObject {
            type_encoding,
            value: Box::new(value),
            last_accessed_at: clock_from_millis(now_ms),
        };
        self.set_object(key, object);
        if expiration_duration_ms > 0 {
            let expires_at = if now_ms > i64::MAX - expiration_duration_ms {
                i64::MAX
            } else {
                now_ms + expiration_duration_ms
            };
            self.set_expiration(key, expires_at);
        } else {
            self.clear_expiration(key);
        }
        self.refresh_statistics();
    }

    /// Writes a key at `now_ms`: evicts first if the keyspace has reached its
    /// limit, then stores the value with the access clock of `now_ms`, and sets
    /// the expiry to `now_ms + ttl_ms` when `ttl_ms > 0`, else drops it.
    pub fn put_at(
        &mut self,
        key: &str,
        value: ObjectValue,
        expiration_duration_ms: i64,
        type_encoding: u8,
        now_ms: i64,
    )
        requires
            old(self).wf(),
        ensures
            put_effect(
                *old(self),
                *final(self),
                key@,
                StoreObject {
                    type_encoding,
                    value: Box::new(value),
                    last_accessed_at: clock_of(now_ms),
                },
                expiration_duration_ms,
                now_ms,
            ),
    {
        let ghost old_objects = self.objects@;
        let mut manager = self.eviction_manager.take();
        let ghost taken = *self;
        match &mut manager {
            Some(m) => {
                if m.ready_for_evict(self) {
                    m.evict(self);
                }
            },
            None => {},
        }
        proof {
            assert(shrinks(taken, *self));
            assert(taken.len() == old(self).len());
            if old(self).eviction_due() && old(self).evicts_first_keys() {
                assert(random_eviction_effect(
                    old(self).eviction_manager()->Some_0.config,
                    taken,
                    *self,
                ));
                if !old(self).objects().contains_key(key@) {
                    assert(!self.objects().contains_key(key@));
                }
            }
        }
        let ghost old_expirations = old(self).expirations@;
        assert forall|k: Seq<char>|
            self.objects@.contains_key(k) && #[trigger] old_expirations.contains_key(k) implies self.expirations@.contains_key(k) by {
            assert(self.objects().contains_key(k));
            assert(taken.expirations().contains_key(k));
        }
        let ghost mid_objects = self.objects@;
        let ghost mid_expirations = self.expirations@;
        assert forall|k: Seq<char>| #[trigger] mid_objects.contains_key(k) implies old_objects.contains_key(
            k) && mid_objects[k] == old_objects[k] by {
            assert(self.objects().contains_key(k));
        }
        assert forall|k: Seq<char>| #[trigger] mid_expirations.contains_key(k) implies old_expirations.contains_key(
            k) && mid_expirations[k] == old_expirations[k] by {
            assert(self.expirations().contains_key(k));
        }
        self.eviction_manager = manager;
        let ghost mid_len = self.data@.len();
        let owned = key.to_owned();
        self.write_entry(&owned, value, expiration_duration_ms, type_encoding, now_ms);
        proof {
            if mid_objects.contains_key(key@) {
                assert(self.data@.len() == mid_len);
            }
            assert forall|k: Seq<char>|
                k != key@ && #[trigger] self.objects@.contains_key(k) implies old_objects.contains_key(
                k) && self.objects@[k] == old_objects[k] by {
                assert(mid_objects.contains_key(k));
            }
            assert forall|k: Seq<char>|
                k != key@ && #[trigger] self.expirations@.contains_key(k) implies old_expirations.contains_key(
                k) && self.expirations@[k] == old_expirations[k] by {
                assert(mid_expirations.contains_key(k));
            }
            assert forall|k: Seq<char>|
                k != key@ && self.objects@.contains_key(k) && #[trigger] old_expirations.contains_key(k) implies self.expirations@.contains_key(k) by {
                assert(mid_objects.contains_key(k));
                assert(mid_expirations.contains_key(k));
            }
        }
    }

    /// Writes a key now; see `put_at`.
    pub fn put(&mut self, key: &str, value: ObjectValue, expiration_duration_ms: i64, type_encoding: u8)
        requires
            old(self).wf(),
        ensures
            exists|now_ms: i64|
                put_effect(
                    *old(self),
                    *final(self),
                    key@,
                    StoreObject {
                        type_encoding,
                        value: Box::new(value),
                        last_accessed_at: clock_of(now_ms),
                    },
                    expiration_duration_ms,
                    now_ms,
                ),
    {
        let now_ms = now_millis();
        self.put_at(key, value, expiration_duration_ms, type_encoding, now_ms);
    }

    /// Removes a key and its expiry; returns its value if it had one.
    pub fn remove(&mut self, key: &str) -> (r: Option<StoreObject>)
        requires
            old(self).wf(),
        ensures
            final(self).wf(),
            final(self).objects() == old(self).objects().remove(key@),
            final(self).expirations() == old(self).expirations().remove(key@),
            match r {
                Some(o) => old(self).objects().contains_key(key@) && o == old(self).objects()[key@]
                    && final(self).len() + 1 == old(self).len(),
                None => !old(self).objects().contains_key(key@) && final(self).len()
                    == old(self).len(),
            },
            old(self).objects().contains_key(key@) ==> exists|i: int|
                0 <= i < old(self).len() && old(self).entries()[i].key@ == key@ && final(self).entries() == old(self).entries().remove(i),
            !old(self).objects().contains_key(key@) ==> final(self).entries() == old(self).entries(),
            final(self).eviction_manager() == old(self).eviction_manager(),
    {
        let ghost entries0 = self.data@;
        let key = key.to_owned();
        self.clear_expiration(&key);
        let r = match self.find_data(&key) {
            Some(i) => {
                let ghost old_data = self.data@;
                let entry = self.data.remove(i);
                self.objects = Ghost(self.objects@.remove(key@));
                proof {
                    let d = self.data@;
                    let m = self.objects@;
                    assert forall|a: int, b: int| 0 <= a < b < d.len() implies (
                    #[trigger] d[a]).key@ != (#[trigger] d[b]).key@ by {
                        let a0 = if a < i { a } else { a + 1 };
                        let b0 = if b < i { b } else { b + 1 };
                        assert(d[a] == old_data[a0]);
                        assert(d[b] == old_data[b0]);
                    }
                    assert forall|a: int| 0 <= a < d.len() implies m.contains_key(
                        (#[trigger] d[a]).key@,
                    ) && m[d[a].key@] == d[a].object by {
                        let a0 = if a < i { a } else { a + 1 };
                        assert(d[a] == old_data[a0]);
                    }
                    assert forall|k: Seq<char>| #[trigger] m.contains_key(k) implies exists|a: int|
                        0 <= a < d.len() && d[a].key@ == k by {
                        let a0 = choose|a0: int| 0 <= a0 < old_data.len() && old_data[a0].key@ == k;
                        let a = if a0 < i { a0 } else { a0 - 1 };
                        assert(d[a] == old_data[a0]);
                    }
                    assert(self.expirations@.dom().subset_of(self.objects@.dom()));
                    assert(entries0[i as int].key@ == key@ && self.data@ == entries0.remove(
                        i as int,
                    ));
                    assert(exists|j: int|
                        0 <= j < entries0.len() && entries0[j].key@ == key@ && self.data@
                            == entries0.remove(j));
                }
                Some(entry.object)
            },
            None => {
                assert(self.objects@.remove(key@) =~= self.objects@);
                None
            },
        };
        let ghost entries1 = self.data@;
        self.refresh_statistics();
        assert(self.data@ == entries1);
        assert(old(self).entries() == entries0);
        r
    }

    /// Looks a key up at `now_ms`. An expired key is removed from both tables
    /// and not found; a live key gets its access clock set.
    pub fn get_at(&mut self, key: &str, now_ms: i64) -> (r: Option<StoreObject>)
        requires
            old(self).wf(),
        ensures
            get_effect(*old(self), *final(self), key@, now_ms),
            r == if live(*old(self), key@, now_ms) {
                Some(touched(old(self).objects()[key@], clock_of(now_ms)))
            } else {
                None::<StoreObject>
            },
    {
        let owned = key.to_owned();
        let expired = match self.find_expiration(&owned) {
            Some(i) => self.expiration_data[i].expires_at <= now_ms,
            None => false,
        };
        match self.find_data(&owned) {
            None => None,
            Some(i) => {
                if expired {
                    self.remove(key);
                    None
                } else {
                    let current = &self.data[i].object;
                    let updated = StoreObject {
                        type_encoding: current.type_encoding,
                        value: Box::new((*current.value).clone()),
                        last_accessed_at: clock_from_millis(now_ms),
                    };
                    let result = updated.clone();
                    self.set_object(&owned, updated);
                    self.refresh_statistics();
                    Some(result)
                }
            },
        }
    }

    /// Looks a key up now; see `get_at`.
    pub fn get(&mut self, key: &str) -> (r: Option<StoreObject>)
        requires
            old(self).wf(),
        ensures
            final(self).wf(),
            exists|now_ms: i64|
                get_effect(*old(self), *final(self), key@, now_ms) && r == if live(
                    *old(self),
                    key@,
                    now_ms,
                ) {
                    Some(touched(old(self).objects()[key@], clock_of(now_ms)))
                } else {
                    None::<StoreObject>
                },
            old(self).objects().contains_key(key@) && !old(self).expirations().contains_key(key@)
                ==> r is Some && r->Some_0.value == old(self).objects()[key@].value
                && r->Some_0.type_encoding == old(self).objects()[key@].type_encoding,
    {
        let now_ms = now_millis();
        let r = self.get_at(key, now_ms);
        r
    }

    pub fn contains_key(&self, key: &str) -> (r: bool)
        requires
            self.wf(),
        ensures
            r == self.objects().contains_key(key@),
    {
        let owned = key.to_owned();
        self.find_data(&owned).is_some()
    }

    /// The expiry instant of a key, if it has one.
    pub fn get_expiry(&self, key: &str) -> (r: Option<i64>)
        requires
            self.wf(),
        ensures
            r == if self.expirations().contains_key(key@) {
                Some(self.expirations()[key@])
            } else {
                None
            },
    {
        let owned = key.to_owned();
        match self.find_expiration(&owned) {
            Some(i) => Some(self.expiration_data[i].expires_at),
            None => None,
        }
    }

    /// The entries, in iteration order.
    pub fn get_data(&self) -> (r: &Vec<StoreEntry>)
        ensures
            r@ == self.entries(),
    {
        &self.data
    }

    /// The expiration entries, in iteration order.
    pub fn get_expiration_data(&self) -> (r: &Vec<ExpirationEntry>)
        ensures
            r@ == self.expiration_entries(),
    {
        &self.expiration_data
    }

    /// The keyspace statistics.
    pub fn get_statistics(&self) -> (r: &Vec<KeyspaceStatistics>)
        ensures
            r@ == self.statistics(),
    {
        &self.keyspace_statistics
    }
}

/// A stored value as a RESP bulk string.
pub fn store_object_to_datatype(value: &StoreObject) -> (r: DataType)
    ensures
        match *value.value {
            ObjectValue::String(s) => r@ == RespValue::Bulk(encode_utf8(s@)),
        },
{
    match &*value.value {
        ObjectValue::String(s) => DataType::BulkString(s.clone()),
    }
}

} // verus!
