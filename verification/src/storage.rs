//! Key-value storage whose entries may expire.
//!
//! [`IStorage`] is the interface that the protocol uses, [`ForgetfulStorage`]
//! keeps its entries in a `DashMap`.  An entry that is too old is treated as
//! absent when it is read; nothing is swept on writes.

use std::time::Instant;

use dashmap::DashMap;
use vstd::prelude::*;

verus! {

/// One week in seconds.
pub const DEFAULT_TTL: i64 = 604_800;

/// Nanoseconds in a second.
pub const NANOS_PER_SEC: u128 = 1_000_000_000;

#[verifier::external_type_specification]
#[verifier::external_body]
#[verifier::reject_recursive_types(K)]
#[verifier::reject_recursive_types(V)]
#[verifier::reject_recursive_types(S)]
pub struct ExDashMap<K, V, S>(DashMap<K, V, S>);

#[verifier::external_type_specification]
#[verifier::external_body]
pub struct ExInstant(Instant);

/// What a map from keys to values and times of insertion holds.
pub uninterp spec fn stored(table: DashMap<Vec<u8>, (Vec<u8>, u128)>) -> Map<
    Seq<u8>,
    (Seq<u8>, u128),
>;

/// No keys, values and times.
pub open spec fn no_entries() -> Map<Seq<u8>, (Seq<u8>, u128)> {
    Map::empty()
}

/// `DashMap::new`: a map without entries.
#[verifier::external_body]
fn map_new() -> (table: DashMap<Vec<u8>, (Vec<u8>, u128)>)
    ensures
        stored(table) == no_entries(),
{
    DashMap::new()
}

/// `DashMap::insert`: the key leads to the value and the time from now on.
#[verifier::external_body]
fn map_insert(
    table: &mut DashMap<Vec<u8>, (Vec<u8>, u128)>,
    key: Vec<u8>,
    value: Vec<u8>,
    at: u128,
)
    ensures
        stored(*final(table)) == stored(*old(table)).insert(key@, (value@, at)),
{
    table.insert(key, (value, at));
}

/// `DashMap::get`: a copy of what the key leads to.
#[verifier::external_body]
fn map_get(table: &DashMap<Vec<u8>, (Vec<u8>, u128)>, key: &[u8]) -> (entry: Option<(Vec<u8>, u128)>)
    ensures
        match entry {
            Some((value, at)) => stored(*table).contains_key(key@) && stored(*table)[key@] == (
                value@,
                at,
            ),
            None => !stored(*table).contains_key(key@),
        },
{
    table.get(key).map(|entry| (entry.value().0.clone(), entry.value().1))
}

/// `DashMap::remove`: the key leads nowhere from now on.
#[verifier::external_body]
fn map_remove(table: &mut DashMap<Vec<u8>, (Vec<u8>, u128)>, key: &[u8])
    ensures
        stored(*final(table)) == stored(*old(table)).remove(key@),
{
    table.remove(key);
}

/// `DashMap::iter`: a copy of every entry, each once, in no particular order.
#[verifier::external_body]
fn map_entries(table: &DashMap<Vec<u8>, (Vec<u8>, u128)>) -> (entries: Vec<(Vec<u8>, Vec<u8>, u128)>)
    ensures
        forall|i: int|
            0 <= i < entries@.len() ==> stored(*table).contains_key((#[trigger] entries@[i]).0@)
                && stored(*table)[entries@[i].0@] == (entries@[i].1@, entries@[i].2),
        forall|i: int, j: int|
            0 <= i < j < entries@.len() ==> (#[trigger] entries@[i]).0@ != (
            #[trigger] entries@[j]).0@,
        forall|key: Seq<u8>| #[trigger]
            stored(*table).contains_key(key) ==> exists|i: int|
                0 <= i < entries@.len() && (#[trigger] entries@[i]).0@ == key,
{
    table.iter().map(|entry| (entry.key().clone(), entry.value().0.clone(), entry.value().1)).collect()
}

/// `Instant::now`: the present moment of a clock that never goes back.
#[verifier::external_body]
fn instant_now() -> (now: Instant) {
    Instant::now()
}

/// Nanoseconds since `start` by `Instant::elapsed`.  The clock may show anything.
#[verifier::external_body]
fn nanos_since(start: &Instant) -> (nanos: u128) {
    start.elapsed().as_nanos()
}

/// The number of seconds that a time to live stands for.  A negative one stands
/// for what its bits read as an unsigned number.
pub open spec fn ttl_secs(ttl: i64) -> int {
    if ttl >= 0 {
        ttl as int
    } else {
        ttl as int + 0x1_0000_0000_0000_0000
    }
}

/// What a storage holds: values with their times of insertion, in nanoseconds, the
/// time to live, in seconds, and the moment from which the times are counted.
pub struct StorageModel {
    pub entries: Map<Seq<u8>, (Seq<u8>, u128)>,
    pub ttl: i64,
    pub epoch: Instant,
}

impl StorageModel {
    /// An entry made at `at` is too old at `now`.  With a time to live of -1
    /// none ever is.
    pub open spec fn expired(&self, at: u128, now: u128) -> bool {
        self.ttl != -1 && now - at > ttl_secs(self.ttl) * NANOS_PER_SEC
    }

    /// There is an entry for the key that is not too old at `now`.
    pub open spec fn live(&self, key: Seq<u8>, now: u128) -> bool {
        self.entries.contains_key(key) && !self.expired(self.entries[key].1, now)
    }

    /// The value that a reader finds at `now`.
    pub open spec fn read(&self, key: Seq<u8>, now: u128) -> Option<Seq<u8>> {
        if self.live(key, now) {
            Some(self.entries[key].0)
        } else {
            None
        }
    }

    /// The storage after the value was written at `now`.
    pub open spec fn written(self, key: Seq<u8>, value: Seq<u8>, now: u128) -> StorageModel {
        StorageModel { entries: self.entries.insert(key, (value, now)), ..self }
    }

    /// The storage after the value was written at `now`, unless the key was
    /// live.
    pub open spec fn written_if_absent(
        self,
        key: Seq<u8>,
        value: Seq<u8>,
        now: u128,
    ) -> StorageModel {
        if self.live(key, now) {
            self
        } else {
            self.written(key, value, now)
        }
    }

    /// The storage without the key.
    pub open spec fn deleted(self, key: Seq<u8>) -> StorageModel {
        StorageModel { entries: self.entries.remove(key), ..self }
    }

    /// The live entry for the key is at least `seconds_old` seconds old.
    pub open spec fn aged(&self, key: Seq<u8>, seconds_old: u64, now: u128) -> bool {
        self.live(key, now) && (seconds_old == 0 || now - self.entries[key].1 >= seconds_old
            * NANOS_PER_SEC)
    }

    /// `pairs` lists exactly the keys that `wanted` names, each once and with
    /// its value.
    pub open spec fn lists(
        &self,
        pairs: Seq<(Vec<u8>, Vec<u8>)>,
        wanted: spec_fn(Seq<u8>) -> bool,
    ) -> bool {
        &&& forall|i: int|
            0 <= i < pairs.len() ==> wanted((#[trigger] pairs[i]).0@) && self.entries.contains_key(
                pairs[i].0@,
            ) && self.entries[pairs[i].0@].0 == pairs[i].1@
        &&& forall|i: int, j: int|
            0 <= i < j < pairs.len() ==> (#[trigger] pairs[i]).0@ != (#[trigger] pairs[j]).0@
        &&& forall|key: Seq<u8>| #[trigger]
            self.entries.contains_key(key) && wanted(key) ==> exists|i: int|
                0 <= i < pairs.len() && (#[trigger] pairs[i]).0@ == key
    }
}

/// A key-value store.
pub trait IStorage {
    /// Writes the value, over any that was there.
    fn set(&mut self, key: Vec<u8>, value: Vec<u8>);

    /// Writes the value only if the key is absent; tells whether it did.
    fn insert_if_absent(&mut self, key: Vec<u8>, value: Vec<u8>) -> (inserted: bool);

    /// The value, or `default` if the key is absent.
    fn get_default(&self, key: &[u8], default: Option<Vec<u8>>) -> (value: Option<Vec<u8>>);

    /// The value, or `None` if the key is absent.
    fn get(&self, key: &[u8]) -> (value: Option<Vec<u8>>)
        ensures
            call_ensures(Self::get_default, (self, key, None), value),
    {
        self.get_default(key, None)
    }

    /// Removes the key.
    fn delete(&mut self, key: &[u8]);

    /// The entries that are at least `seconds_old` seconds old.
    fn iter_older_than(&self, seconds_old: u64) -> (pairs: Vec<(Vec<u8>, Vec<u8>)>);

    /// All entries.
    fn iter_all(&self) -> (pairs: Vec<(Vec<u8>, Vec<u8>)>);
}

/// A store whose entries expire after a time to live; with a time to live of -1
/// they are kept for good.
pub struct ForgetfulStorage {
    pub data: DashMap<Vec<u8>, (Vec<u8>, u128)>,
    pub ttl: i64,
    /// The moment from which times of insertion are counted.
    pub epoch: Instant,
}

impl View for ForgetfulStorage {
    type V = StorageModel;

    open spec fn view(&self) -> StorageModel {
        StorageModel { entries: stored(self.data), ttl: self.ttl, epoch: self.epoch }
    }
}

impl ForgetfulStorage {
    /// The store's times are counted from a moment that a reading of the clock gave.
    pub closed spec fn begun(&self) -> bool {
        call_ensures(instant_now, (), self.epoch)
    }

    /// An empty store with the given time to live in seconds, whose times are counted
    /// from now on.
    pub fn new(ttl: i64) -> (storage: Self)
        ensures
            storage@ == (StorageModel { entries: no_entries(), ttl, epoch: storage.epoch }),
            storage.begun(),
    {
        Self { data: map_new(), ttl, epoch: instant_now() }
    }

    /// The time is one that a reading of the store's clock gave: nanoseconds
    /// counted from the moment the store was made.
    pub closed spec fn clocked(&self, time: u128) -> bool {
        call_ensures(nanos_since, (&self.epoch,), time)
    }

    /// Nanoseconds since the store was made.
    pub fn now(&self) -> (now: u128)
        ensures
            self.clocked(now),
    {
        nanos_since(&self.epoch)
    }

    fn is_expired(&self, at: u128, now: u128) -> (expired: bool)
        ensures
            expired == self@.expired(at, now),
            self.ttl >= 0 ==> expired == (now - at > self.ttl * 1_000_000_000),
            self.ttl == -1 ==> !expired,
    {
        if self.ttl == -1 {
            return false;
        }
        let secs: u64 = if self.ttl >= 0 {
            self.ttl as u64
        } else {
            u64::MAX - (-(self.ttl + 1)) as u64
        };
        assert(secs == ttl_secs(self.ttl));
        now.saturating_sub(at) > secs as u128 * NANOS_PER_SEC
    }

    /// Writes the value at `now`, over any that was there.
    pub fn set_at(&mut self, key: Vec<u8>, value: Vec<u8>, now: u128)
        ensures
            final(self)@ == old(self)@.written(key@, value@, now),
    {
        map_insert(&mut self.data, key, value, now);
    }

    /// Writes the value at `now` only if the key is absent or its entry is too
    /// old; tells whether it did.
    pub fn insert_if_absent_at(&mut self, key: Vec<u8>, value: Vec<u8>, now: u128) -> (inserted:
        bool)
        ensures
            inserted == !old(self)@.live(key@, now),
            final(self)@ == old(self)@.written_if_absent(key@, value@, now),
    {
        if let Some((_, at)) = map_get(&self.data, key.as_slice()) {
            if !self.is_expired(at, now) {
                return false;
            }
        }
        map_insert(&mut self.data, key, value, now);
        true
    }

    /// The value that is there at `now`.
    pub fn get_at(&self, key: &[u8], now: u128) -> (value: Option<Vec<u8>>)
        ensures
            match value {
                Some(bytes) => self@.read(key@, now) == Some(bytes@),
                None => self@.read(key@, now) is None,
            },
    {
        match map_get(&self.data, key) {
            Some((value, at)) => {
                if self.is_expired(at, now) {
                    None
                } else {
                    Some(value)
                }
            },
            None => None,
        }
    }

    /// Removes the key.
    pub fn remove(&mut self, key: &[u8])
        ensures
            final(self)@ == old(self)@.deleted(key@),
    {
        map_remove(&mut self.data, key);
    }

    /// The entries that at `now` are live and at least `seconds_old` seconds
    /// old.
    #[verifier::rlimit(40)]
    pub fn iter_older_than_at(&self, seconds_old: u64, now: u128) -> (pairs: Vec<
        (Vec<u8>, Vec<u8>),
    >)
        ensures
            self@.lists(pairs@, |key: Seq<u8>| self@.aged(key, seconds_old, now)),
    {
        let ghost wanted = |key: Seq<u8>| self@.aged(key, seconds_old, now);
        let entries: Vec<(Vec<u8>, Vec<u8>, u128)> = map_entries(&self.data);
        let mut pairs: Vec<(Vec<u8>, Vec<u8>)> = Vec::new();
        let mut count: usize = 0;
        while count < entries.len()
            invariant
                count <= entries@.len(),
                wanted == (|key: Seq<u8>| self@.aged(key, seconds_old, now)),
                forall|i: int|
                    0 <= i < entries@.len() ==> self@.entries.contains_key(
                        (#[trigger] entries@[i]).0@,
                    ) && self@.entries[entries@[i].0@] == (entries@[i].1@, entries@[i].2),
                forall|i: int, j: int|
                    0 <= i < j < entries@.len() ==> (#[trigger] entries@[i]).0@ != (
                    #[trigger] entries@[j]).0@,
                forall|i: int|
                    0 <= i < pairs@.len() ==> wanted((#[trigger] pairs@[i]).0@)
                        && self@.entries.contains_key(pairs@[i].0@)
                        && self@.entries[pairs@[i].0@].0 == pairs@[i].1@ && exists|k: int|
                        0 <= k < count && (#[trigger] entries@[k]).0@ == pairs@[i].0@,
                forall|i: int, j: int|
                    0 <= i < j < pairs@.len() ==> (#[trigger] pairs@[i]).0@ != (
                    #[trigger] pairs@[j]).0@,
                forall|k: int|
                    0 <= k < count && wanted((#[trigger] entries@[k]).0@) ==> exists|i: int|
                        0 <= i < pairs@.len() && (#[trigger] pairs@[i]).0@ == entries@[k].0@,
            decreases entries@.len() - count,
        {
            let at: u128 = entries[count].2;
            let ghost before = pairs@;
            let old_enough: bool = now.saturating_sub(at) >= seconds_old as u128 * NANOS_PER_SEC;
            if old_enough && !self.is_expired(at, now) {
                let key: Vec<u8> = vstd::slice::slice_to_vec(entries[count].0.as_slice());
                let value: Vec<u8> = vstd::slice::slice_to_vec(entries[count].1.as_slice());
                pairs.push((key, value));
                assert(pairs@[before.len() as int].0@ == entries@[count as int].0@);
            }
            assert forall|k: int| 0 <= k < count + 1 && wanted(
                (#[trigger] entries@[k]).0@,
            ) implies exists|i: int|
                0 <= i < pairs@.len() && (#[trigger] pairs@[i]).0@ == entries@[k].0@ by {
                if k < count {
                    let i = choose|i: int|
                        0 <= i < before.len() && (#[trigger] before[i]).0@ == entries@[k].0@;
                    assert(pairs@[i] == before[i]);
                } else {
                    assert(pairs@[before.len() as int].0@ == entries@[k].0@);
                }
            }
            assert forall|i: int| 0 <= i < pairs@.len() implies exists|k: int|
                0 <= k < count + 1 && (#[trigger] entries@[k]).0@ == (#[trigger] pairs@[i]).0@ by {
                if i < before.len() {
                    assert(pairs@[i] == before[i]);
                    let k = choose|k: int|
                        0 <= k < count && (#[trigger] entries@[k]).0@ == before[i].0@;
                    assert(entries@[k].0@ == pairs@[i].0@);
                } else {
                    assert(entries@[count as int].0@ == pairs@[i].0@);
                }
            }
            count = count + 1;
        }
        assert forall|key: Seq<u8>| #[trigger]
            self@.entries.contains_key(key) && wanted(key) implies exists|i: int|
            0 <= i < pairs@.len() && (#[trigger] pairs@[i]).0@ == key by {
            let k = choose|k: int| 0 <= k < entries@.len() && (#[trigger] entries@[k]).0@ == key;
            assert(wanted(entries@[k].0@));
        }
        pairs
    }

    /// The entries that are live at `now`.
    pub fn iter_all_at(&self, now: u128) -> (pairs: Vec<(Vec<u8>, Vec<u8>)>)
        ensures
            self@.lists(pairs@, |key: Seq<u8>| self@.live(key, now)),
    {
        let pairs: Vec<(Vec<u8>, Vec<u8>)> = self.iter_older_than_at(0, now);
        assert forall|key: Seq<u8>| self@.aged(key, 0, now) == self@.live(key, now) by {}
        pairs
    }
}

impl IStorage for ForgetfulStorage {
    fn set(&mut self, key: Vec<u8>, value: Vec<u8>)
        ensures
            exists|now: u128|
                old(self).clocked(now) && final(self)@ == #[trigger] old(self)@.written(
                    key@,
                    value@,
                    now,
                ),
    {
        let now: u128 = self.now();
        self.set_at(key, value, now);
    }

    fn insert_if_absent(&mut self, key: Vec<u8>, value: Vec<u8>) -> (inserted: bool)
        ensures
            exists|now: u128|
                old(self).clocked(now) && final(self)@ == #[trigger] old(self)@.written_if_absent(
                    key@,
                    value@,
                    now,
                ) && inserted == !old(self)@.live(key@, now),
            old(self)@.ttl == -1 ==> inserted == !old(self)@.entries.contains_key(key@),
    {
        let now: u128 = self.now();
        self.insert_if_absent_at(key, value, now)
    }

    fn get_default(&self, key: &[u8], default: Option<Vec<u8>>) -> (value: Option<Vec<u8>>)
        ensures
            exists|now: u128|
                self.clocked(now) && match #[trigger] self@.read(key@, now) {
                    Some(bytes) => value matches Some(found) && found@ == bytes,
                    None => value == default,
                },
            self@.ttl == -1 && self@.entries.contains_key(key@) ==> (value matches Some(found)
                && found@ == self@.entries[key@].0),
            !self@.entries.contains_key(key@) ==> value == default,
    {
        let now: u128 = self.now();
        assert(self@.ttl == -1 ==> self@.read(key@, now) == self@.read(key@, 0));
        match self.get_at(key, now) {
            Some(value) => Some(value),
            None => default,
        }
    }

    fn get(&self, key: &[u8]) -> (value: Option<Vec<u8>>)
        ensures
            exists|now: u128|
                self.clocked(now) && match #[trigger] self@.read(key@, now) {
                    Some(bytes) => value matches Some(found) && found@ == bytes,
                    None => value is None,
                },
            self@.ttl == -1 && self@.entries.contains_key(key@) ==> (value matches Some(found)
                && found@ == self@.entries[key@].0),
            !self@.entries.contains_key(key@) ==> value is None,
    {
        self.get_default(key, None)
    }

    fn delete(&mut self, key: &[u8])
        ensures
            final(self)@ == old(self)@.deleted(key@),
    {
        self.remove(key);
    }

    fn iter_older_than(&self, seconds_old: u64) -> (pairs: Vec<(Vec<u8>, Vec<u8>)>)
        ensures
            exists|now: u128|
                self.clocked(now) && #[trigger] lists_aged(self@, pairs@, seconds_old, now),
    {
        let now: u128 = self.now();
        let pairs: Vec<(Vec<u8>, Vec<u8>)> = self.iter_older_than_at(seconds_old, now);
        assert(lists_aged(self@, pairs@, seconds_old, now));
        pairs
    }

    fn iter_all(&self) -> (pairs: Vec<(Vec<u8>, Vec<u8>)>)
        ensures
            exists|now: u128| self.clocked(now) && #[trigger] lists_live(self@, pairs@, now),
    {
        let now: u128 = self.now();
        let pairs: Vec<(Vec<u8>, Vec<u8>)> = self.iter_all_at(now);
        assert(lists_live(self@, pairs@, now));
        pairs
    }
}

/// `pairs` lists exactly the entries that at `now` are live and at least
/// `seconds_old` seconds old.
pub open spec fn lists_aged(
    storage: StorageModel,
    pairs: Seq<(Vec<u8>, Vec<u8>)>,
    seconds_old: u64,
    now: u128,
) -> bool {
    storage.lists(pairs, |key: Seq<u8>| storage.aged(key, seconds_old, now))
}

/// `pairs` lists exactly the entries that are live at `now`.
pub open spec fn lists_live(
    storage: StorageModel,
    pairs: Seq<(Vec<u8>, Vec<u8>)>,
    now: u128,
) -> bool {
    storage.lists(pairs, |key: Seq<u8>| storage.live(key, now))
}

/// A value that was written is read back until it expires, and is not read back
/// after that.
pub proof fn a_read_gives_back_the_write(
    storage: StorageModel,
    key: Seq<u8>,
    value: Seq<u8>,
    written: u128,
    now: u128,
)
    ensures
        storage.written(key, value, written).read(key, now) == if storage.expired(written, now) {
            None
        } else {
            Some(value)
        },
{
}

/// Without a time to live nothing expires.
pub proof fn nothing_expires_without_a_ttl(storage: StorageModel, at: u128, now: u128)
    requires
        storage.ttl == -1,
    ensures
        !storage.expired(at, now),
{
}

/// Writing or deleting one key leaves what is read of every other key.
pub proof fn other_keys_are_untouched(
    storage: StorageModel,
    key: Seq<u8>,
    other: Seq<u8>,
    value: Seq<u8>,
    written: u128,
    now: u128,
)
    requires
        key != other,
    ensures
        storage.written(key, value, written).read(other, now) == storage.read(other, now),
        storage.written_if_absent(key, value, written).read(other, now) == storage.read(
            other,
            now,
        ),
        storage.deleted(key).read(other, now) == storage.read(other, now),
{
}

/// A deleted key is absent.
pub proof fn a_deleted_key_is_absent(storage: StorageModel, key: Seq<u8>, now: u128)
    ensures
        storage.deleted(key).read(key, now) is None,
{
}

/// A record that is there cannot be overwritten by an insertion: the storage
/// stays as it is.  One that is absent or has expired is written.
pub proof fn an_insertion_never_overwrites(
    storage: StorageModel,
    key: Seq<u8>,
    value: Seq<u8>,
    now: u128,
)
    ensures
        storage.live(key, now) ==> storage.written_if_absent(key, value, now) == storage,
        !storage.live(key, now) ==> storage.written_if_absent(key, value, now) == storage.written(
            key,
            value,
            now,
        ),
        storage.written_if_absent(key, value, now).live(key, now),
{
}

/// A value is read back for exactly as many seconds after it was written as the time
/// to live says, and for good where that is -1.
pub proof fn a_value_lives_for_its_ttl(
    storage: StorageModel,
    key: Seq<u8>,
    value: Seq<u8>,
    at: u128,
    now: u128,
)
    ensures
        storage.ttl == -1 ==> storage.written(key, value, at).read(key, now) == Some(value),
        storage.ttl >= 0 && now <= at + storage.ttl * 1_000_000_000 ==> storage.written(
            key,
            value,
            at,
        ).read(key, now) == Some(value),
        storage.ttl >= 0 && now > at + storage.ttl * 1_000_000_000 ==> storage.written(
            key,
            value,
            at,
        ).read(key, now) is None,
        storage.ttl < -1 ==> (storage.written(key, value, at).read(key, now) == Some(value) <==> now
            <= at + (0x1_0000_0000_0000_0000 + storage.ttl) * 1_000_000_000),
{
}

/// What is read of a key is what was written to it last, and nothing where it was
/// never written.  An insertion writes exactly where nothing would be read.
pub proof fn the_last_write_counts(
    storage: StorageModel,
    key: Seq<u8>,
    first: Seq<u8>,
    second: Seq<u8>,
    at: u128,
    later: u128,
    now: u128,
)
    requires
        at <= later <= now,
    ensures
        storage.ttl == -1 ==> storage.written(key, first, at).written(key, second, later).read(
            key,
            now,
        ) == Some(second),
        storage.ttl == -1 ==> storage.written(key, first, at).written_if_absent(
            key,
            second,
            later,
        ).read(key, now) == Some(first),
        storage.read(key, later) is None ==> storage.written_if_absent(key, second, later).read(
            key,
            later,
        ) == Some(second),
        storage.read(key, later) is Some ==> storage.written_if_absent(key, second, later).read(
            key,
            now,
        ) == storage.read(key, now),
        (StorageModel { entries: Map::empty(), ..storage }).read(key, now) is None,
        storage.deleted(key).written(key, second, later).read(key, later) == Some(second),
{
}

/// An entry is listed by age exactly if it is at least as old as is asked for and is
/// no older than the time to live; and it is listed with its value, once.
pub proof fn entries_are_listed_by_age(
    storage: StorageModel,
    pairs: Seq<(Vec<u8>, Vec<u8>)>,
    seconds_old: u64,
    now: u128,
    key: Seq<u8>,
)
    requires
        lists_aged(storage, pairs, seconds_old, now),
        storage.ttl >= -1,
    ensures
        (exists|i: int| 0 <= i < pairs.len() && (#[trigger] pairs[i]).0@ == key) <==> (
        storage.entries.contains_key(key) && (seconds_old == 0 || now >= storage.entries[key].1
            + seconds_old * 1_000_000_000) && (storage.ttl == -1 || now <= storage.entries[key].1
            + storage.ttl * 1_000_000_000)),
        forall|i: int|
            0 <= i < pairs.len() && (#[trigger] pairs[i]).0@ == key ==> pairs[i].1@
                == storage.entries[key].0,
        forall|i: int, j: int|
            0 <= i < j < pairs.len() ==> (#[trigger] pairs[i]).0@ != (#[trigger] pairs[j]).0@,
{
    let wanted = |k: Seq<u8>| storage.aged(k, seconds_old, now);
    if exists|i: int| 0 <= i < pairs.len() && (#[trigger] pairs[i]).0@ == key {
        let i = choose|i: int| 0 <= i < pairs.len() && (#[trigger] pairs[i]).0@ == key;
        assert(wanted(pairs[i].0@));
    }
    if storage.entries.contains_key(key) && (seconds_old == 0 || now >= storage.entries[key].1
        + seconds_old * 1_000_000_000) && (storage.ttl == -1 || now <= storage.entries[key].1
        + storage.ttl * 1_000_000_000) {
        assert(storage.entries.contains_key(key) && wanted(key));
    }
}

/// An entry is listed exactly if a reader would find it.
pub proof fn what_is_listed_is_what_is_read(
    storage: StorageModel,
    pairs: Seq<(Vec<u8>, Vec<u8>)>,
    now: u128,
    key: Seq<u8>,
)
    requires
        lists_live(storage, pairs, now),
    ensures
        (exists|i: int| 0 <= i < pairs.len() && (#[trigger] pairs[i]).0@ == key) <==> storage.read(
            key,
            now,
        ) is Some,
        forall|i: int|
            0 <= i < pairs.len() && (#[trigger] pairs[i]).0@ == key ==> storage.read(key, now)
                == Some(pairs[i].1@),
{
    let wanted = |k: Seq<u8>| storage.live(k, now);
    if exists|i: int| 0 <= i < pairs.len() && (#[trigger] pairs[i]).0@ == key {
        let i = choose|i: int| 0 <= i < pairs.len() && (#[trigger] pairs[i]).0@ == key;
        assert(wanted(pairs[i].0@));
    }
    if storage.read(key, now) is Some {
        assert(storage.entries.contains_key(key) && wanted(key));
    }
    assert forall|i: int| 0 <= i < pairs.len() && (#[trigger] pairs[i]).0@ == key implies storage.read(
        key,
        now,
    ) == Some(pairs[i].1@) by {
        assert(wanted(pairs[i].0@));
    }
}

} // verus!
