//! A bounded cache of verification results.
//!
//! Results are kept under the SHA-256 digest of the whole record, so that a
//! record that differs in any byte is looked up under another key.  An entry
//! lives for an hour at most, and may be evicted before.

use std::time::Duration;

use moka::sync::Cache;
use sha2::Digest;
use sha2::Sha256;
use vstd::prelude::*;

verus! {

/// How long a result is kept, in seconds.
pub const RESULT_TTL: u64 = 3600;

#[verifier::external_type_specification]
#[verifier::external_body]
#[verifier::reject_recursive_types(K)]
#[verifier::reject_recursive_types(V)]
#[verifier::reject_recursive_types(S)]
pub struct ExCache<K, V, S>(Cache<K, V, S>);

/// The SHA-256 digest of `data`, as the `sha2` crate computes it.
pub uninterp spec fn sha256_of(data: Seq<u8>) -> Seq<u8>;

/// The result that was put in last under each key, whether or not the cache
/// still has it.
pub uninterp spec fn put_in(cache: Cache<[u8; 32], bool>) -> Map<Seq<u8>, bool>;

/// How many entries the cache was made to hold at most, and for how many seconds
/// it was made to keep each.
pub uninterp spec fn limits_of(cache: Cache<[u8; 32], bool>) -> (u64, u64);

/// No results.
pub open spec fn no_results() -> Map<Seq<u8>, bool> {
    Map::empty()
}

/// `sha2::Sha256::digest`, which is a function of the bytes alone.
#[verifier::external_body]
fn sha256(data: &[u8]) -> (digest: [u8; 32])
    ensures
        digest@ == sha256_of(data@),
{
    Sha256::digest(data).into()
}

/// `Cache::builder` with a capacity and a time to live: a cache with these limits
/// that nothing was put into.  Longer times than a thousand years are refused with
/// a panic, so they are left out.
#[verifier::external_body]
fn cache_new(max_capacity: u64, ttl_secs: u64) -> (cache: Cache<[u8; 32], bool>)
    requires
        ttl_secs <= 31_536_000_000,
    ensures
        put_in(cache) == no_results(),
        limits_of(cache) == (max_capacity, ttl_secs),
{
    Cache::builder().max_capacity(max_capacity).time_to_live(Duration::from_secs(ttl_secs)).build()
}

/// `Cache::get`: the result that was put in last under the key, or `None`.  When
/// an entry is gone is up to the cache and the clock: nothing is claimed of
/// that.
#[verifier::external_body]
fn cache_get(cache: &Cache<[u8; 32], bool>, key: &[u8; 32]) -> (found: Option<bool>)
    ensures
        found matches Some(result) ==> put_in(*cache).contains_key(key@) && put_in(*cache)[key@]
            == result,
{
    cache.get(key)
}

/// `Cache::insert`: puts the result in under the key.  The limits of a cache are
/// fixed when it is made.
#[verifier::external_body]
fn cache_insert(cache: &mut Cache<[u8; 32], bool>, key: [u8; 32], result: bool)
    ensures
        put_in(*final(cache)) == put_in(*old(cache)).insert(key@, result),
        limits_of(*final(cache)) == limits_of(*old(cache)),
{
    cache.insert(key, result);
}

/// `Cache::entry_count`: an estimate of how many entries there are, of which
/// nothing is claimed.
#[verifier::external_body]
fn cache_count(cache: &Cache<[u8; 32], bool>) -> (count: u64) {
    cache.entry_count()
}

/// Verification results of records.
pub struct SignatureCache {
    pub cache: Cache<[u8; 32], bool>,
}

impl View for SignatureCache {
    type V = Map<Seq<u8>, bool>;

    open spec fn view(&self) -> Map<Seq<u8>, bool> {
        put_in(self.cache)
    }
}

impl SignatureCache {
    /// How many results are held at most, and for how many seconds each.
    pub open spec fn limits(&self) -> (u64, u64) {
        limits_of(self.cache)
    }

    /// A cache for at most `max_capacity` results, which are kept for an hour.
    pub fn new(max_capacity: u64) -> (cache: Self)
        ensures
            cache@ == no_results(),
            cache.limits() == (max_capacity, RESULT_TTL),
    {
        Self { cache: cache_new(max_capacity, RESULT_TTL) }
    }

    /// The key of a record: the SHA-256 digest of its bytes.
    pub fn compute_key(value: &[u8]) -> (key: [u8; 32])
        ensures
            key@ == sha256_of(value@),
    {
        sha256(value)
    }

    /// Asked for the key, the cache gave `found`.
    pub closed spec fn answers(&self, key: Seq<u8>, found: Option<bool>) -> bool {
        exists|asked: [u8; 32]|
            asked@ == key && #[trigger] call_ensures(cache_get, (&self.cache, &asked), found)
    }

    /// The result under the key, if it is still there.
    pub fn get_by_key(&self, key: &[u8; 32]) -> (found: Option<bool>)
        ensures
            found matches Some(result) ==> self@.contains_key(key@) && self@[key@] == result,
            !self@.contains_key(key@) ==> found is None,
            self.answers(key@, found),
    {
        cache_get(&self.cache, key)
    }

    /// Puts the result in under the key.
    pub fn insert_by_key(&mut self, key: [u8; 32], result: bool)
        ensures
            final(self)@ == old(self)@.insert(key@, result),
            final(self).limits() == old(self).limits(),
    {
        cache_insert(&mut self.cache, key, result);
    }

    /// The result of the record, if it is still there.
    pub fn get(&self, value: &[u8]) -> (found: Option<bool>)
        ensures
            found matches Some(result) ==> self@.contains_key(sha256_of(value@))
                && self@[sha256_of(value@)] == result,
            !self@.contains_key(sha256_of(value@)) ==> found is None,
            self.answers(sha256_of(value@), found),
    {
        let key: [u8; 32] = Self::compute_key(value);
        self.get_by_key(&key)
    }

    /// Puts the result of the record in.
    pub fn insert(&mut self, value: &[u8], result: bool)
        ensures
            final(self)@ == old(self)@.insert(sha256_of(value@), result),
            final(self).limits() == old(self).limits(),
    {
        let key: [u8; 32] = Self::compute_key(value);
        self.insert_by_key(key, result);
    }

    /// Asked how many entries there are, the cache gave `count`.
    pub closed spec fn estimates(&self, count: u64) -> bool {
        call_ensures(cache_count, (&self.cache,), count)
    }

    /// An estimate of how many results there are.
    pub fn entry_count(&self) -> (count: u64)
        ensures
            self.estimates(count),
    {
        cache_count(&self.cache)
    }
}

} // verus!
