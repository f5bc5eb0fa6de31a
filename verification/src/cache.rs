//! The response cache: raw responses keyed by the request they answer and the country
//! the request was routed for, each kept until its expiry instant.
//!
//! Instants are readings of one monotonic clock in milliseconds, handed in by the
//! caller.

use dashmap::DashMap;
use vstd::prelude::*;

verus! {

/// Milliseconds in a second.
pub const MILLIS_PER_SECOND: u64 = 1000;

/// What identifies a cached response: the raw request and the country it was routed for.
#[derive(Clone, Debug)]
pub struct CacheKey {
    pub request: Vec<u8>,
    pub country: String,
}

impl View for CacheKey {
    type V = (Seq<u8>, Seq<char>);

    open spec fn view(&self) -> (Seq<u8>, Seq<char>) {
        (self.request@, self.country@)
    }
}

/// A cached response and the instant from which it is no longer served.
#[derive(Clone, Debug)]
pub struct CacheEntry {
    pub response: Vec<u8>,
    pub expires_at: u64,
}

impl View for CacheEntry {
    type V = (Seq<u8>, u64);

    open spec fn view(&self) -> (Seq<u8>, u64) {
        (self.response@, self.expires_at)
    }
}

/// `dashmap::DashMap`, the concurrent hash map that holds the entries.
#[verifier::external_type_specification]
#[verifier::external_body]
#[verifier::reject_recursive_types(K)]
#[verifier::reject_recursive_types(V)]
#[verifier::reject_recursive_types(S)]
pub struct ExDashMap<K, V, S>(DashMap<K, V, S>);

/// The entries a map holds: for each key, the response and its expiry instant. The cache
/// never shares its map, and every change to it goes through an exclusive borrow, so
/// what the map holds changes only where a contract below says so.
pub uninterp spec fn stored(map: DashMap<(Vec<u8>, String), CacheEntry>) -> Map<
    (Seq<u8>, Seq<char>),
    (Seq<u8>, u64),
>;

/// The cache contents with no entry at all.
pub open spec fn no_entries() -> Map<(Seq<u8>, Seq<char>), (Seq<u8>, u64)> {
    Map::empty()
}

/// Makes a map with `dashmap::DashMap::new`. Trusted: it holds no entry.
#[verifier::external_body]
fn map_new() -> (fresh: DashMap<(Vec<u8>, String), CacheEntry>)
    ensures
        stored(fresh) == no_entries(),
{
    DashMap::new()
}

/// Looks a key up with `dashmap::DashMap::get` and copies the entry out. Trusted: the
/// copy is the entry stored under the key, and nothing comes back exactly when the key
/// has no entry.
#[verifier::external_body]
fn map_get(map: &DashMap<(Vec<u8>, String), CacheEntry>, key: &CacheKey) -> (found: Option<
    CacheEntry,
>)
    ensures
        found matches Some(entry) ==> stored(*map).contains_key(key@) && stored(*map)[key@]
            == entry@,
        found is None ==> !stored(*map).contains_key(key@),
{
    map.get(&(key.request.clone(), key.country.clone())).map(|entry| entry.value().clone())
}

/// Stores an entry with `dashmap::DashMap::insert`. Trusted: the key then maps to the
/// entry, replacing what it mapped to before, and every other key is left as it was.
#[verifier::external_body]
fn map_insert(map: &mut DashMap<(Vec<u8>, String), CacheEntry>, key: CacheKey, entry: CacheEntry)
    ensures
        stored(*final(map)) == stored(*old(map)).insert(key@, entry@),
{
    map.insert((key.request, key.country), entry);
}

/// Drops a key with `dashmap::DashMap::remove`. Trusted: the key then has no entry, and
/// every other key is left as it was.
#[verifier::external_body]
fn map_remove(map: &mut DashMap<(Vec<u8>, String), CacheEntry>, key: &CacheKey)
    ensures
        stored(*final(map)) == stored(*old(map)).remove(key@),
{
    map.remove(&(key.request.clone(), key.country.clone()));
}

/// The instant at which a response stored at `now` with a TTL of `ttl_seconds` expires.
pub open spec fn expiry(now: u64, ttl_seconds: u32) -> int {
    now + ttl_seconds * MILLIS_PER_SECOND
}

/// What a lookup at instant `now` serves: the stored response while `now` is before its
/// expiry, nothing once `now` has reached it, nothing for a key without entry.
pub open spec fn served(
    entries: Map<(Seq<u8>, Seq<char>), (Seq<u8>, u64)>,
    key: (Seq<u8>, Seq<char>),
    now: u64,
) -> Option<Seq<u8>> {
    if entries.contains_key(key) && now < entries[key].1 {
        Some(entries[key].0)
    } else {
        None
    }
}

/// The entries left by a lookup at instant `now`: an entry found expired is evicted,
/// everything else stays.
pub open spec fn after_lookup(
    entries: Map<(Seq<u8>, Seq<char>), (Seq<u8>, u64)>,
    key: (Seq<u8>, Seq<char>),
    now: u64,
) -> Map<(Seq<u8>, Seq<char>), (Seq<u8>, u64)> {
    if entries.contains_key(key) && now >= entries[key].1 {
        entries.remove(key)
    } else {
        entries
    }
}

/// The entries left by storing `response` under `key` at instant `now` with a TTL of
/// `ttl_seconds`.
pub open spec fn after_store(
    entries: Map<(Seq<u8>, Seq<char>), (Seq<u8>, u64)>,
    key: (Seq<u8>, Seq<char>),
    response: Seq<u8>,
    ttl_seconds: u32,
    now: u64,
) -> Map<(Seq<u8>, Seq<char>), (Seq<u8>, u64)> {
    entries.insert(key, (response, expiry(now, ttl_seconds) as u64))
}

/// The cache of upstream responses.
pub struct ResponseCache {
    map: DashMap<(Vec<u8>, String), CacheEntry>,
}

impl ResponseCache {
    /// The entries held: for each key, the response and its expiry instant.
    pub closed spec fn entries(&self) -> Map<(Seq<u8>, Seq<char>), (Seq<u8>, u64)> {
        stored(self.map)
    }

    /// An empty cache.
    pub fn new() -> (cache: ResponseCache)
        ensures
            cache.entries() == no_entries(),
    {
        ResponseCache { map: map_new() }
    }

    /// The entry held for `key`, expired or not, if there is one. Nothing is evicted.
    pub fn peek(&self, key: &CacheKey) -> (found: Option<CacheEntry>)
        ensures
            found matches Some(entry) ==> self.entries().contains_key(key@) && self.entries()[key@]
                == entry@,
            found is None <==> !self.entries().contains_key(key@),
    {
        map_get(&self.map, key)
    }

    /// Looks `key` up at instant `now`. Serves the cached response if there is one that
    /// has not expired; an entry found expired is evicted and nothing is served.
    pub fn get(&mut self, key: &CacheKey, now: u64) -> (response: Option<Vec<u8>>)
        ensures
            response matches Some(bytes) ==> served(old(self).entries(), key@, now) == Some(bytes@),
            response is None ==> served(old(self).entries(), key@, now) is None,
            final(self).entries() == after_lookup(old(self).entries(), key@, now),
    {
        match map_get(&self.map, key) {
            Some(entry) => {
                if now < entry.expires_at {
                    Some(entry.response)
                } else {
                    map_remove(&mut self.map, key);
                    None
                }
            },
            None => None,
        }
    }

    /// Stores `response` under `key` at instant `now`, to expire `ttl_seconds` later,
    /// in place of whatever the key held.
    pub fn put(&mut self, key: CacheKey, response: Vec<u8>, ttl_seconds: u32, now: u64)
        requires
            expiry(now, ttl_seconds) <= u64::MAX,
        ensures
            final(self).entries() == after_store(
                old(self).entries(),
                key@,
                response@,
                ttl_seconds,
                now,
            ),
    {
        let expires_at: u64 = now + (ttl_seconds as u64) * MILLIS_PER_SECOND;
        map_insert(&mut self.map, key, CacheEntry { response, expires_at });
    }
}

/// The part that holds the entries of a request in a cache split into `shards` parts:
/// the request's bytes, read as the digits of a number to the base 31, modulo `shards`.
pub open spec fn shard_of(request: Seq<u8>, shards: nat) -> nat
    recommends
        shards > 0,
    decreases request.len(),
{
    if request.len() == 0 {
        0
    } else {
        ((shard_of(request.drop_last(), shards) * 31 + request.last()) % (shards as int)) as nat
    }
}

/// Picks the part of a cache split into `shards` parts that holds the entries of
/// `request`, whatever country they are for. Parts can be locked one by one, so that
/// requests for different keys seldom wait for each other.
pub fn shard_index(request: &[u8], shards: usize) -> (index: usize)
    requires
        shards > 0,
    ensures
        index == shard_of(request@, shards as nat),
        index < shards,
{
    let mut index: usize = 0;
    let mut i: usize = 0;
    assert(request@.take(0) =~= Seq::<u8>::empty());
    while i < request.len()
        invariant
            i <= request@.len(),
            shards > 0,
            index < shards,
            index == shard_of(request@.take(i as int), shards as nat),
        decreases request@.len() - i,
    {
        proof {
            assert(request@.take(i as int + 1).drop_last() =~= request@.take(i as int));
        }
        let wide: u128 = (index as u128) * 31 + (request[i] as u128);
        index = (wide % (shards as u128)) as usize;
        i = i + 1;
    }
    assert(request@.take(request@.len() as int) =~= request@);
    index
}

/// A response stored with a TTL is served from the instant it was stored up to, but not
/// at, its expiry, and a lookup in that time leaves the cache as it was.
pub proof fn lemma_stored_response_is_served(
    entries: Map<(Seq<u8>, Seq<char>), (Seq<u8>, u64)>,
    key: (Seq<u8>, Seq<char>),
    response: Seq<u8>,
    ttl_seconds: u32,
    now: u64,
    later: u64,
)
    requires
        expiry(now, ttl_seconds) <= u64::MAX,
        later < expiry(now, ttl_seconds),
    ensures
        served(after_store(entries, key, response, ttl_seconds, now), key, later) == Some(response),
        after_lookup(after_store(entries, key, response, ttl_seconds, now), key, later)
            == after_store(entries, key, response, ttl_seconds, now),
{
}

/// Once the TTL of a stored response has elapsed, a lookup serves nothing and removes
/// the entry.
pub proof fn lemma_expired_response_is_evicted(
    entries: Map<(Seq<u8>, Seq<char>), (Seq<u8>, u64)>,
    key: (Seq<u8>, Seq<char>),
    response: Seq<u8>,
    ttl_seconds: u32,
    now: u64,
    later: u64,
)
    requires
        expiry(now, ttl_seconds) <= u64::MAX,
        later >= expiry(now, ttl_seconds),
    ensures
        served(after_store(entries, key, response, ttl_seconds, now), key, later) is None,
        !after_lookup(after_store(entries, key, response, ttl_seconds, now), key, later).contains_key(
            key,
        ),
        after_lookup(after_store(entries, key, response, ttl_seconds, now), key, later)
            == entries.remove(key),
{
    assert(after_store(entries, key, response, ttl_seconds, now).remove(key) =~= entries.remove(key));
}

/// A lookup or a store under one key leaves every other key's entry as it was.
pub proof fn lemma_other_keys_untouched(
    entries: Map<(Seq<u8>, Seq<char>), (Seq<u8>, u64)>,
    key: (Seq<u8>, Seq<char>),
    other: (Seq<u8>, Seq<char>),
    response: Seq<u8>,
    ttl_seconds: u32,
    now: u64,
)
    requires
        other != key,
    ensures
        after_lookup(entries, key, now).contains_key(other) == entries.contains_key(other),
        after_store(entries, key, response, ttl_seconds, now).contains_key(other)
            == entries.contains_key(other),
        entries.contains_key(other) ==> after_lookup(entries, key, now)[other] == entries[other]
            && after_store(entries, key, response, ttl_seconds, now)[other] == entries[other],
{
}

} // verus!
