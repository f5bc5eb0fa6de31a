use geodns::cache::CacheEntry;
use geodns::cache::CacheKey;
use geodns::cache::ResponseCache;
use geodns::cache::shard_index;
use geodns::cache::MILLIS_PER_SECOND;

fn key(request: &[u8], country: &str) -> CacheKey {
    CacheKey { request: request.to_vec(), country: country.to_string() }
}

#[test]
fn a_new_cache_serves_nothing() {
    let mut cache = ResponseCache::new();
    assert_eq!(cache.get(&key(b"q", "IR"), 0), None);
    assert!(cache.peek(&key(b"q", "IR")).is_none());
}

#[test]
fn put_then_get_returns_the_bytes() {
    let mut cache = ResponseCache::new();
    cache.put(key(b"query", "IR"), b"answer".to_vec(), 30, 1_000);
    assert_eq!(cache.get(&key(b"query", "IR"), 1_000), Some(b"answer".to_vec()));
    assert_eq!(cache.get(&key(b"query", "IR"), 1_000), Some(b"answer".to_vec()));
}

#[test]
fn expiry_is_now_plus_the_ttl() {
    let mut cache = ResponseCache::new();
    cache.put(key(b"query", "IR"), b"answer".to_vec(), 30, 1_000);
    let entry: CacheEntry = cache.peek(&key(b"query", "IR")).unwrap();
    assert_eq!(entry.expires_at, 31_000);
    assert_eq!(entry.response, b"answer".to_vec());
    assert_eq!(MILLIS_PER_SECOND, 1000);
}

#[test]
fn an_entry_is_served_until_just_before_its_expiry() {
    let mut cache = ResponseCache::new();
    cache.put(key(b"query", "IR"), b"answer".to_vec(), 30, 1_000);
    assert_eq!(cache.get(&key(b"query", "IR"), 30_999), Some(b"answer".to_vec()));
    assert!(cache.peek(&key(b"query", "IR")).is_some());
}

#[test]
fn an_entry_is_evicted_at_its_expiry() {
    let mut cache = ResponseCache::new();
    cache.put(key(b"query", "IR"), b"answer".to_vec(), 30, 1_000);
    assert_eq!(cache.get(&key(b"query", "IR"), 31_000), None);
    assert!(cache.peek(&key(b"query", "IR")).is_none());
    assert_eq!(cache.get(&key(b"query", "IR"), 2_000), None);
}

#[test]
fn an_entry_is_evicted_after_its_expiry() {
    let mut cache = ResponseCache::new();
    cache.put(key(b"query", "DE"), b"answer".to_vec(), 1, 0);
    assert_eq!(cache.get(&key(b"query", "DE"), 5_000), None);
    assert!(cache.peek(&key(b"query", "DE")).is_none());
}

#[test]
fn a_ttl_of_zero_is_never_served() {
    let mut cache = ResponseCache::new();
    cache.put(key(b"query", "IR"), b"answer".to_vec(), 0, 77);
    assert_eq!(cache.peek(&key(b"query", "IR")).unwrap().expires_at, 77);
    assert_eq!(cache.get(&key(b"query", "IR"), 77), None);
    assert!(cache.peek(&key(b"query", "IR")).is_none());
}

#[test]
fn put_overwrites_the_entry_of_its_key() {
    let mut cache = ResponseCache::new();
    cache.put(key(b"query", "IR"), b"old".to_vec(), 10, 0);
    cache.put(key(b"query", "IR"), b"new".to_vec(), 20, 5_000);
    assert_eq!(cache.get(&key(b"query", "IR"), 12_000), Some(b"new".to_vec()));
    assert_eq!(cache.peek(&key(b"query", "IR")).unwrap().expires_at, 25_000);
}

#[test]
fn countries_do_not_share_entries() {
    let mut cache = ResponseCache::new();
    cache.put(key(b"query", "IR"), b"for IR".to_vec(), 30, 0);
    assert_eq!(cache.get(&key(b"query", "DE"), 1), None);
    cache.put(key(b"query", "DE"), b"for DE".to_vec(), 30, 0);
    assert_eq!(cache.get(&key(b"query", "IR"), 1), Some(b"for IR".to_vec()));
    assert_eq!(cache.get(&key(b"query", "DE"), 1), Some(b"for DE".to_vec()));
}

#[test]
fn requests_do_not_share_entries() {
    let mut cache = ResponseCache::new();
    cache.put(key(b"one", "IR"), b"1".to_vec(), 30, 0);
    cache.put(key(b"two", "IR"), b"2".to_vec(), 1, 0);
    assert_eq!(cache.get(&key(b"two", "IR"), 1_000), None);
    assert_eq!(cache.get(&key(b"one", "IR"), 1_000), Some(b"1".to_vec()));
    assert_eq!(cache.get(&key(b"on", "IR"), 1_000), None);
}

#[test]
fn the_largest_ttl_at_the_last_instant_fits() {
    let mut cache = ResponseCache::new();
    let now = u64::MAX - (u32::MAX as u64) * 1000;
    cache.put(key(b"q", "IR"), b"a".to_vec(), u32::MAX, now);
    assert_eq!(cache.peek(&key(b"q", "IR")).unwrap().expires_at, u64::MAX);
    assert_eq!(cache.get(&key(b"q", "IR"), u64::MAX - 1), Some(b"a".to_vec()));
    assert_eq!(cache.get(&key(b"q", "IR"), u64::MAX), None);
}

#[test]
fn the_shard_of_a_request_is_its_bytes_to_the_base_31() {
    assert_eq!(shard_index(&[], 16), 0);
    assert_eq!(shard_index(&[1], 16), 1);
    assert_eq!(shard_index(&[1, 2], 16), 1);
    assert_eq!(shard_index(&[1, 2], 1000), 33);
    assert_eq!(shard_index(&[255, 255, 255], 7), ((((255 % 7) * 31 + 255) % 7) * 31 + 255) % 7);
    assert_eq!(shard_index(b"any request", 1), 0);
}

#[test]
fn the_shard_of_a_request_is_within_the_parts() {
    for shards in [1usize, 2, 3, 16, 255, usize::MAX] {
        for request in [&b""[..], &b"a"[..], &b"example.com"[..], &[0xff; 64][..]] {
            let index = shard_index(request, shards);
            assert!(index < shards);
            assert_eq!(index, shard_index(request, shards));
        }
    }
}
