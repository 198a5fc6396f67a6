use book_auth::cache::AuthCache;

#[test]
fn put_then_get_returns_secret() {
    let mut cache = AuthCache::new();
    cache.set("alice".to_string(), "s3cret".to_string(), 10, 100);
    assert_eq!(cache.get(&"alice".to_string(), 100), Some("s3cret".to_string()));
    // Still there right up to the last instant before expiry.
    assert_eq!(cache.get(&"alice".to_string(), 109), Some("s3cret".to_string()));
}

#[test]
fn expiry_purges_entry() {
    let mut cache = AuthCache::new();
    cache.set("alice".to_string(), "s3cret".to_string(), 10, 100);
    // A tie resolves to expired.
    assert_eq!(cache.get(&"alice".to_string(), 110), None);
    // The entry was purged, not merely hidden: even an earlier instant
    // finds nothing now.
    assert_eq!(cache.get(&"alice".to_string(), 105), None);
    assert_eq!(cache.get(&"alice".to_string(), 111), None);
}

#[test]
fn unknown_key_misses() {
    let mut cache = AuthCache::new();
    assert_eq!(cache.get(&"nobody".to_string(), 0), None);
    cache.set("alice".to_string(), "a".to_string(), 5, 0);
    assert_eq!(cache.get(&"bob".to_string(), 1), None);
}

#[test]
fn overwrite_replaces_secret_and_ttl() {
    let mut cache = AuthCache::new();
    cache.set("alice".to_string(), "old".to_string(), 10, 100);
    cache.set("alice".to_string(), "new".to_string(), 50, 105);
    assert_eq!(cache.get(&"alice".to_string(), 120), Some("new".to_string()));
    // The refreshed expiry, not the original one, governs.
    assert_eq!(cache.get(&"alice".to_string(), 154), Some("new".to_string()));
    assert_eq!(cache.get(&"alice".to_string(), 155), None);
}

#[test]
fn distinct_principals_are_independent() {
    let mut cache = AuthCache::new();
    cache.set("alice".to_string(), "a".to_string(), 10, 0);
    cache.set("bob".to_string(), "b".to_string(), 20, 0);
    assert_eq!(cache.get(&"alice".to_string(), 5), Some("a".to_string()));
    assert_eq!(cache.get(&"bob".to_string(), 15), Some("b".to_string()));
    // Alice expiring does not disturb Bob.
    assert_eq!(cache.get(&"alice".to_string(), 10), None);
    assert_eq!(cache.get(&"bob".to_string(), 19), Some("b".to_string()));
}

#[test]
fn invalidate_revokes_cached_secret() {
    let mut cache = AuthCache::new();
    cache.set("alice".to_string(), "s3cret".to_string(), 100, 0);
    cache.set("bob".to_string(), "b".to_string(), 100, 0);
    cache.invalidate(&"alice".to_string());
    assert_eq!(cache.get(&"alice".to_string(), 1), None);
    assert_eq!(cache.get(&"bob".to_string(), 1), Some("b".to_string()));
    // Revoking an absent key is harmless.
    cache.invalidate(&"nobody".to_string());
    assert_eq!(cache.get(&"bob".to_string(), 2), Some("b".to_string()));
}
