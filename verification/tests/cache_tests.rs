use jtime::cache::{Cache, CacheError, CACHE_DURATION};

#[test]
fn cache_round_trip_within_window() {
    let mut cache = Cache::new("month".to_string());
    cache.save("rendered grid", 1_000).unwrap();
    let loaded = cache.load(1_000).unwrap();
    assert_eq!(loaded, Some("rendered grid".to_string()));
    // The entry survives a fresh load.
    assert!(cache.has_entry());
    let again = cache.load(1_000 + CACHE_DURATION - 1).unwrap();
    assert_eq!(again, Some("rendered grid".to_string()));
}

#[test]
fn cache_expires_after_window_and_deletes_entry() {
    let mut cache = Cache::new("month".to_string());
    cache.save("rendered grid", 1_000).unwrap();
    let loaded = cache.load(1_000 + CACHE_DURATION).unwrap();
    assert_eq!(loaded, None);
    assert!(!cache.has_entry());
    // A later load stays a miss.
    assert_eq!(cache.load(1_000 + CACHE_DURATION + 1).unwrap(), None);
}

#[test]
fn cache_save_overwrites() {
    let mut cache = Cache::new("week".to_string());
    cache.save("first", 10).unwrap();
    cache.save("second", 20).unwrap();
    assert_eq!(cache.load(20).unwrap(), Some("second".to_string()));
}

#[test]
fn cache_clear_is_idempotent() {
    let mut cache = Cache::new("week".to_string());
    cache.save("text", 10).unwrap();
    cache.clear();
    assert!(!cache.has_entry());
    cache.clear();
    assert!(!cache.has_entry());
    assert_eq!(cache.load(11).unwrap(), None);
}

#[test]
fn cache_validity_reports_errors() {
    let mut cache = Cache::new("week".to_string());
    assert!(matches!(cache.is_valid(5), Err(CacheError::Metadata)));
    cache.save("text", 100).unwrap();
    assert_eq!(cache.is_valid(100).unwrap(), true);
    assert_eq!(cache.is_valid(100 + CACHE_DURATION).unwrap(), false);
    // A creation time after the clock is reported, not treated as fresh.
    assert!(matches!(cache.is_valid(99), Err(CacheError::Time)));
    assert!(matches!(cache.load(99), Err(CacheError::Time)));
    assert_eq!(
        CacheError::Metadata.message(),
        "Failed to read cache metadata"
    );
}
