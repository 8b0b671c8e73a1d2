use thu_learn_cli::paths::{use_cached, CACHE_TTL_MS};

#[test]
fn cache_lives_six_hours() {
    assert_eq!(CACHE_TTL_MS, 6 * 60 * 60 * 1000);
    assert!(use_cached(Some(0), CACHE_TTL_MS));
    assert!(use_cached(Some(CACHE_TTL_MS - 1), CACHE_TTL_MS));
    assert!(!use_cached(Some(CACHE_TTL_MS), CACHE_TTL_MS));
    assert!(!use_cached(Some(CACHE_TTL_MS + 1), CACHE_TTL_MS));
    // A cache file whose age cannot be read is never used.
    assert!(!use_cached(None, CACHE_TTL_MS));
    assert!(!use_cached(Some(0), 0));
}

