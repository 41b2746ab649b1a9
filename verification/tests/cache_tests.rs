use kerf::cache::{cache_key, content_hash64, CacheEntry, CacheStats, InMemoryCompilationCache, COMPILE_CONFIG_SEED};
use kerf::driver::CompilerKind;
use kerf::reserved::CacheKey;

type Cache = InMemoryCompilationCache<String, Vec<u32>>;

#[test]
fn trait_store_then_get_hits() {
    let mut c = Cache::new();
    let key = CacheKey { source_hash: 1, config_fingerprint: 2 };
    assert!(c.get_cached(&key).is_none());
    c.store(key.clone(), Vec::new());
    let got = c.get_cached(&key).expect("store 后应命中");
    assert!(matches!(got, CacheEntry::Artifacts(v) if v.is_empty()));
}

#[test]
fn trait_store_idempotent_overwrite() {
    let mut c = Cache::new();
    let key = CacheKey { source_hash: 7, config_fingerprint: 8 };
    c.store(key.clone(), vec![1]);
    c.store(key.clone(), vec![1]);
    assert_eq!(c.entry_count(), 1);
}

#[test]
fn trait_invalidate_misses() {
    let mut c = Cache::new();
    let key = CacheKey { source_hash: 9, config_fingerprint: 10 };
    c.store(key.clone(), Vec::new());
    c.invalidate(&key);
    assert!(c.get_cached(&key).is_none());
    assert_eq!(c.stats().invalidations, 1);
    c.invalidate(&key);
    assert_eq!(c.stats().invalidations, 1);
}

#[test]
fn cache_key_discriminates() {
    let a = cache_key("(+ 1 2)", "a.krf", CompilerKind::Bootstrap);
    let a2 = cache_key("(+ 1 2)", "a.krf", CompilerKind::Bootstrap);
    let b = cache_key("(+ 1 3)", "a.krf", CompilerKind::Bootstrap);
    let f = cache_key("(+ 1 2)", "b.krf", CompilerKind::Bootstrap);
    assert_eq!(a, a2);
    assert_ne!(a, b);
    assert_ne!(a, f);
}

#[test]
fn cache_key_buckets_by_compiler_kind() {
    let prod = cache_key("(+ 1 2)", "a.krf", CompilerKind::Bootstrap);
    let seed = cache_key("(+ 1 2)", "a.krf", CompilerKind::Seed);
    assert_ne!(prod, seed, "同源同名异 CompilerKind 键必须不同");
}

#[test]
fn seed_bucket_entry_not_served_to_production_lookup() {
    let mut c = Cache::new();
    let seed_key = cache_key("(+ 1 2)", "k.krf", CompilerKind::Seed);
    let prod_key = cache_key("(+ 1 2)", "k.krf", CompilerKind::Bootstrap);
    c.store_front(seed_key, "front".to_string());
    assert!(c.lookup_front(&prod_key).is_none());
    assert!(c.lookup_front(&cache_key("(+ 1 2)", "k.krf", CompilerKind::Seed)).is_some());
}

#[test]
fn trait_store_degrades_for_pipeline() {
    let mut c = Cache::new();
    let key = CacheKey { source_hash: 11, config_fingerprint: 12 };
    c.store(key.clone(), Vec::new());
    assert!(c.lookup_front(&key).is_none());
    assert!(c.get_cached(&key).is_some());
}

#[test]
fn invalidate_all_clears_entries() {
    let mut c = Cache::new();
    let key = CacheKey { source_hash: 13, config_fingerprint: 14 };
    c.store(key, Vec::new());
    c.invalidate_all();
    assert_eq!(c.entry_count(), 0);
    assert_eq!(c.stats().invalidations, 1);
    assert_eq!(c.stats().stores, 1);
}

#[test]
fn lookup_counts_hits_and_misses() {
    let mut c = Cache::default();
    let key = CacheKey { source_hash: 1, config_fingerprint: 1 };
    assert!(c.lookup_front(&key).is_none());
    c.store_front(key, "x".to_string());
    assert_eq!(c.lookup_front(&key).map(|s| s.as_str()), Some("x"));
    assert_eq!(
        c.stats(),
        CacheStats { hits: 1, misses: 1, stores: 1, invalidations: 0 }
    );
    c.set_enabled(false);
    assert!(!c.enabled());
    assert_eq!(CacheStats::default(), CacheStats { hits: 0, misses: 0, stores: 0, invalidations: 0 });
}

#[test]
fn content_hash_is_sha256_prefix() {
    // SHA-256("abc") = ba7816bf 8f01cfea ...
    assert_eq!(content_hash64(b"abc"), 0xba7816bf8f01cfea);
    assert_eq!(COMPILE_CONFIG_SEED, "kerf-stage1-batchC-r7");
}

#[test]
fn invalidating_a_key_drops_one_entry() {
    let mut c: kerf::cache::InMemoryCompilationCache<u32, u32> = kerf::cache::InMemoryCompilationCache::new();
    let key = kerf::reserved::CacheKey { source_hash: 9, config_fingerprint: 10 };
    c.store(key, 1);
    assert_eq!(c.entry_count(), 1);
    c.invalidate(&key);
    assert_eq!(c.entry_count(), 0);
    assert_eq!(c.stats().invalidations, 1);
    c.invalidate(&key);
    assert_eq!(c.stats().invalidations, 1);
}
