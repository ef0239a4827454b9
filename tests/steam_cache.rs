use etb_save_core::steam_cache::SteamCacheManager;

const DAY: u64 = 86_400;

#[test]
fn cache_hits_count_uses_and_expire() {
    let mut c = SteamCacheManager::new();
    c.update_cache("1", "alice".to_string(), 1000);
    c.update_cache("2", "bob".to_string(), 1000);
    assert_eq!(c.get_cache_size(), 2);
    assert_eq!(c.call_count, 2);
    assert_eq!(c.get_cached_username("1", 1000 + DAY), Some(("alice".to_string(), false)));
    assert_eq!(c.entries[0].1.call_count, 2);
    assert_eq!(c.get_cached_username("3", 1000), None);
    assert_eq!(c.get_cached_username("2", 1000 + 31 * DAY), None);
    assert_eq!(c.get_cache_size(), 1);
    for _ in 0..7 {
        c.get_cached_username("1", 2000);
    }
    assert_eq!(c.get_cached_username("1", 2000), Some(("alice".to_string(), true)));
}

#[test]
fn cleanup_and_clear() {
    let mut c = SteamCacheManager::new();
    c.update_cache("old", "o".to_string(), 0);
    c.update_cache("new", "n".to_string(), 40 * DAY);
    c.update_cache("new", "n2".to_string(), 40 * DAY);
    assert_eq!(c.get_cache_size(), 2);
    assert_eq!(c.cleanup_expired_cache(40 * DAY), 1);
    let all = c.get_all_cache_entries();
    assert_eq!(all.len(), 1);
    assert_eq!(all[0].0, "new");
    assert_eq!(all[0].1.username, "n2");
    c.clear_cache();
    assert_eq!(c.get_cache_size(), 0);
    assert_eq!(c.call_count, 0);
}

#[test]
fn growing_past_fifty_drops_rare_entries() {
    let mut c = SteamCacheManager::new();
    for i in 0..50 {
        c.update_cache(&i.to_string(), "x".to_string(), 5);
    }
    for _ in 0..3 {
        c.get_cached_username("7", 5);
    }
    assert_eq!(c.get_cache_size(), 50);
    c.update_cache("50", "y".to_string(), 5);
    assert_eq!(c.get_cache_size(), 1);
    assert_eq!(c.entries[0].0, "7");
}
