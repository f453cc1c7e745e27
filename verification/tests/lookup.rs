//! Lookups at given times.

use axum::http::{header, HeaderMap};
use kiro_rs::json::Json;
use kiro_rs::lookup::{cache_key, lookup_or_create};
use kiro_rs::path::{CacheBreakpoint, CachePrefix};
use kiro_rs::plan::CachePlan;
use kiro_rs::simulator::{nanoseconds, PromptCacheSimulator};
use kiro_rs::store::{CacheEntry, CacheStore};
use kiro_rs::usage::CacheResult;

const SECOND: u128 = 1_000_000_000;

fn plan(key: &str, tokens: &[i32], breakpoints: &[(usize, u64)], total: i32) -> CachePlan {
    CachePlan {
        api_key: key.to_string(),
        prefixes: tokens
            .iter()
            .enumerate()
            .map(|(at, tokens)| CachePrefix {
                hash: format!("{at:064x}"),
                tokens: *tokens,
            })
            .collect(),
        breakpoints: breakpoints
            .iter()
            .map(|(prefix_index, ttl_secs)| CacheBreakpoint {
                prefix_index: *prefix_index,
                ttl_secs: *ttl_secs,
            })
            .collect(),
        total_input_tokens: total,
    }
}

fn outcome(read: i32, creation: i32, uncached: i32) -> CacheResult {
    CacheResult {
        cache_read_input_tokens: read,
        cache_creation_input_tokens: creation,
        uncached_input_tokens: uncached,
    }
}

#[test]
fn keys_name_the_caller_and_the_prefix() {
    assert_eq!(cache_key("sk", "ab"), "cache:sk:ab");
    assert_eq!(cache_key("", ""), "cache::");
}

#[test]
fn any_hashes_are_looked_up() {
    let mut cache = CacheStore::new();
    let prefix = |hash: &str, tokens: i32| CachePrefix { hash: hash.to_string(), tokens };
    let mut wanted = plan("k", &[], &[(0, 300), (1, 3600)], 160);
    wanted.prefixes = vec![prefix("h0", 100), prefix("h1", 150)];
    assert_eq!(lookup_or_create(&mut cache, &wanted, 0), outcome(0, 150, 10));
    assert_eq!(
        cache.get("cache:k:h0"),
        Some(CacheEntry { tokens: 100, expires_at: 300 * SECOND })
    );
    assert_eq!(
        cache.get("cache:k:h1"),
        Some(CacheEntry { tokens: 150, expires_at: 3600 * SECOND })
    );
    assert_eq!(cache.get("cache:k:"), None);
}

#[test]
fn times_are_in_nanoseconds() {
    assert_eq!(nanoseconds(0, 0), 0);
    assert_eq!(nanoseconds(2, 5), 2 * SECOND + 5);
}

#[test]
fn a_plan_without_breakpoints_leaves_the_cache_alone() {
    let mut cache = CacheStore::new();
    cache.insert("old".to_string(), CacheEntry { tokens: 1, expires_at: 5 });
    let result = lookup_or_create(&mut cache, &plan("k", &[10], &[], 12), 10);
    assert_eq!(result, outcome(0, 0, 12));
    assert!(cache.get("old").is_some());
    let result = lookup_or_create(&mut cache, &plan("k", &[], &[(0, 300), (7, 300)], 12), 10);
    assert_eq!(result, outcome(0, 0, 12));
    assert!(cache.get("old").is_some());
    let result = lookup_or_create(&mut cache, &plan("k", &[10], &[(0, 300)], 12), 10);
    assert_eq!(result, outcome(0, 10, 2));
    assert!(cache.get("old").is_none());
}

#[test]
fn a_second_lookup_reads_what_the_first_wrote() {
    let mut cache = CacheStore::new();
    let wanted = plan("k", &[10, 30, 60], &[(0, 300), (2, 3600)], 70);
    assert_eq!(lookup_or_create(&mut cache, &wanted, 0), outcome(0, 60, 10));
    assert_eq!(lookup_or_create(&mut cache, &wanted, 1), outcome(60, 0, 10));
    let twice = plan("other", &[10, 30], &[(1, 300), (1, 3600)], 30);
    assert_eq!(lookup_or_create(&mut cache, &twice, 0), outcome(0, 30, 0));
    assert_eq!(lookup_or_create(&mut cache, &twice, 1), outcome(30, 0, 0));
}

#[test]
fn entries_expire() {
    let mut cache = CacheStore::new();
    let wanted = plan("k", &[10], &[(0, 300)], 10);
    assert_eq!(lookup_or_create(&mut cache, &wanted, 0), outcome(0, 10, 0));
    let last = 300 * SECOND - 1;
    assert_eq!(lookup_or_create(&mut cache, &wanted, last), outcome(10, 0, 0));
    let refreshed = last + 300 * SECOND;
    assert_eq!(lookup_or_create(&mut cache, &wanted, refreshed - 1), outcome(10, 0, 0));
    let entry = cache.get(&cache_key("k", &format!("{:064x}", 0))).unwrap();
    assert_eq!(entry, CacheEntry { tokens: 10, expires_at: refreshed - 1 + 300 * SECOND });
    assert_eq!(
        lookup_or_create(&mut cache, &wanted, entry.expires_at),
        outcome(0, 10, 0)
    );
}

#[test]
fn the_lookback_reaches_twenty_prefixes() {
    let tokens: Vec<i32> = (1..=30).collect();
    for (place, read) in [(24, 4), (23, 4), (22, 4)] {
        let mut cache = CacheStore::new();
        lookup_or_create(&mut cache, &plan("k", &tokens, &[(3, 300)], 40), 0);
        let result = lookup_or_create(&mut cache, &plan("k", &tokens, &[(place, 300)], 40), 0);
        let expected = if place - 3 <= 20 { read } else { 0 };
        assert_eq!(result.cache_read_input_tokens, expected);
        assert_eq!(
            result.cache_creation_input_tokens,
            tokens[place] - expected
        );
        assert_eq!(result.uncached_input_tokens, 40 - tokens[place]);
    }
}

#[test]
fn an_extension_reads_what_was_written() {
    let mut cache = CacheStore::new();
    lookup_or_create(&mut cache, &plan("k", &[10, 20], &[(1, 300)], 20), 0);
    let longer = plan("k", &[10, 20, 50], &[(1, 300), (2, 300)], 55);
    assert_eq!(lookup_or_create(&mut cache, &longer, 1), outcome(20, 30, 5));
}

#[test]
fn keys_do_not_share_entries() {
    let mut cache = CacheStore::new();
    let mine = plan("mine", &[10], &[(0, 300)], 10);
    let yours = plan("yours", &[10], &[(0, 300)], 10);
    assert_eq!(lookup_or_create(&mut cache, &mine, 0), outcome(0, 10, 0));
    assert_eq!(lookup_or_create(&mut cache, &yours, 1), outcome(0, 10, 0));
    assert_eq!(lookup_or_create(&mut cache, &mine, 2), outcome(10, 0, 0));
}

#[test]
fn tokens_are_accounted_for() {
    let mut cache = CacheStore::new();
    let large = plan("k", &[10, 90], &[(1, 300)], 50);
    let result = lookup_or_create(&mut cache, &large, 0);
    assert_eq!(result, outcome(0, 90, 0));
    let result = lookup_or_create(&mut cache, &plan("k", &[10, 90], &[(1, 300)], 100), 0);
    assert_eq!(result, outcome(90, 0, 10));
}

#[test]
fn the_simulator_looks_up_at_given_times() {
    let request = Json::from_value(
        serde_json::from_str(&format!(
            r#"{{"system": [{{"text": "{}", "cache_control": {{"ttl": "1h"}}}}]}}"#,
            "a".repeat(8000)
        ))
        .unwrap(),
    );
    let mut headers = HeaderMap::new();
    headers.insert("x-api-key", header::HeaderValue::from_static("sk"));
    let mut simulator = PromptCacheSimulator::new();
    let wanted = simulator.plan_from_request(&headers, &request).unwrap();
    assert_eq!(wanted.api_key, "sk");
    let first = simulator.lookup_or_create_at(Some(wanted.clone()), 0);
    assert_eq!(first, Some(outcome(0, 2000, 0)));
    let hour = 3600 * SECOND;
    let second = simulator.lookup_or_create_at(Some(wanted.clone()), hour - 1);
    assert_eq!(second, Some(outcome(2000, 0, 0)));
    let third = simulator.lookup_or_create_at(Some(wanted), 2 * hour - 1);
    assert_eq!(third, Some(outcome(0, 2000, 0)));
    assert_eq!(simulator.lookup_or_create_at(None, 0), None);
}
