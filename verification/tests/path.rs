//! Requests: their segments, their prefixes and their tokens.

use axum::http::HeaderMap;
use kiro_rs::json::{sort_json_value, Json};
use kiro_rs::path::{
    checked_cache_path, compute_cache_path, push_breakpoint, CacheBreakpoint, CachePath,
};
use kiro_rs::plan::{check_tokens_fit, keep_usable};
use kiro_rs::request::{
    block_cache_hash_material, checked_count_all_tokens, contains_any, count_all_tokens,
    minimum_cache_tokens, normalize_tool, parse_ttl, tool_name,
};
use kiro_rs::simulator::PromptCacheSimulator;
use kiro_rs::tokens::{count_tokens, is_non_western_char};

fn json(text: &str) -> Json {
    Json::from_value(serde_json::from_str(text).unwrap())
}

fn hashes(path: &CachePath) -> Vec<&str> {
    path.prefixes.iter().map(|prefix| prefix.hash.as_str()).collect()
}

const REQUEST: &str = r#"{
    "model": "sonnet-4-5",
    "tools": [
        {"name": "beta", "description": "reads", "input_schema": {"b": [true, null], "a": 1},
         "cache_control": {"type": "ephemeral", "ttl": "1h"}},
        {"name": "alpha", "description": "", "input_schema": {}}
    ],
    "system": [{"type": "text", "text": "be brief", "cache_control": {"type": "ephemeral"}}],
    "messages": [
        {"role": "user", "content": [
            {"type": "text", "text": "hi é", "cache_control": {"type": "ephemeral"}}
        ]},
        {"role": "assistant", "content": "hello"},
        {"role": "user", "content": 5}
    ],
    "cache_control": {"ttl": "1h"}
}"#;

#[test]
fn prefixes_are_hashed_one_after_the_other() {
    let path = compute_cache_path(&json(REQUEST));
    assert_eq!(
        hashes(&path),
        [
            "de5383229db940f83993f7e82b4678d28e0fb2251758beb3247c677e70da11e6",
            "716351177140de8670b67c93760ef60c0f190a56194fe183531070c8ef0e1727",
            "57f091df2cefd07b4b3883bd8fbe2839a21d15406a0abd3ae880a6afb5d7ae50",
            "b71228ba7bc4bf73a45597ca83ecd90a927ce32292aafef8001765ebd9e06bfc",
            "8ed2ad0f5646eeb86b5aca36301969bbf64fbe5fd327f22c124f67b05bca22ce",
        ]
    );
    let tokens: Vec<i32> = path.prefixes.iter().map(|prefix| prefix.tokens).collect();
    assert_eq!(tokens, [3, 22, 25, 26, 27]);
    let marks: Vec<(usize, u64)> = path
        .breakpoints
        .iter()
        .map(|breakpoint| (breakpoint.prefix_index, breakpoint.ttl_secs))
        .collect();
    assert_eq!(marks, [(1, 3600), (2, 300), (3, 300), (4, 3600)]);
    assert_eq!(
        checked_cache_path(&json(REQUEST)).map(|path| path.prefixes.len()),
        Some(5)
    );
}

#[test]
fn a_plain_system_prompt_is_one_segment() {
    let path = compute_cache_path(&json(r#"{"system": "hello", "messages": 1}"#));
    assert_eq!(
        hashes(&path),
        ["2cf24dba5fb0a30e26e83b2ac5b9e29e1b161e5c1fa7425e73043362938b9824"]
    );
    assert!(path.breakpoints.is_empty());
}

#[test]
fn a_request_without_segments_has_no_breakpoints() {
    let path = compute_cache_path(&json(r#"{"cache_control": {}}"#));
    assert!(path.prefixes.is_empty());
    assert!(path.breakpoints.is_empty());
}

#[test]
fn a_prefix_has_one_breakpoint() {
    let mut path = compute_cache_path(&json(r#"{"system": "hello"}"#));
    push_breakpoint(&mut path, 300);
    push_breakpoint(&mut path, 3600);
    assert_eq!(
        path.breakpoints,
        [CacheBreakpoint { prefix_index: 0, ttl_secs: 300 }]
    );
    let mut empty = CachePath { prefixes: Vec::new(), breakpoints: Vec::new() };
    push_breakpoint(&mut empty, 300);
    assert!(empty.breakpoints.is_empty());
}

#[test]
fn the_order_of_tools_does_not_matter() {
    let first = json(r#"{"tools": [{"name": "b"}, {"name": "a"}, {"name": "é"}, {}]}"#);
    let second = json(r#"{"tools": [{}, {"name": "é"}, {"name": "a"}, {"name": "b"}]}"#);
    assert_eq!(
        hashes(&compute_cache_path(&first)),
        hashes(&compute_cache_path(&second))
    );
}

#[test]
fn tools_of_one_name_keep_their_order() {
    let first = json(
        r#"{"tools": [{"name": "a", "description": "x"}, {"name": "a", "description": "y"}]}"#,
    );
    let second = json(
        r#"{"tools": [{"name": "a", "description": "y"}, {"name": "a", "description": "x"}]}"#,
    );
    assert_ne!(
        hashes(&compute_cache_path(&first)),
        hashes(&compute_cache_path(&second))
    );
}

#[test]
fn extended_requests_keep_their_prefixes() {
    let request = |messages: &str| {
        json(&format!(
            r#"{{"tools": [{{"name": "a"}}], "system": "s", "messages": [{messages}]}}"#
        ))
    };
    let shorter = request(r#"{"content": "one"}, {"content": [{"text": "two"}]}"#);
    let longer = request(
        r#"{"content": "one"}, {"content": [{"text": "two"}, {"text": "three"}]}, {"content": "four"}"#,
    );
    let first = compute_cache_path(&shorter);
    let second = compute_cache_path(&longer);
    assert_eq!(hashes(&first).len(), 4);
    assert_eq!(hashes(&second).len(), 6);
    assert_eq!(hashes(&first)[..], hashes(&second)[..4]);
}

#[test]
fn cache_control_does_not_change_hashes() {
    let marked = json(REQUEST);
    let plain = json(
        r#"{
            "tools": [
                {"name": "alpha"},
                {"name": "beta", "description": "reads", "input_schema": {"a": 1, "b": [true, null]}}
            ],
            "system": [{"text": "be brief"}],
            "messages": [
                {"content": [{"text": "hi é", "type": "text"}]},
                {"content": "hello"}
            ]
        }"#,
    );
    assert_eq!(
        hashes(&compute_cache_path(&marked)),
        hashes(&compute_cache_path(&plain))
    );
    assert!(compute_cache_path(&plain).breakpoints.is_empty());
}

#[test]
fn tools_have_a_normal_form() {
    assert_eq!(normalize_tool(&json("{}")), "name:");
    assert_eq!(normalize_tool(&json("7")), "name:");
    assert_eq!(
        normalize_tool(&json(
            r#"{"input_schema": {"z": {"y": 1.5, "x": -2}, "a": "\"\n"}, "description": "d", "name": "n"}"#
        )),
        r#"name:n|desc:d|schema:{"a":"\"\n","z":{"x":-2,"y":1.5}}"#
    );
    assert_eq!(
        normalize_tool(&json(r#"{"name": "n", "description": "", "input_schema": [1]}"#)),
        "name:n"
    );
    assert_eq!(tool_name(&json(r#"{"name": "n"}"#)), "n");
    assert_eq!(tool_name(&json(r#"{"name": 1}"#)), "");
}

#[test]
fn blocks_are_hashed_without_cache_control() {
    let block = json(r#"{"b": {"d": 1, "c": 2}, "cache_control": {}, "a": [{"f": 1, "e": 2}]}"#);
    assert_eq!(
        block_cache_hash_material(&block).to_text().as_deref(),
        Some(r#"{"a":[{"e":2,"f":1}],"b":{"c":2,"d":1}}"#)
    );
    assert_eq!(
        block_cache_hash_material(&json("\"text\"")).to_text().as_deref(),
        Some("\"text\"")
    );
}

#[test]
fn sorting_orders_the_members_of_objects() {
    let mut object = kiro_rs::json::JsonObject::new();
    object.insert("b", Json::Null);
    object.insert("a", Json::Bool(true));
    match sort_json_value(&Json::Array(vec![Json::Object(object)])) {
        Json::Array(items) => match &items[0] {
            Json::Object(sorted) => {
                let names: Vec<&str> =
                    sorted.entries.iter().map(|entry| entry.0.as_str()).collect();
                assert_eq!(names, ["a", "b"]);
            }
            _ => panic!("an object stays an object"),
        },
        _ => panic!("an array stays an array"),
    }
}

#[test]
fn times_to_live_are_minutes_or_an_hour() {
    assert_eq!(parse_ttl(&json(r#"{"ttl": "1h"}"#)), 3600);
    assert_eq!(parse_ttl(&json(r#"{"ttl": "5m"}"#)), 300);
    assert_eq!(parse_ttl(&json(r#"{"ttl": 1}"#)), 300);
    assert_eq!(parse_ttl(&json("null")), 300);
}

#[test]
fn models_cache_from_some_size_on() {
    for (model, minimum) in [
        ("opus-4-6", 4096),
        ("opus-4.6", 4096),
        ("OPUS-4-5-20251101", 4096),
        ("opus-4.5", 4096),
        ("opus-4-7", 4096),
        ("opus-4.7", 4096),
        ("haiku-4-5", 4096),
        ("Haiku-4.5", 4096),
        ("sonnet-4-6", 2048),
        ("sonnet-4.6", 2048),
        ("sonnet-4-5", 1024),
        ("us.anthropic.opus-4-7-v1:0", 4096),
        ("vendor/Sonnet-4-6", 2048),
        ("vendor-sonnet-4-5", 1024),
        ("", 1024),
    ] {
        assert_eq!(
            minimum_cache_tokens(&json(&format!(r#"{{"model": "{model}"}}"#))),
            minimum
        );
    }
    assert_eq!(minimum_cache_tokens(&json("{}")), 1024);
    assert!(contains_any("abc", &["x", "bc"]));
    assert!(!contains_any("abc", &["x", "cb"]));
    assert!(!contains_any("abc", &[]));
}

#[test]
fn all_texts_are_counted() {
    assert_eq!(count_all_tokens(&json(REQUEST)), 16);
    assert_eq!(count_all_tokens(&json("{}")), 1);
    assert_eq!(
        count_all_tokens(&json(r#"{"system": "四四四四", "tools": [{"input_schema": "四四"}]}"#)),
        6 + 3
    );
    assert_eq!(checked_count_all_tokens(&json(REQUEST)), Some(16));
    assert!(check_tokens_fit(&json(REQUEST)));
}

fn estimate(units: usize) -> i32 {
    let tokens = units as f64 / 4.0;
    let adjusted = if tokens < 100.0 {
        tokens * 1.5
    } else if tokens < 200.0 {
        tokens * 1.3
    } else if tokens < 300.0 {
        tokens * 1.25
    } else if tokens < 800.0 {
        tokens * 1.2
    } else {
        tokens
    };
    adjusted as i32
}

#[test]
fn counts_agree_with_the_estimate() {
    let text = "a".repeat(3300);
    for units in 0..3300 {
        assert_eq!(count_tokens(&text[..units]), estimate(units));
    }
    assert_eq!(count_tokens(&"中".repeat(1000)), estimate(4000));
    assert_eq!(count_tokens(&"中a".repeat(99)), estimate(495));
}

#[test]
fn latin_blocks_count_less() {
    for ch in ['\0', 'z', '\u{24f}', '\u{1e00}', '\u{1eff}', '\u{2c60}', '\u{a7ff}', '\u{ab30}'] {
        assert!(!is_non_western_char(ch));
    }
    for ch in ['\u{250}', '\u{1dff}', '\u{1f00}', '\u{2c80}', '\u{a800}', '\u{ab70}', '中', '🦀'] {
        assert!(is_non_western_char(ch));
    }
}

#[test]
fn plans_have_four_breakpoints_at_most() {
    let block = format!(
        r#"{{"text": "{}", "cache_control": {{}}}}"#,
        "a".repeat(4000)
    );
    let request = json(&format!(
        r#"{{"system": [{{"text": "short", "cache_control": {{}}}}, {block}, {block}, {block}, {block}, {block}]}}"#
    ));
    let path = compute_cache_path(&request);
    assert_eq!(path.breakpoints.len(), 6);
    let kept = keep_usable(&path, 1024);
    let places: Vec<usize> = kept.iter().map(|breakpoint| breakpoint.prefix_index).collect();
    assert_eq!(places, [2, 3, 4, 5]);
    let plan = PromptCacheSimulator::new()
        .plan_from_request(&HeaderMap::new(), &request)
        .unwrap();
    assert_eq!(plan.breakpoints, kept);
    assert_eq!(plan.api_key, "anonymous");
    assert_eq!(plan.prefixes.len(), 6);
    assert_eq!(plan.total_input_tokens, 1 + 5 * 1000);
    let large = keep_usable(&path, 4096);
    assert_eq!(large, [CacheBreakpoint { prefix_index: 5, ttl_secs: 300 }]);
    assert_eq!(keep_usable(&path, 1).len(), 4);
}
