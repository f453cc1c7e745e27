//! Texts, JSON values, cleaned prompts and patched usage.

use kiro_rs::cch::{strip_cch_from_request, strip_cch_from_string, strip_cch_segments};
use kiro_rs::json::{Json, JsonNumber, JsonObject};
use kiro_rs::text::{
    contains, in_order, join_with, same_text, split_on, split_words, starts_with, to_lower, trim,
    trim_start, whitespace,
};
use kiro_rs::usage::{
    patch_json_response_usage, patch_sse_event, patch_usage, usage_has_cache_fields, CacheResult,
};

fn json(text: &str) -> Json {
    Json::from_value(serde_json::from_str(text).unwrap())
}

const USED: CacheResult = CacheResult {
    cache_read_input_tokens: 3,
    cache_creation_input_tokens: 4,
    uncached_input_tokens: -5,
};

#[test]
fn texts_are_handled_as_std_does() {
    for code in 0..=0x10ffff {
        if let Some(ch) = char::from_u32(code) {
            assert_eq!(whitespace(ch), ch.is_whitespace());
        }
    }
    let samples = [
        "", " ", "a", " Ab é\u{3000}", "x;;y; z", ";", "ÀB\tc\n", "aab", "bearer  sk", "中 文",
    ];
    for left in samples {
        assert_eq!(trim(left), left.trim());
        assert_eq!(trim_start(left), left.trim_start());
        assert_eq!(to_lower(left), left.to_ascii_lowercase());
        assert_eq!(split_words(left), left.split_whitespace().collect::<Vec<_>>());
        let pieces = split_on(left, ';');
        assert_eq!(pieces, left.split(';').collect::<Vec<_>>());
        assert_eq!(join_with(&pieces, ";"), left);
        assert_eq!(join_with(&pieces, ", "), pieces.join(", "));
        for right in samples {
            assert_eq!(same_text(left, right), left == right);
            assert_eq!(contains(left, right), left.contains(right));
            assert_eq!(starts_with(left, right), left.starts_with(right));
            assert_eq!(in_order(left, right), left <= right);
        }
    }
}

#[test]
fn values_survive_the_way_there_and_back() {
    for text in [
        "null",
        "true",
        "0",
        "-1",
        "18446744073709551615",
        "-9223372036854775808",
        "1.5",
        "1e300",
        r#""a\"\\\n\u0000é中""#,
        "[]",
        "{}",
        r#"[1,[false],{"a":null}]"#,
        r#"{"a":{"b":[]},"c":"d"}"#,
    ] {
        let value: serde_json::Value = serde_json::from_str(text).unwrap();
        let own = Json::from_value(value.clone());
        assert_eq!(own.to_value(), value);
        assert_eq!(own.clone().to_value(), value);
        assert_eq!(own.to_text(), Some(serde_json::to_string(&value).unwrap()));
    }
}

#[test]
fn integers_are_told_apart_from_other_numbers() {
    assert!(matches!(json("7"), Json::Number(JsonNumber::Unsigned(7))));
    assert!(matches!(json("-7"), Json::Number(JsonNumber::Signed(-7))));
    assert!(matches!(json("7.0"), Json::Number(JsonNumber::Other(_))));
}

#[test]
fn objects_are_read_from_texts() {
    let object = JsonObject::from_text(r#" {"a": 1, "a": 2, "b": {"c": []}} "#).unwrap();
    assert!(matches!(
        object.get("a"),
        Some(Json::Number(JsonNumber::Unsigned(2)))
    ));
    assert!(object.get("b").and_then(|member| member.array_field("c")).is_some());
    for text in ["", "[]", "{", r#"{"a": 1} x"#, "null"] {
        let reason = serde_json::from_str::<std::collections::HashMap<String, serde_json::Value>>(text)
            .unwrap_err();
        assert_eq!(JsonObject::from_text(text).unwrap_err(), reason.to_string());
    }
}

#[test]
fn later_members_are_written() {
    let entry = |name: &str, truth: bool| (name.to_string(), Json::Bool(truth));
    let object = JsonObject {
        entries: vec![entry("b", true), entry("a", true), entry("b", false)],
    };
    let listed = Json::Array(vec![Json::Object(object)]);
    assert_eq!(listed.to_text().as_deref(), Some(r#"[{"a":true,"b":false}]"#));
}

#[test]
fn later_members_count() {
    let mut object = JsonObject::new();
    assert!(object.is_empty());
    object.insert("a", Json::Null);
    object.insert("a", Json::Bool(true));
    assert!(matches!(object.get("a"), Some(Json::Bool(true))));
    if let Some(member) = object.get_mut("a") {
        *member = Json::Str("x".to_string());
    }
    assert_eq!(object.get("a").and_then(Json::as_str), Some("x"));
    object.remove("a");
    assert!(!object.contains_key("a"));
    object.insert("b", Json::Null);
    object.clear();
    assert!(object.is_empty());
}

#[test]
fn cch_segments_are_taken_out() {
    assert_eq!(strip_cch_segments("a; cch=1; b"), "a; b");
    assert_eq!(strip_cch_segments("cch=1"), "");
    assert_eq!(strip_cch_segments("a;\u{3000}cch=;"), "a;");
    assert_eq!(strip_cch_segments("a; xcch=1;"), "a; xcch=1;");
    let mut other = "a; cch=1; b".to_string();
    assert!(!strip_cch_from_string(&mut other));
    assert_eq!(other, "a; cch=1; b");
    let mut header = "x-anthropic-billing-header: a; cch=1;".to_string();
    assert!(strip_cch_from_string(&mut header));
    assert_eq!(header, "x-anthropic-billing-header: a;");
    assert!(!strip_cch_from_string(&mut header));
    assert_eq!(header, "x-anthropic-billing-header: a;");
}

#[test]
fn cleaning_a_request_twice_is_cleaning_it_once() {
    let mut plain = json(r#"{"system": "x-anthropic-billing-header; cch=1;", "a": "cch=1"}"#);
    assert!(strip_cch_from_request(&mut plain));
    assert_eq!(
        plain.to_text().as_deref(),
        Some(r#"{"a":"cch=1","system":"x-anthropic-billing-header;"}"#)
    );
    assert!(!strip_cch_from_request(&mut plain));
    let mut listed = json(
        r#"{"system": [{"text": "cch=1"}, 1, {"text": "x-anthropic-billing-header; cch=2"}]}"#,
    );
    assert!(strip_cch_from_request(&mut listed));
    assert_eq!(
        listed.to_text().as_deref(),
        Some(r#"{"system":[{"text":"cch=1"},1,{"text":"x-anthropic-billing-header"}]}"#)
    );
    assert!(!strip_cch_from_request(&mut listed));
    for text in ["{}", "[]", r#"{"system": 1}"#] {
        assert!(!strip_cch_from_request(&mut json(text)));
    }
}

#[test]
fn cch_segments_do_not_matter() {
    let mut first = json(r#"{"system": "x-anthropic-billing-header; cch=1; z"}"#);
    let mut second = json(r#"{"system": "x-anthropic-billing-header; cch=22; z"}"#);
    strip_cch_from_request(&mut first);
    strip_cch_from_request(&mut second);
    assert_eq!(first.to_text(), second.to_text());
}

#[test]
fn usage_is_patched_once() {
    let mut usage = JsonObject::from_text(r#"{"output_tokens": 2}"#).unwrap();
    assert!(!usage_has_cache_fields(&usage));
    patch_usage(&mut usage, &USED);
    assert!(usage_has_cache_fields(&usage));
    let expected = r#"{"cache_creation_input_tokens":4,"cache_read_input_tokens":3,"input_tokens":-5,"output_tokens":2}"#;
    assert_eq!(Json::Object(usage.clone()).to_text().as_deref(), Some(expected));
    patch_usage(
        &mut usage,
        &CacheResult {
            cache_read_input_tokens: 9,
            cache_creation_input_tokens: 9,
            uncached_input_tokens: 9,
        },
    );
    assert_eq!(Json::Object(usage).to_text().as_deref(), Some(expected));
    for name in ["cache_creation_input_tokens", "cache_read_input_tokens", "cache_creation"] {
        let mut other = JsonObject::new();
        other.insert(name, Json::Null);
        assert!(usage_has_cache_fields(&other));
    }
}

#[test]
fn responses_without_usage_stay_as_they_are() {
    for text in ["[]", "{}", r#"{"usage":1}"#] {
        let mut value = json(text);
        patch_json_response_usage(&mut value, &USED);
        assert_eq!(value.to_text().as_deref(), Some(text));
    }
}

#[test]
fn events_are_patched_where_they_report_usage() {
    let patched = r#"{"cache_creation_input_tokens":4,"cache_read_input_tokens":3,"input_tokens":-5}"#;
    let mut delta = json(r#"{"type": "message_delta", "usage": {}}"#);
    patch_sse_event(&mut delta, &USED);
    assert_eq!(
        delta.to_text(),
        Some(format!(r#"{{"type":"message_delta","usage":{patched}}}"#))
    );
    let mut start = json(r#"{"type": "message_start", "message": {"usage": {}}, "usage": {}}"#);
    patch_sse_event(&mut start, &USED);
    assert_eq!(
        start.to_text(),
        Some(format!(
            r#"{{"message":{{"usage":{patched}}},"type":"message_start","usage":{{}}}}"#
        ))
    );
    for text in [
        r#"{"type":"ping","usage":{}}"#,
        r#"{"usage":{}}"#,
        r#"{"message":{"usage":{}},"type":"message_delta"}"#,
        r#"{"message":1,"type":"message_start"}"#,
    ] {
        let mut event = json(text);
        patch_sse_event(&mut event, &USED);
        assert_eq!(event.to_text().as_deref(), Some(text));
    }
}

#[test]
fn responses_and_events_are_patched_once() {
    let other = CacheResult {
        cache_read_input_tokens: 1,
        cache_creation_input_tokens: 1,
        uncached_input_tokens: 1,
    };
    let mut response = json(r#"{"id": 1, "usage": {"input_tokens": 9}}"#);
    patch_json_response_usage(&mut response, &USED);
    let once = response.to_text();
    patch_json_response_usage(&mut response, &other);
    assert_eq!(response.to_text(), once);
    let mut event = json(r#"{"type": "message_start", "message": {"id": 1, "usage": {}}}"#);
    patch_sse_event(&mut event, &USED);
    let once = event.to_text();
    patch_sse_event(&mut event, &other);
    assert_eq!(event.to_text(), once);
}
