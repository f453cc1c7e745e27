//! The simulator from requests to reported usage.

use axum::http::{header, HeaderMap};
use kiro_rs::headers::{extract_api_key, is_json_request};
use kiro_rs::json::{Json, JsonNumber};
use kiro_rs::simulator::PromptCacheSimulator;
use kiro_rs::usage::{
    patch_json_response_usage, patch_sse_events_usage, CacheResult, SseEvent,
};

fn json(text: &str) -> Json {
    Json::from_value(serde_json::from_str(text).unwrap())
}

fn integer(value: Option<&Json>) -> Option<i64> {
    match value {
        Some(Json::Number(JsonNumber::Unsigned(number))) => Some(*number as i64),
        Some(Json::Number(JsonNumber::Signed(number))) => Some(*number),
        _ => None,
    }
}

fn long_text() -> String {
    "cacheable prompt material ".repeat(240)
}

fn cch_request(cch: &str) -> Json {
    json(&format!(
        r#"{{
            "model": "opus-4-7",
            "system": [
                {{"text": "x-anthropic-billing-header: cc_version=2.1.138.9e3; cc_entrypoint=sdk-cli; cch={cch};"}},
                {{"text": "{}", "cache_control": {{"type": "ephemeral"}}}}
            ],
            "messages": [{{"role": "user", "content": "hello"}}]
        }}"#,
        long_text().repeat(4)
    ))
}

fn block_request(blocks: &str) -> Json {
    json(&format!(
        r#"{{
            "model": "sonnet-4-5",
            "messages": [{{"role": "user", "content": [{blocks}]}}]
        }}"#
    ))
}

#[test]
fn memory_cache_records_then_hits_breakpoint() {
    let request = json(&format!(
        r#"{{
            "model": "sonnet-4-5",
            "system": [{{"text": "{}", "cache_control": {{"type": "ephemeral"}}}}],
            "messages": [{{"role": "user", "content": "hello"}}]
        }}"#,
        long_text()
    ));
    let mut simulator = PromptCacheSimulator::new();
    let plan = simulator
        .plan_from_request(&HeaderMap::new(), &request)
        .expect("cache plan should be prepared");

    let first = simulator
        .lookup_or_create(Some(plan.clone()))
        .expect("cache result");
    assert!(first.cache_creation_input_tokens > 0);
    assert_eq!(first.cache_read_input_tokens, 0);

    let second = simulator
        .lookup_or_create(Some(plan))
        .expect("cache result");
    assert_eq!(second.cache_creation_input_tokens, 0);
    assert!(second.cache_read_input_tokens > 0);
}

#[test]
fn lookback_reuses_prior_prefix_and_writes_extension() {
    let prefix = long_text();
    let extension = long_text();
    let first_block = format!(
        r#"{{"type": "text", "text": "{prefix}", "cache_control": {{"type": "ephemeral"}}}}"#
    );
    let second_block = format!(
        r#"{{"type": "text", "text": "{extension}", "cache_control": {{"type": "ephemeral"}}}}"#
    );
    let first_request = block_request(&first_block);
    let second_request = block_request(&format!("{first_block}, {second_block}"));
    let mut simulator = PromptCacheSimulator::new();
    let first_plan = simulator
        .plan_from_request(&HeaderMap::new(), &first_request)
        .expect("cache plan should be prepared");
    let second_plan = simulator
        .plan_from_request(&HeaderMap::new(), &second_request)
        .expect("cache plan should be prepared");

    let first = simulator
        .lookup_or_create(Some(first_plan))
        .expect("cache result");
    assert!(first.cache_creation_input_tokens > 0);

    let second = simulator
        .lookup_or_create(Some(second_plan))
        .expect("cache result");
    assert!(second.cache_read_input_tokens > 0);
    assert!(second.cache_creation_input_tokens > 0);
    assert!(second.cache_creation_input_tokens < first.cache_creation_input_tokens * 2);
}

#[test]
fn cache_control_metadata_does_not_change_message_block_hash() {
    let prompt = long_text();
    let first_request = block_request(&format!(
        r#"{{"type": "text", "text": "{prompt}", "cache_control": {{"type": "ephemeral"}}}}"#
    ));
    let second_request = block_request(&format!(
        r#"{{"type": "text", "text": "{prompt}", "cache_control": {{"type": "ephemeral", "ttl": "1h"}}}}"#
    ));
    let mut simulator = PromptCacheSimulator::new();

    let first_plan = simulator
        .plan_from_request(&HeaderMap::new(), &first_request)
        .expect("cache plan should be prepared");
    let second_plan = simulator
        .plan_from_request(&HeaderMap::new(), &second_request)
        .expect("cache plan should be prepared");
    let first = simulator
        .lookup_or_create(Some(first_plan))
        .expect("cache result");
    assert!(first.cache_creation_input_tokens > 0);

    let second = simulator
        .lookup_or_create(Some(second_plan))
        .expect("cache result");
    assert_eq!(second.cache_creation_input_tokens, 0);
    assert!(second.cache_read_input_tokens > 0);
}

#[test]
fn message_block_object_key_order_does_not_change_hash() {
    let prompt = long_text();
    let first_request = block_request(&format!(
        r#"{{"type": "text", "text": "{prompt}", "cache_control": {{"type": "ephemeral"}}}}"#
    ));
    let second_request = block_request(&format!(
        r#"{{"cache_control": {{"type": "ephemeral"}}, "text": "{prompt}", "type": "text"}}"#
    ));
    let mut simulator = PromptCacheSimulator::new();

    let first_plan = simulator
        .plan_from_request(&HeaderMap::new(), &first_request)
        .expect("cache plan should be prepared");
    let second_plan = simulator
        .plan_from_request(&HeaderMap::new(), &second_request)
        .expect("cache plan should be prepared");
    let first = simulator
        .lookup_or_create(Some(first_plan))
        .expect("cache result");
    assert!(first.cache_creation_input_tokens > 0);

    let second = simulator
        .lookup_or_create(Some(second_plan))
        .expect("cache result");
    assert_eq!(second.cache_creation_input_tokens, 0);
    assert!(second.cache_read_input_tokens > 0);
}

#[test]
fn short_prompts_do_not_create_breakpoints_under_minimum() {
    let request = json(
        r#"{
            "model": "sonnet-4-6",
            "system": [{"text": "short", "cache_control": {"type": "ephemeral"}}],
            "messages": [{"role": "user", "content": "hello"}]
        }"#,
    );
    let simulator = PromptCacheSimulator::new();
    let plan = simulator
        .plan_from_request(&HeaderMap::new(), &request)
        .expect("cache plan should be prepared");

    assert!(plan.breakpoints.is_empty());
}

#[test]
fn strip_cch_removes_dynamic_segment_before_cache_plan() {
    let simulator = PromptCacheSimulator::new();
    let mut first_request = cch_request("dee71");
    let mut second_request = cch_request("460a0");

    assert!(simulator.strip_cch_from_request(&mut first_request));
    assert!(simulator.strip_cch_from_request(&mut second_request));

    let system_text = first_request
        .get("system")
        .and_then(Json::as_array)
        .and_then(|messages| messages[0].text_field("text"))
        .expect("system text exists");
    assert!(system_text.contains("x-anthropic-billing-header"));
    assert!(!system_text.contains("cch="));

    let first_plan = simulator
        .plan_from_request(&HeaderMap::new(), &first_request)
        .expect("cache plan should be prepared");
    let second_plan = simulator
        .plan_from_request(&HeaderMap::new(), &second_request)
        .expect("cache plan should be prepared");
    let first_breakpoint = &first_plan.breakpoints[0];
    let second_breakpoint = &second_plan.breakpoints[0];

    assert_eq!(
        first_plan.prefixes[first_breakpoint.prefix_index].hash,
        second_plan.prefixes[second_breakpoint.prefix_index].hash
    );
}

#[test]
fn patch_json_usage_cache_fields() {
    let mut value = json(r#"{"usage":{"input_tokens":123,"output_tokens":2}}"#);
    let cache = CacheResult {
        cache_read_input_tokens: 3,
        cache_creation_input_tokens: 4,
        uncached_input_tokens: 5,
    };

    patch_json_response_usage(&mut value, &cache);

    let usage = value.get("usage").unwrap();
    assert_eq!(integer(usage.get("cache_read_input_tokens")), Some(3));
    assert_eq!(integer(usage.get("cache_creation_input_tokens")), Some(4));
    assert_eq!(integer(usage.get("input_tokens")), Some(5));
}

#[test]
fn patch_sse_message_start_usage_cache_fields() {
    let mut events = vec![SseEvent::new(
        "message_start",
        json(
            r#"{
                "type": "message_start",
                "message": {"usage": {"input_tokens": 1}}
            }"#,
        ),
    )];
    let cache = CacheResult {
        cache_read_input_tokens: 7,
        cache_creation_input_tokens: 0,
        uncached_input_tokens: 1,
    };

    patch_sse_events_usage(&mut events, &cache);

    let usage = events[0]
        .data
        .get("message")
        .and_then(|message| message.get("usage"))
        .unwrap();
    assert_eq!(integer(usage.get("cache_read_input_tokens")), Some(7));
    assert_eq!(integer(usage.get("cache_creation_input_tokens")), Some(0));
}

#[test]
fn leaves_usage_unchanged_when_cache_fields_already_exist() {
    let mut value = json(
        r#"{
            "usage": {
                "input_tokens": 11,
                "cache_read_input_tokens": 99,
                "output_tokens": 2
            }
        }"#,
    );
    let cache = CacheResult {
        cache_read_input_tokens: 3,
        cache_creation_input_tokens: 4,
        uncached_input_tokens: 5,
    };

    patch_json_response_usage(&mut value, &cache);

    let usage = value.get("usage").unwrap();
    assert_eq!(integer(usage.get("cache_read_input_tokens")), Some(99));
    assert!(usage.get("cache_creation_input_tokens").is_none());
    assert_eq!(integer(usage.get("input_tokens")), Some(11));
}

#[test]
fn disabled_simulator_skips_cache_plan_and_cch_strip() {
    let simulator = PromptCacheSimulator::with_options(false, false);
    let mut request = cch_request("abc12");

    assert!(!simulator.strip_cch_from_request(&mut request));
    assert!(simulator
        .plan_from_request(&HeaderMap::new(), &request)
        .is_none());
}

#[test]
fn bearer_api_key_extraction_is_case_and_whitespace_tolerant() {
    let mut headers = HeaderMap::new();
    headers.insert(
        header::AUTHORIZATION,
        header::HeaderValue::from_static("bearer    sk-lowercase"),
    );

    assert_eq!(extract_api_key(&headers), "sk-lowercase");
}

#[test]
fn api_keys_come_from_either_header() {
    let mut headers = HeaderMap::new();
    assert_eq!(extract_api_key(&headers), "anonymous");
    headers.insert(
        header::AUTHORIZATION,
        header::HeaderValue::from_static("Basic sk-other"),
    );
    assert_eq!(extract_api_key(&headers), "anonymous");
    headers.insert(
        header::AUTHORIZATION,
        header::HeaderValue::from_static("Bearer sk-one more"),
    );
    assert_eq!(extract_api_key(&headers), "anonymous");
    headers.insert(
        header::AUTHORIZATION,
        header::HeaderValue::from_static("Bearer sk-one"),
    );
    assert_eq!(extract_api_key(&headers), "sk-one");
    headers.insert("x-api-key", header::HeaderValue::from_static("sk-two"));
    assert_eq!(extract_api_key(&headers), "sk-two");
    headers.insert(
        "x-api-key",
        header::HeaderValue::from_bytes(b"sk-\xff").unwrap(),
    );
    assert_eq!(extract_api_key(&headers), "sk-one");
}

#[test]
fn only_json_is_planned_for() {
    let mut headers = HeaderMap::new();
    assert!(is_json_request(&headers));
    headers.insert(
        header::CONTENT_TYPE,
        header::HeaderValue::from_static("Application/JSON; charset=utf-8"),
    );
    assert!(is_json_request(&headers));
    headers.insert(
        header::CONTENT_TYPE,
        header::HeaderValue::from_static("text/plain"),
    );
    assert!(!is_json_request(&headers));
    let simulator = PromptCacheSimulator::new();
    let request = json(r#"{"messages": [{"role": "user", "content": "hello"}]}"#);
    assert!(simulator.plan_from_request(&headers, &request).is_none());
    headers.insert(
        header::CONTENT_TYPE,
        header::HeaderValue::from_bytes(b"text/\xff").unwrap(),
    );
    assert!(simulator.plan_from_request(&headers, &request).is_some());
}

#[test]
fn web_searches_are_not_planned_for() {
    let simulator = PromptCacheSimulator::new();
    let headers = HeaderMap::new();
    let named = json(r#"{"tools": [{"name": "web_search"}]}"#);
    let typed = json(r#"{"tools": [{"name": "s", "type": "web_search_20250305"}]}"#);
    let both = json(r#"{"tools": [{"name": "web_search"}, {"name": "read"}]}"#);
    assert!(simulator.plan_from_request(&headers, &named).is_none());
    assert!(simulator.plan_from_request(&headers, &typed).is_none());
    assert!(simulator.plan_from_request(&headers, &both).is_some());
    assert_eq!(
        simulator
            .try_plan_from_request(&headers, &named)
            .map(|plan| plan.is_none()),
        Ok(true)
    );
    assert_eq!(
        simulator
            .try_plan_from_request(&headers, &both)
            .map(|plan| plan.is_some()),
        Ok(true)
    );
}

#[test]
fn nothing_is_looked_up_without_a_plan() {
    let mut simulator = PromptCacheSimulator::default();
    assert!(simulator.lookup_or_create(None).is_none());
}
