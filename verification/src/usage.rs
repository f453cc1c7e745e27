//! Writing the outcome of a cache lookup into the usage that a response reports.

use crate::json::{lemma_insert_same, Json, JsonNumber, JsonObject, JsonView, NumberView};
use crate::text::same_text;
use vstd::prelude::*;

verus! {

/// How the input tokens of a request split up.
#[derive(Debug, Clone, Copy, PartialEq, Eq)]
pub struct CacheResult {
    /// Tokens that were found in the cache.
    pub cache_read_input_tokens: i32,
    /// Tokens that were put into the cache.
    pub cache_creation_input_tokens: i32,
    /// Tokens that the cache has no part in.
    pub uncached_input_tokens: i32,
}

impl Default for CacheResult {
    fn default() -> (result: CacheResult)
        ensures
            result.cache_read_input_tokens == 0,
            result.cache_creation_input_tokens == 0,
            result.uncached_input_tokens == 0,
    {
        CacheResult {
            cache_read_input_tokens: 0,
            cache_creation_input_tokens: 0,
            uncached_input_tokens: 0,
        }
    }
}

/// A server-sent event.
#[derive(Debug)]
pub struct SseEvent {
    pub event: String,
    pub data: Json,
}

impl SseEvent {
    /// An event with this name and these data.
    pub fn new(event: &str, data: Json) -> (result: SseEvent)
        ensures
            result.event@ == event@,
            result.data == data,
    {
        SseEvent { event: event.to_owned(), data }
    }
}

/// A JSON integer.
pub open spec fn integer(number: int) -> JsonView {
    JsonView::Number(NumberView::Integer(number))
}

/// The usage already speaks of the cache.
pub open spec fn has_cache_fields(usage: Map<Seq<char>, JsonView>) -> bool {
    ||| usage.contains_key("cache_creation_input_tokens"@)
    ||| usage.contains_key("cache_read_input_tokens"@)
    ||| usage.contains_key("cache_creation"@)
}

/// A usage with the outcome of a lookup written into it, unless it already speaks of the
/// cache.
pub open spec fn patched_usage(
    usage: Map<Seq<char>, JsonView>,
    cache: CacheResult,
) -> Map<Seq<char>, JsonView> {
    if has_cache_fields(usage) {
        usage
    } else {
        usage.insert(
            "cache_creation_input_tokens"@,
            integer(cache.cache_creation_input_tokens as int),
        ).insert(
            "cache_read_input_tokens"@,
            integer(cache.cache_read_input_tokens as int),
        ).insert("input_tokens"@, integer(cache.uncached_input_tokens as int))
    }
}

/// A value whose member `usage`, where it is an object, has been patched.
pub open spec fn patched_response(value: JsonView, cache: CacheResult) -> JsonView {
    match (value, value.field("usage"@)) {
        (JsonView::Object(members), Some(JsonView::Object(usage))) => JsonView::Object(
            members.insert("usage"@, JsonView::Object(patched_usage(usage, cache))),
        ),
        _ => value,
    }
}

/// The data of an event, patched: of a `message_start` the usage of its message, of a
/// `message_delta` its own.
pub open spec fn patched_event(data: JsonView, cache: CacheResult) -> JsonView {
    if data.text_field("type"@) == Some("message_start"@) {
        match (data, data.field("message"@)) {
            (JsonView::Object(members), Some(message)) => JsonView::Object(
                members.insert("message"@, patched_response(message, cache)),
            ),
            _ => data,
        }
    } else if data.text_field("type"@) == Some("message_delta"@) {
        patched_response(data, cache)
    } else {
        data
    }
}

/// Whether the usage already speaks of the cache.
pub fn usage_has_cache_fields(usage: &JsonObject) -> (result: bool)
    ensures
        result == has_cache_fields(usage@),
{
    usage.contains_key("cache_creation_input_tokens") || usage.contains_key(
        "cache_read_input_tokens",
    ) || usage.contains_key("cache_creation")
}

/// Writes the outcome of a lookup into a usage that does not speak of the cache yet.
pub fn patch_usage(usage: &mut JsonObject, cache: &CacheResult)
    ensures
        final(usage)@ == patched_usage(old(usage)@, *cache),
{
    if usage_has_cache_fields(usage) {
        return;
    }
    usage.insert(
        "cache_creation_input_tokens",
        Json::Number(JsonNumber::Signed(cache.cache_creation_input_tokens as i64)),
    );
    usage.insert(
        "cache_read_input_tokens",
        Json::Number(JsonNumber::Signed(cache.cache_read_input_tokens as i64)),
    );
    usage.insert(
        "input_tokens",
        Json::Number(JsonNumber::Signed(cache.uncached_input_tokens as i64)),
    );
}

/// Patches the usage that a response reports.
pub fn patch_json_response_usage(value: &mut Json, cache: &CacheResult)
    ensures
        final(value)@ == patched_response(old(value)@, *cache),
{
    match value {
        Json::Object(members) => {
            proof {
                lemma_insert_same(members@, "usage"@);
            }
            if let Some(Json::Object(usage)) = members.get_mut("usage") {
                patch_usage(usage, cache);
            }
        },
        _ => {},
    }
}

/// Patches the usage in the data of an event.
pub fn patch_sse_event(event: &mut Json, cache: &CacheResult)
    ensures
        final(event)@ == patched_event(old(event)@, *cache),
{
    let (starts, changes) = match event.text_field("type") {
        Some(kind) => (same_text(kind, "message_start"), same_text(kind, "message_delta")),
        None => (false, false),
    };
    if starts {
        match event {
            Json::Object(members) => {
                if let Some(message) = members.get_mut("message") {
                    patch_json_response_usage(message, cache);
                }
            },
            _ => {},
        }
    } else if changes {
        patch_json_response_usage(event, cache);
    }
}

/// Patches the usage in the data of every event.
pub fn patch_sse_events_usage(events: &mut [SseEvent], cache: &CacheResult)
    ensures
        final(events)@.len() == old(events)@.len(),
        forall|i: int|
            0 <= i < old(events)@.len() ==> {
                &&& (#[trigger] final(events)@[i]).data@ == patched_event(
                    old(events)@[i].data@,
                    *cache,
                )
                &&& final(events)@[i].event == old(events)@[i].event
            },
{
    let mut at: usize = 0;
    while at < events.len()
        invariant
            at <= events@.len(),
            events@.len() == old(events)@.len(),
            forall|i: int|
                0 <= i < at ==> {
                    &&& (#[trigger] events@[i]).data@ == patched_event(
                        old(events)@[i].data@,
                        *cache,
                    )
                    &&& events@[i].event == old(events)@[i].event
                },
            forall|i: int| at <= i < events@.len() ==> #[trigger] events@[i] == old(events)@[i],
        decreases events.len() - at,
    {
        patch_sse_event(&mut events[at].data, cache);
        at = at + 1;
    }
}

/// Patching a usage leaves all its other members as they are.
pub proof fn law_patching_keeps_other_members(
    usage: Map<Seq<char>, JsonView>,
    cache: CacheResult,
    key: Seq<char>,
)
    requires
        key != "cache_creation_input_tokens"@,
        key != "cache_read_input_tokens"@,
        key != "input_tokens"@,
    ensures
        patched_usage(usage, cache).contains_key(key) == usage.contains_key(key),
        usage.contains_key(key) ==> patched_usage(usage, cache)[key] == usage[key],
{
}

/// A usage that was patched once is not patched again, whatever the second outcome.
pub proof fn law_patching_a_usage_twice(
    usage: Map<Seq<char>, JsonView>,
    first: CacheResult,
    second: CacheResult,
)
    ensures
        patched_usage(patched_usage(usage, first), second) == patched_usage(usage, first),
{
    if !has_cache_fields(usage) {
        let patched = patched_usage(usage, first);
        assert(patched.contains_key("cache_read_input_tokens"@));
    }
}

/// An event that was patched once is not patched again, whatever the second outcome.
pub proof fn law_patching_an_event_twice(data: JsonView, first: CacheResult, second: CacheResult)
    ensures
        patched_event(patched_event(data, first), second) == patched_event(data, first),
{
    reveal_strlit("type");
    reveal_strlit("message");
    reveal_strlit("usage");
    assert("type"@.len() != "message"@.len() && "type"@.len() != "usage"@.len());
    assert("message"@.len() != "usage"@.len());
    match data {
        JsonView::Object(members) => {
            if data.field("message"@) is Some {
                let message = members["message"@];
                law_patching_a_response_twice(message, first, second);
                let once = patched_response(message, first);
                let new_members = members.insert("message"@, once);
                assert(new_members.insert("message"@, once) =~= new_members);
            }
            law_patching_a_response_twice(data, first, second);
        },
        _ => {},
    }
}

/// A response that was patched once is not patched again, whatever the second outcome.
pub proof fn law_patching_a_response_twice(value: JsonView, first: CacheResult, second: CacheResult)
    ensures
        patched_response(patched_response(value, first), second) == patched_response(value, first),
{
    match (value, value.field("usage"@)) {
        (JsonView::Object(members), Some(JsonView::Object(usage))) => {
            law_patching_a_usage_twice(usage, first, second);
            let once = JsonView::Object(patched_usage(usage, first));
            let new_members = members.insert("usage"@, once);
            assert(new_members.insert("usage"@, once) =~= new_members);
        },
        _ => {},
    }
}

} // verus!
