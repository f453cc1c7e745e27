//! What a response and an event report after they were patched.

use crate::json::{JsonView, NumberView};
use crate::usage::{patched_event, patched_response, patched_usage, CacheResult};
use vstd::prelude::*;

verus! {

/// The value is this integer.
pub open spec fn counts(value: JsonView, tokens: i32) -> bool {
    value == JsonView::Number(NumberView::Integer(tokens as int))
}

/// The usage says nothing of the cache.
pub open spec fn is_silent(usage: Map<Seq<char>, JsonView>) -> bool {
    &&& !usage.contains_key("cache_creation_input_tokens"@)
    &&& !usage.contains_key("cache_read_input_tokens"@)
    &&& !usage.contains_key("cache_creation"@)
}

/// The value is an object with a usage that says nothing of the cache.
pub open spec fn has_silent_usage(value: JsonView) -> bool {
    match value {
        JsonView::Object(members) => members.contains_key("usage"@) && match members["usage"@] {
            JsonView::Object(usage) => is_silent(usage),
            _ => false,
        },
        _ => false,
    }
}

/// The usage `after` is the usage `before` with the three counts of the outcome in it.
pub open spec fn reports(
    before: Map<Seq<char>, JsonView>,
    after: Map<Seq<char>, JsonView>,
    cache: CacheResult,
) -> bool {
    &&& after.contains_key("input_tokens"@)
    &&& counts(after["input_tokens"@], cache.uncached_input_tokens)
    &&& after.contains_key("cache_read_input_tokens"@)
    &&& counts(after["cache_read_input_tokens"@], cache.cache_read_input_tokens)
    &&& after.contains_key("cache_creation_input_tokens"@)
    &&& counts(after["cache_creation_input_tokens"@], cache.cache_creation_input_tokens)
    &&& forall|key: Seq<char>|
        key != "input_tokens"@ && key != "cache_read_input_tokens"@ && key
            != "cache_creation_input_tokens"@ ==> {
            &&& #[trigger] after.contains_key(key) == before.contains_key(key)
            &&& before.contains_key(key) ==> after[key] == before[key]
        }
}

/// All members but one are the same.
pub open spec fn same_but_for(
    before: Map<Seq<char>, JsonView>,
    after: Map<Seq<char>, JsonView>,
    changed: Seq<char>,
) -> bool {
    forall|key: Seq<char>|
        key != changed ==> {
            &&& #[trigger] after.contains_key(key) == before.contains_key(key)
            &&& before.contains_key(key) ==> after[key] == before[key]
        }
}

proof fn lemma_names_differ()
    ensures
        "input_tokens"@ != "cache_read_input_tokens"@,
        "input_tokens"@ != "cache_creation_input_tokens"@,
        "cache_read_input_tokens"@ != "cache_creation_input_tokens"@,
        "type"@ != "message"@,
        "type"@ != "usage"@,
        "message"@ != "usage"@,
        "message_start"@ != "message_delta"@,
{
    reveal_strlit("input_tokens");
    reveal_strlit("cache_read_input_tokens");
    reveal_strlit("cache_creation_input_tokens");
    reveal_strlit("type");
    reveal_strlit("message");
    reveal_strlit("usage");
    reveal_strlit("message_start");
    reveal_strlit("message_delta");
    assert("input_tokens"@.len() == 12 && "cache_read_input_tokens"@.len() == 23);
    assert("cache_creation_input_tokens"@.len() == 27);
    assert("type"@.len() == 4 && "message"@.len() == 7 && "usage"@.len() == 5);
    assert("message_start"@[8] == 's' && "message_delta"@[8] == 'd');
}

/// A usage that says nothing of the cache is given the three counts of the outcome, whatever
/// they are, and keeps its other members.
pub proof fn law_usage_reports_the_outcome(usage: Map<Seq<char>, JsonView>, cache: CacheResult)
    requires
        is_silent(usage),
    ensures
        reports(usage, patched_usage(usage, cache), cache),
{
    lemma_names_differ();
}

/// The three counts that a patched usage reports add up to those of the outcome.
pub proof fn law_reported_counts_add_up(usage: Map<Seq<char>, JsonView>, cache: CacheResult)
    requires
        is_silent(usage),
    ensures
        ({
            let after = patched_usage(usage, cache);
            let count = |key: Seq<char>| after[key]->Number_0->Integer_0;
            count("input_tokens"@) + count("cache_read_input_tokens"@) + count(
                "cache_creation_input_tokens"@,
            ) == cache.uncached_input_tokens + cache.cache_read_input_tokens
                + cache.cache_creation_input_tokens
        }),
{
    law_usage_reports_the_outcome(usage, cache);
}

/// A usage that says something of the cache stays as it is.
pub proof fn law_usage_that_speaks_stays(usage: Map<Seq<char>, JsonView>, cache: CacheResult)
    requires
        !is_silent(usage),
    ensures
        patched_usage(usage, cache) == usage,
{
}

/// A response whose usage says nothing of the cache reports the outcome there, and nothing else
/// of it changes.
pub proof fn law_response_reports_the_outcome(
    members: Map<Seq<char>, JsonView>,
    usage: Map<Seq<char>, JsonView>,
    cache: CacheResult,
)
    requires
        members.contains_key("usage"@),
        members["usage"@] == JsonView::Object(usage),
        is_silent(usage),
    ensures
        ({
            let after = patched_response(JsonView::Object(members), cache);
            &&& after is Object
            &&& after->Object_0.contains_key("usage"@)
            &&& after->Object_0["usage"@] is Object
            &&& reports(usage, after->Object_0["usage"@]->Object_0, cache)
            &&& same_but_for(members, after->Object_0, "usage"@)
        }),
{
    law_usage_reports_the_outcome(usage, cache);
}

/// A response without such a usage stays as it is.
pub proof fn law_other_responses_stay(value: JsonView, cache: CacheResult)
    requires
        !has_silent_usage(value),
    ensures
        patched_response(value, cache) == value,
{
    if let JsonView::Object(members) = value {
        if members.contains_key("usage"@) {
            if let JsonView::Object(usage) = members["usage"@] {
                assert(members.insert("usage"@, JsonView::Object(usage)) =~= members);
            }
        }
    }
}

/// A `message_start` reports the outcome in the usage of its message, and nothing else of it
/// changes.
pub proof fn law_message_start_reports_the_outcome(
    members: Map<Seq<char>, JsonView>,
    message: Map<Seq<char>, JsonView>,
    usage: Map<Seq<char>, JsonView>,
    cache: CacheResult,
)
    requires
        members.contains_key("type"@),
        members["type"@] == JsonView::Str("message_start"@),
        members.contains_key("message"@),
        members["message"@] == JsonView::Object(message),
        message.contains_key("usage"@),
        message["usage"@] == JsonView::Object(usage),
        is_silent(usage),
    ensures
        ({
            let after = patched_event(JsonView::Object(members), cache);
            &&& after is Object
            &&& same_but_for(members, after->Object_0, "message"@)
            &&& after->Object_0.contains_key("message"@)
            &&& after->Object_0["message"@] is Object
            &&& same_but_for(message, after->Object_0["message"@]->Object_0, "usage"@)
            &&& after->Object_0["message"@]->Object_0.contains_key("usage"@)
            &&& after->Object_0["message"@]->Object_0["usage"@] is Object
            &&& reports(
                usage,
                after->Object_0["message"@]->Object_0["usage"@]->Object_0,
                cache,
            )
        }),
{
    lemma_names_differ();
    law_response_reports_the_outcome(message, usage, cache);
}

/// A `message_delta` reports the outcome in its own usage, and nothing else of it changes.
pub proof fn law_message_delta_reports_the_outcome(
    members: Map<Seq<char>, JsonView>,
    usage: Map<Seq<char>, JsonView>,
    cache: CacheResult,
)
    requires
        members.contains_key("type"@),
        members["type"@] == JsonView::Str("message_delta"@),
        members.contains_key("usage"@),
        members["usage"@] == JsonView::Object(usage),
        is_silent(usage),
    ensures
        ({
            let after = patched_event(JsonView::Object(members), cache);
            &&& after is Object
            &&& same_but_for(members, after->Object_0, "usage"@)
            &&& after->Object_0.contains_key("usage"@)
            &&& after->Object_0["usage"@] is Object
            &&& reports(usage, after->Object_0["usage"@]->Object_0, cache)
        }),
{
    lemma_names_differ();
    law_response_reports_the_outcome(members, usage, cache);
}

/// Events of any other type, and values that are no objects, stay as they are.
pub proof fn law_other_events_stay(value: JsonView, cache: CacheResult)
    requires
        !(value matches JsonView::Object(members) && members.contains_key("type"@) && (
        members["type"@] == JsonView::Str("message_start"@) || members["type"@] == JsonView::Str(
            "message_delta"@,
        ))),
    ensures
        patched_event(value, cache) == value,
{
}

/// A `message_start` whose message has no usage to patch, and a `message_delta` that has none
/// itself, stay as they are.
pub proof fn law_events_without_usage_stay(
    members: Map<Seq<char>, JsonView>,
    cache: CacheResult,
)
    requires
        members.contains_key("type"@),
        members["type"@] == JsonView::Str("message_start"@) ==> !(members.contains_key("message"@)
            && has_silent_usage(members["message"@])),
        members["type"@] == JsonView::Str("message_delta"@) ==> !has_silent_usage(
            JsonView::Object(members),
        ),
    ensures
        patched_event(JsonView::Object(members), cache) == JsonView::Object(members),
{
    lemma_names_differ();
    if members["type"@] == JsonView::Str("message_start"@) {
        if members.contains_key("message"@) {
            law_other_responses_stay(members["message"@], cache);
            assert(members.insert("message"@, members["message"@]) =~= members);
        }
    } else if members["type"@] == JsonView::Str("message_delta"@) {
        law_other_responses_stay(JsonView::Object(members), cache);
    }
}

} // verus!
