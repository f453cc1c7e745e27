//! That the cache controls of a request do not change its prefixes.

use crate::json::JsonView;
use crate::path::{prefixes_of, request_path};
use crate::request::{
    block_segment, content_segments, message_segments, messages_segments, name_of, place_tool,
    segments, sorted_tools, system_segment, system_segments, tool_parts, tool_segment,
    tool_segments, Segment,
};
use crate::request_laws::{alike, law_like_segments_have_the_same_prefixes};
use vstd::prelude::*;

verus! {

/// A value without its own cache control.
pub open spec fn bare(value: JsonView) -> JsonView {
    match value {
        JsonView::Object(members) => JsonView::Object(members.remove("cache_control"@)),
        _ => value,
    }
}

/// Values without their own cache controls.
pub open spec fn bare_values(values: Seq<JsonView>) -> Seq<JsonView> {
    values.map_values(|value: JsonView| bare(value))
}

/// The members of an object, where the member `key`, if it is an array, is put through `change`.
pub open spec fn with_array(
    members: Map<Seq<char>, JsonView>,
    key: Seq<char>,
    change: spec_fn(Seq<JsonView>) -> Seq<JsonView>,
) -> Map<Seq<char>, JsonView> {
    match JsonView::Object(members).array_field(key) {
        Some(items) => members.insert(key, JsonView::Array(change(items))),
        None => members,
    }
}

/// A message without the cache controls of its blocks.
pub open spec fn bare_message(message: JsonView) -> JsonView {
    match message {
        JsonView::Object(members) => JsonView::Object(
            with_array(members, "content"@, |blocks: Seq<JsonView>| bare_values(blocks)),
        ),
        _ => message,
    }
}

/// Messages without the cache controls of their blocks.
pub open spec fn bare_messages(messages: Seq<JsonView>) -> Seq<JsonView> {
    messages.map_values(|message: JsonView| bare_message(message))
}

/// A request without any cache control: its own, those of its tools, those of its system
/// messages, and those of the blocks of its messages.
pub open spec fn without_controls(request: JsonView) -> JsonView {
    match request {
        JsonView::Object(members) => {
            let own = members.remove("cache_control"@);
            let tools = with_array(own, "tools"@, |tools: Seq<JsonView>| bare_values(tools));
            let system = with_array(tools, "system"@, |parts: Seq<JsonView>| bare_values(parts));
            JsonView::Object(
                with_array(
                    system,
                    "messages"@,
                    |messages: Seq<JsonView>| bare_messages(messages),
                ),
            )
        },
        _ => request,
    }
}

/// The segments are alike, one by one.
pub open spec fn all_alike(left: Seq<Segment>, right: Seq<Segment>) -> bool {
    left.len() == right.len() && forall|i: int|
        0 <= i < left.len() ==> alike(#[trigger] left[i], right[i])
}

proof fn lemma_bare(value: JsonView)
    ensures
        name_of(bare(value)) == name_of(value),
        alike(tool_segment(bare(value)), tool_segment(value)),
        alike(system_segment(bare(value)), system_segment(value)),
        alike(block_segment(bare(value)), block_segment(value)),
{
    reveal_strlit("cache_control");
    reveal_strlit("name");
    reveal_strlit("text");
    reveal_strlit("description");
    reveal_strlit("input_schema");
    assert("cache_control"@.len() == 13);
    assert("name"@.len() == 4 && "text"@.len() == 4);
    assert("description"@.len() == 11 && "input_schema"@.len() == 12);
    assert(tool_parts(bare(value)) == tool_parts(value));
    if let JsonView::Object(members) = value {
        assert(members.remove("cache_control"@).remove("cache_control"@) =~= members.remove(
            "cache_control"@,
        ));
    }
}

proof fn lemma_place_bare(sorted: Seq<JsonView>, tool: JsonView)
    ensures
        place_tool(bare_values(sorted), bare(tool)) == bare_values(place_tool(sorted, tool)),
    decreases sorted.len(),
{
    lemma_bare(tool);
    if sorted.len() > 0 {
        lemma_bare(sorted.last());
        lemma_place_bare(sorted.drop_last(), tool);
        assert(bare_values(sorted).drop_last() =~= bare_values(sorted.drop_last()));
    }
    assert(bare_values(sorted).push(bare(tool)) =~= bare_values(sorted.push(tool)));
    if sorted.len() > 0 {
        let placed = place_tool(sorted.drop_last(), tool);
        assert(bare_values(placed).push(bare(sorted.last())) =~= bare_values(
            placed.push(sorted.last()),
        ));
    }
}

proof fn lemma_sort_bare(tools: Seq<JsonView>)
    ensures
        sorted_tools(bare_values(tools)) == bare_values(sorted_tools(tools)),
    decreases tools.len(),
{
    if tools.len() > 0 {
        lemma_sort_bare(tools.drop_last());
        assert(bare_values(tools).drop_last() =~= bare_values(tools.drop_last()));
        lemma_place_bare(sorted_tools(tools.drop_last()), tools.last());
    } else {
        assert(bare_values(tools) =~= tools);
        assert(bare_values(sorted_tools(tools)) =~= sorted_tools(tools));
    }
}

proof fn lemma_bare_content(message: JsonView)
    ensures
        all_alike(content_segments(bare_message(message)), content_segments(message)),
{
    let left = content_segments(bare_message(message));
    let right = content_segments(message);
    if let Some(blocks) = message.array_field("content"@) {
        assert forall|i: int| 0 <= i < left.len() implies alike(#[trigger] left[i], right[i]) by {
            lemma_bare(blocks[i]);
        }
    }
}

proof fn lemma_bare_messages(messages: Seq<JsonView>)
    ensures
        all_alike(messages_segments(bare_messages(messages)), messages_segments(messages)),
    decreases messages.len(),
{
    if messages.len() > 0 {
        let changed = bare_messages(messages);
        assert(changed.drop_last() =~= bare_messages(messages.drop_last()));
        lemma_bare_messages(messages.drop_last());
        lemma_bare_content(messages.last());
        lemma_alike_append(
            messages_segments(changed.drop_last()),
            content_segments(changed.last()),
            messages_segments(messages.drop_last()),
            content_segments(messages.last()),
        );
    }
}

proof fn lemma_alike_append(
    left: Seq<Segment>,
    more_left: Seq<Segment>,
    right: Seq<Segment>,
    more_right: Seq<Segment>,
)
    requires
        all_alike(left, right),
        all_alike(more_left, more_right),
    ensures
        all_alike(left + more_left, right + more_right),
{
    assert forall|i: int| 0 <= i < (left + more_left).len() implies alike(
        #[trigger] (left + more_left)[i],
        (right + more_right)[i],
    ) by {
        if i < left.len() {
            assert(alike(left[i], right[i]));
        } else {
            assert(alike(more_left[i - left.len()], more_right[i - left.len()]));
        }
    }
}

/// The members that segments are made of are those of the request, but for cache controls.
proof fn lemma_fields(request: JsonView)
    ensures
        ({
            let changed = without_controls(request);
            &&& changed.array_field("tools"@) == (match request.array_field("tools"@) {
                Some(tools) => Some(bare_values(tools)),
                None => None,
            })
            &&& changed.field("system"@) == (match request.field("system"@) {
                Some(JsonView::Array(parts)) => Some(JsonView::Array(bare_values(parts))),
                other => other,
            })
            &&& changed.array_field("messages"@) == (match request.array_field("messages"@) {
                Some(messages) => Some(bare_messages(messages)),
                None => None,
            })
        }),
{
    reveal_strlit("cache_control");
    reveal_strlit("tools");
    reveal_strlit("system");
    reveal_strlit("messages");
    assert("cache_control"@.len() == 13 && "tools"@.len() == 5);
    assert("system"@.len() == 6 && "messages"@.len() == 8);
}

proof fn lemma_bare_segments(request: JsonView)
    ensures
        all_alike(segments(without_controls(request)), segments(request)),
{
    let changed = without_controls(request);
    lemma_fields(request);
    assert(all_alike(tool_segments(changed), tool_segments(request))) by {
        if let Some(tools) = request.array_field("tools"@) {
            lemma_sort_bare(tools);
            let left = tool_segments(changed);
            let right = tool_segments(request);
            assert forall|i: int| 0 <= i < left.len() implies alike(
                #[trigger] left[i],
                right[i],
            ) by {
                lemma_bare(sorted_tools(tools)[i]);
            }
        }
    }
    assert(all_alike(system_segments(changed), system_segments(request))) by {
        if let Some(parts) = request.array_field("system"@) {
            let left = system_segments(changed);
            let right = system_segments(request);
            assert forall|i: int| 0 <= i < left.len() implies alike(
                #[trigger] left[i],
                right[i],
            ) by {
                lemma_bare(parts[i]);
            }
        }
    }
    assert(all_alike(message_segments(changed), message_segments(request))) by {
        if let Some(messages) = request.array_field("messages"@) {
            lemma_bare_messages(messages);
        }
    }
    lemma_alike_append(
        tool_segments(changed),
        system_segments(changed),
        tool_segments(request),
        system_segments(request),
    );
    lemma_alike_append(
        tool_segments(changed) + system_segments(changed),
        message_segments(changed),
        tool_segments(request) + system_segments(request),
        message_segments(request),
    );
}

/// Requests that differ in nothing but their cache controls have the same prefixes.
pub proof fn law_cache_controls_do_not_change_prefixes(one: JsonView, other: JsonView)
    requires
        without_controls(one) == without_controls(other),
    ensures
        request_path(one).prefixes == request_path(other).prefixes,
{
    lemma_bare_segments(one);
    lemma_bare_segments(other);
    let shared = segments(without_controls(one));
    law_like_segments_have_the_same_prefixes(shared, segments(one), shared.len() as int);
    law_like_segments_have_the_same_prefixes(shared, segments(other), shared.len() as int);
    assert(prefixes_of(segments(one)) =~= prefixes_of(shared));
    assert(prefixes_of(segments(other)) =~= prefixes_of(shared));
}

} // verus!
