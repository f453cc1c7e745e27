//! What the segments and the tokens of a request are made of.

use crate::json::JsonView;
use crate::request::{
    asks_for_web_search, at_least_one, block_material, block_segment, cache_minimum,
    content_segments, content_tokens, holds_any, mark_of, message_segments, message_tokens,
    messages_segments, name_of, normal_tool, request_tokens, segments, sorted_tools, sum,
    system_segment, system_segments, system_tokens, text_tokens, tool_parts, tool_segment,
    tool_segments, tool_token_count, tool_tokens, ttl_of, Segment,
};
use crate::serde_values::json_text;
use crate::text::{join, lower, occurs_in};
use crate::text_laws::{law_begins, law_occurs};
use crate::tokens::token_count;
use vstd::prelude::*;

verus! {

/// The text that a value has as its member `key`, or nothing.
pub open spec fn text_at(value: JsonView, key: Seq<char>) -> Seq<char> {
    match value {
        JsonView::Object(members) => if members.contains_key(key) {
            match members[key] {
                JsonView::Str(text) => text,
                _ => Seq::<char>::empty(),
            }
        } else {
            Seq::<char>::empty()
        },
        _ => Seq::<char>::empty(),
    }
}

/// The value has a member `key`.
pub open spec fn has_member(value: JsonView, key: Seq<char>) -> bool {
    value matches JsonView::Object(members) && members.contains_key(key)
}

/// The member `key` of a value that has it.
pub open spec fn member(value: JsonView, key: Seq<char>) -> JsonView {
    value->Object_0[key]
}

/// The value has this array as its member `key`.
pub open spec fn has_array(value: JsonView, key: Seq<char>, items: Seq<JsonView>) -> bool {
    has_member(value, key) && member(value, key) == JsonView::Array(items)
}

/// The seconds that a cache control asks for: an hour where its `ttl` is the text `1h`, else five
/// minutes.
pub proof fn law_time_to_live(control: JsonView)
    ensures
        text_at(control, "ttl"@) == "1h"@ ==> ttl_of(control) == 60 * 60,
        text_at(control, "ttl"@) != "1h"@ ==> ttl_of(control) == 5 * 60,
{
    reveal_strlit("1h");
    assert("1h"@.len() == 2);
}

/// A value asks for an entry if and only if it has a cache control, and for as long as that says.
pub proof fn law_marks(value: JsonView)
    ensures
        mark_of(value) is Some <==> has_member(value, "cache_control"@),
        has_member(value, "cache_control"@) ==> mark_of(value) == Some(
            ttl_of(member(value, "cache_control"@)),
        ),
{
}

/// A block's material is the block but for its cache control: of any other name it has the member
/// that the block has, and no other. A block that is no object is its own material.
pub proof fn law_material_keeps_all_but_cache_control(block: JsonView, key: Seq<char>)
    ensures
        block is Object <==> block_material(block) is Object,
        !(block is Object) ==> block_material(block) == block,
        block is Object && key != "cache_control"@ ==> {
            &&& has_member(block_material(block), key) == has_member(block, key)
            &&& has_member(block, key) ==> member(block_material(block), key) == member(block, key)
        },
        !has_member(block_material(block), "cache_control"@),
{
}

/// Two blocks of one material differ in nothing but their cache controls.
pub proof fn law_material_tells_blocks_apart(left: JsonView, right: JsonView, key: Seq<char>)
    requires
        block_material(left) == block_material(right),
        key != "cache_control"@,
    ensures
        left is Object <==> right is Object,
        !(left is Object) ==> left == right,
        has_member(left, key) == has_member(right, key),
        has_member(left, key) ==> member(left, key) == member(right, key),
{
    law_material_keeps_all_but_cache_control(left, key);
    law_material_keeps_all_but_cache_control(right, key);
}

/// The segment of a block: the text of its material, the tokens of its own text, and the entry
/// that it asks for.
pub proof fn law_block_segment(block: JsonView, text: Seq<char>)
    ensures
        json_text(block_material(block)) == Some(text) ==> block_segment(block).material == text,
        json_text(block_material(block)) is None ==> block_segment(block).material.len() == 0,
        block_segment(block).tokens == token_count(text_at(block, "text"@)),
        block_segment(block).ttl == mark_of(block),
{
}

/// The segment of a system message: its text, the tokens of that, and the entry that it asks for.
pub proof fn law_system_segment(message: JsonView)
    ensures
        system_segment(message).material == text_at(message, "text"@),
        system_segment(message).tokens == token_count(text_at(message, "text"@)),
        system_segment(message).ttl == mark_of(message),
{
}

/// The tool has a schema to be hashed: an object with members.
pub open spec fn has_schema(tool: JsonView) -> bool {
    &&& has_member(tool, "input_schema"@)
    &&& member(tool, "input_schema"@) is Object
    &&& member(tool, "input_schema"@)->Object_0 != Map::<Seq<char>, JsonView>::empty()
}

/// A tool's normal form is its name, then its description, if it has one, and then the text of its
/// schema, if it has one.
pub proof fn law_normal_tool(tool: JsonView, schema: Seq<char>)
    requires
        has_schema(tool) ==> json_text(member(tool, "input_schema"@)) == Some(schema),
    ensures
        ({
            let name = "name:"@ + text_at(tool, "name"@);
            let description = if text_at(tool, "description"@).len() > 0 {
                "|"@ + ("desc:"@ + text_at(tool, "description"@))
            } else {
                Seq::<char>::empty()
            };
            let rest = if has_schema(tool) {
                "|"@ + ("schema:"@ + schema)
            } else {
                Seq::<char>::empty()
            };
            normal_tool(tool) == name + description + rest
        }),
{
    reveal_with_fuel(join, 4);
    let parts = tool_parts(tool);
    let name = "name:"@ + text_at(tool, "name"@);
    let bar = "|"@;
    assert(name_of(tool) == text_at(tool, "name"@));
    let described = text_at(tool, "description"@).len() > 0;
    let second = "desc:"@ + text_at(tool, "description"@);
    let third = "schema:"@ + schema;
    if described && has_schema(tool) {
        assert(parts =~= seq![name, second, third]);
        assert(parts.drop_last() =~= seq![name, second]);
        assert(parts.drop_last().drop_last() =~= seq![name]);
        assert(normal_tool(tool) =~= name + (bar + second) + (bar + third));
    } else if described {
        assert(parts =~= seq![name, second]);
        assert(parts.drop_last() =~= seq![name]);
        assert(normal_tool(tool) =~= name + (bar + second) + Seq::<char>::empty());
    } else if has_schema(tool) {
        assert(parts =~= seq![name, third]);
        assert(parts.drop_last() =~= seq![name]);
        assert(normal_tool(tool) =~= name + Seq::<char>::empty() + (bar + third));
    } else {
        assert(parts =~= seq![name]);
        assert(normal_tool(tool) =~= name + Seq::<char>::empty() + Seq::<char>::empty());
    }
}

/// The segment of a tool: its normal form, the tokens of that, and the entry that it asks for.
pub proof fn law_tool_segment(tool: JsonView)
    ensures
        tool_segment(tool).material == normal_tool(tool),
        tool_segment(tool).tokens == token_count(normal_tool(tool)),
        tool_segment(tool).ttl == mark_of(tool),
        name_of(tool) == text_at(tool, "name"@),
{
}

/// A request has a segment for each tool, in the order of their names.
pub proof fn law_each_tool_is_a_segment(request: JsonView, tools: Seq<JsonView>, at: int)
    requires
        has_array(request, "tools"@, tools),
        0 <= at < tools.len(),
    ensures
        tool_segments(request).len() == tools.len(),
        tool_segments(request)[at] == tool_segment(sorted_tools(tools)[at]),
{
    crate::request_laws::law_tools_are_sorted(tools);
}

/// A request has a segment for each system message, in their order, and one for a plain prompt.
pub proof fn law_each_system_message_is_a_segment(
    request: JsonView,
    messages: Seq<JsonView>,
    text: Seq<char>,
    at: int,
)
    ensures
        has_array(request, "system"@, messages) ==> system_segments(request).len()
            == messages.len(),
        has_array(request, "system"@, messages) && 0 <= at < messages.len() ==> system_segments(
            request,
        )[at] == system_segment(messages[at]),
        has_member(request, "system"@) && member(request, "system"@) == JsonView::Str(text) ==> {
            &&& system_segments(request).len() == 1
            &&& system_segments(request)[0].material == text
            &&& system_segments(request)[0].tokens == token_count(text)
            &&& system_segments(request)[0].ttl is None
        },
        !has_member(request, "system"@) || !(member(request, "system"@) is Str || member(
            request,
            "system"@,
        ) is Array) ==> system_segments(request).len() == 0,
{
}

/// A message has a segment for each of its blocks, in their order, and one for a plain text.
pub proof fn law_each_block_is_a_segment(
    message: JsonView,
    blocks: Seq<JsonView>,
    text: Seq<char>,
    at: int,
)
    ensures
        has_array(message, "content"@, blocks) ==> content_segments(message).len() == blocks.len(),
        has_array(message, "content"@, blocks) && 0 <= at < blocks.len() ==> content_segments(
            message,
        )[at] == block_segment(blocks[at]),
        has_member(message, "content"@) && member(message, "content"@) == JsonView::Str(text) ==> {
            &&& content_segments(message).len() == 1
            &&& content_segments(message)[0].material == text
            &&& content_segments(message)[0].tokens == token_count(text)
            &&& content_segments(message)[0].ttl is None
        },
        !has_member(message, "content"@) || !(member(message, "content"@) is Str || member(
            message,
            "content"@,
        ) is Array) ==> content_segments(message).len() == 0,
{
}

/// The segments of messages are those of one after the other.
pub proof fn law_messages_follow_one_another(first: Seq<JsonView>, second: Seq<JsonView>)
    ensures
        messages_segments(first + second) == messages_segments(first) + messages_segments(second),
        first.len() == 1 ==> messages_segments(first) == content_segments(first[0]),
        messages_segments(Seq::<JsonView>::empty()) == Seq::<Segment>::empty(),
    decreases second.len(),
{
    reveal_with_fuel(messages_segments, 2);
    if second.len() == 0 {
        assert(first + second =~= first);
        assert(messages_segments(first) + messages_segments(second) =~= messages_segments(first));
    } else {
        law_messages_follow_one_another(first, second.drop_last());
        assert((first + second).drop_last() =~= first + second.drop_last());
        assert(messages_segments(first + second) =~= messages_segments(first) + messages_segments(
            second,
        ));
    }
    if first.len() == 1 {
        assert(first.drop_last() =~= Seq::<JsonView>::empty());
        assert(messages_segments(first) =~= content_segments(first[0]));
    }
}

/// The segments of a request are those of its tools, of its system prompt and of its messages, and
/// what it does not list has none.
pub proof fn law_segments(request: JsonView, messages: Seq<JsonView>)
    ensures
        segments(request) == tool_segments(request) + system_segments(request)
            + message_segments(request),
        has_array(request, "messages"@, messages) ==> message_segments(request)
            == messages_segments(messages),
        !has_member(request, "messages"@) || !(member(request, "messages"@) is Array)
            ==> message_segments(request).len() == 0,
        !has_member(request, "tools"@) || !(member(request, "tools"@) is Array) ==> tool_segments(
            request,
        ).len() == 0,
{
}

proof fn lemma_sum_push(counts: Seq<nat>, count: nat)
    ensures
        sum(counts.push(count)) == sum(counts) + count,
{
    assert(counts.push(count).drop_last() =~= counts);
}

/// A list of counts sums up to its parts' sums.
pub proof fn law_sum(first: Seq<nat>, second: Seq<nat>, count: nat)
    ensures
        sum(first + second) == sum(first) + sum(second),
        sum(seq![count]) == count,
        sum(Seq::<nat>::empty()) == 0,
    decreases second.len(),
{
    reveal_with_fuel(sum, 2);
    if second.len() == 0 {
        assert(first + second =~= first);
    } else {
        law_sum(first, second.drop_last(), count);
        assert((first + second).drop_last() =~= first + second.drop_last());
    }
    assert(seq![count].drop_last() =~= Seq::<nat>::empty());
}

/// A message object with this content.
pub open spec fn with_content(members: Map<Seq<char>, JsonView>, content: JsonView) -> JsonView {
    JsonView::Object(members.insert("content"@, content))
}

/// A message of plain text has the tokens of that text, and one without blocks none; another
/// block adds the tokens of its own text, or none where it has no text.
pub proof fn law_another_block_adds_its_tokens(
    members: Map<Seq<char>, JsonView>,
    blocks: Seq<JsonView>,
    block: JsonView,
    text: Seq<char>,
)
    ensures
        content_tokens(with_content(members, JsonView::Array(blocks.push(block))))
            == content_tokens(with_content(members, JsonView::Array(blocks))) + token_count(
            text_at(block, "text"@),
        ),
        content_tokens(with_content(members, JsonView::Array(Seq::<JsonView>::empty()))) == 0,
        content_tokens(with_content(members, JsonView::Str(text))) == token_count(text),
{
    let count = |value: JsonView| text_tokens(value);
    assert(blocks.push(block).map_values(count) =~= blocks.map_values(count).push(count(block)));
    lemma_sum_push(blocks.map_values(count), count(block));
    assert(Seq::<JsonView>::empty().map_values(count) =~= Seq::<nat>::empty());
}

/// A message whose content is neither a text nor blocks has no tokens.
pub proof fn law_other_messages_have_no_tokens(message: JsonView)
    requires
        !has_member(message, "content"@) || !(member(message, "content"@) is Str || member(
            message,
            "content"@,
        ) is Array),
    ensures
        content_tokens(message) == 0,
{
}

/// A request object with this member.
pub open spec fn with_member(
    members: Map<Seq<char>, JsonView>,
    key: Seq<char>,
    value: JsonView,
) -> JsonView {
    JsonView::Object(members.insert(key, value))
}

proof fn lemma_parts_differ()
    ensures
        "system"@ != "messages"@,
        "system"@ != "tools"@,
        "messages"@ != "tools"@,
{
    reveal_strlit("system");
    reveal_strlit("messages");
    reveal_strlit("tools");
    assert("system"@.len() == 6 && "messages"@.len() == 8 && "tools"@.len() == 5);
}

/// Another message adds its own tokens to those of a request.
pub proof fn law_another_message_adds_its_tokens(
    members: Map<Seq<char>, JsonView>,
    messages: Seq<JsonView>,
    message: JsonView,
)
    ensures
        request_tokens(with_member(members, "messages"@, JsonView::Array(messages.push(message))))
            == request_tokens(with_member(members, "messages"@, JsonView::Array(messages)))
            + content_tokens(message),
{
    lemma_parts_differ();
    let count = |value: JsonView| content_tokens(value);
    assert(messages.push(message).map_values(count) =~= messages.map_values(count).push(
        count(message),
    ));
    lemma_sum_push(messages.map_values(count), count(message));
}

/// Another block in any message raises the tokens of a request by those of the block's text.
pub proof fn law_another_block_raises_the_request(
    members: Map<Seq<char>, JsonView>,
    before: Seq<JsonView>,
    message: Map<Seq<char>, JsonView>,
    blocks: Seq<JsonView>,
    block: JsonView,
    after: Seq<JsonView>,
)
    ensures
        ({
            let shorter = with_content(message, JsonView::Array(blocks));
            let longer = with_content(message, JsonView::Array(blocks.push(block)));
            request_tokens(
                with_member(
                    members,
                    "messages"@,
                    JsonView::Array(before + seq![longer] + after),
                ),
            ) == request_tokens(
                with_member(
                    members,
                    "messages"@,
                    JsonView::Array(before + seq![shorter] + after),
                ),
            ) + token_count(text_at(block, "text"@))
        }),
{
    lemma_parts_differ();
    let shorter = with_content(message, JsonView::Array(blocks));
    let longer = with_content(message, JsonView::Array(blocks.push(block)));
    law_another_block_adds_its_tokens(message, blocks, block, Seq::<char>::empty());
    let count = |value: JsonView| content_tokens(value);
    let first = before.map_values(count);
    let last = after.map_values(count);
    assert((before + seq![shorter] + after).map_values(count) =~= first + seq![count(shorter)]
        + last);
    assert((before + seq![longer] + after).map_values(count) =~= first + seq![count(longer)]
        + last);
    law_sum(first + seq![count(shorter)], last, count(shorter));
    law_sum(first, seq![count(shorter)], count(shorter));
    law_sum(first + seq![count(longer)], last, count(longer));
    law_sum(first, seq![count(longer)], count(longer));
}

/// Another system message adds the tokens of its text to those of a request, and a plain system
/// prompt counts as much as one message of that text.
pub proof fn law_another_system_message_adds_its_tokens(
    members: Map<Seq<char>, JsonView>,
    parts: Seq<JsonView>,
    part: JsonView,
    text: Seq<char>,
)
    ensures
        request_tokens(with_member(members, "system"@, JsonView::Array(parts.push(part))))
            == request_tokens(with_member(members, "system"@, JsonView::Array(parts)))
            + token_count(text_at(part, "text"@)),
        request_tokens(with_member(members, "system"@, JsonView::Str(text))) == request_tokens(
            with_member(members, "system"@, JsonView::Array(Seq::<JsonView>::empty())),
        ) + token_count(text),
{
    lemma_parts_differ();
    let count = |value: JsonView| text_tokens(value);
    assert(parts.push(part).map_values(count) =~= parts.map_values(count).push(count(part)));
    lemma_sum_push(parts.map_values(count), count(part));
    assert(Seq::<JsonView>::empty().map_values(count) =~= Seq::<nat>::empty());
}

/// Another tool adds to the tokens of a request those of its name, of its description and of the
/// text of its schema, whatever that is.
pub proof fn law_another_tool_adds_its_tokens(
    members: Map<Seq<char>, JsonView>,
    tools: Seq<JsonView>,
    tool: JsonView,
    schema: Seq<char>,
)
    requires
        has_member(tool, "input_schema"@) ==> json_text(member(tool, "input_schema"@)) == Some(
            schema,
        ),
    ensures
        request_tokens(with_member(members, "tools"@, JsonView::Array(tools.push(tool))))
            == request_tokens(with_member(members, "tools"@, JsonView::Array(tools)))
            + token_count(text_at(tool, "name"@)) + token_count(text_at(tool, "description"@))
            + if has_member(tool, "input_schema"@) {
            token_count(schema)
        } else {
            0
        },
{
    lemma_parts_differ();
    let count = |value: JsonView| tool_token_count(value);
    assert(tools.push(tool).map_values(count) =~= tools.map_values(count).push(count(tool)));
    lemma_sum_push(tools.map_values(count), count(tool));
}

/// The value lists nothing as its member `key`: there is none, it is neither text nor array, or an
/// array without items.
pub open spec fn lists_nothing(value: JsonView, key: Seq<char>) -> bool {
    ||| !has_member(value, key)
    ||| !(member(value, key) is Str) && !(member(value, key) is Array)
    ||| member(value, key) == JsonView::Array(Seq::<JsonView>::empty())
}

/// A request that lists nothing has no tokens.
pub proof fn law_empty_lists_have_no_tokens(request: JsonView)
    requires
        lists_nothing(request, "system"@),
        lists_nothing(request, "messages"@),
        lists_nothing(request, "tools"@),
    ensures
        request_tokens(request) == 0,
{
    let nothing = Seq::<JsonView>::empty();
    assert(system_tokens(request) == 0) by {
        assert(nothing.map_values(|value: JsonView| text_tokens(value)) =~= Seq::<nat>::empty());
    }
    assert(message_tokens(request) == 0) by {
        let count = |message: JsonView| content_tokens(message);
        assert(nothing.map_values(count) =~= Seq::<nat>::empty());
    }
    assert(tool_tokens(request) == 0) by {
        let count = |tool: JsonView| tool_token_count(tool);
        assert(nothing.map_values(count) =~= Seq::<nat>::empty());
    }
}

/// A count of none is reported as one, any other as it is.
pub proof fn law_at_least_one(count: nat)
    ensures
        count == 0 ==> at_least_one(count) == 1,
        count > 0 ==> at_least_one(count) == count,
{
}

/// A request asks for a web search if and only if it has just one tool, whose name is
/// `web_search` or whose type begins with that.
pub proof fn law_web_search(request: JsonView)
    ensures
        asks_for_web_search(request) <==> {
            &&& has_member(request, "tools"@)
            &&& member(request, "tools"@) is Array
            &&& member(request, "tools"@)->Array_0.len() == 1
            &&& {
                let tool = member(request, "tools"@)->Array_0[0];
                ||| text_at(tool, "name"@) == "web_search"@
                ||| exists|rest: Seq<char>|
                    text_at(tool, "type"@) == #[trigger] ("web_search"@ + rest)
            }
        },
{
    if has_member(request, "tools"@) && member(request, "tools"@) is Array {
        let tools = member(request, "tools"@)->Array_0;
        if tools.len() == 1 {
            law_begins(text_at(tools[0], "type"@), "web_search"@);
        }
    }
}

/// One of several texts stands in another if and only if that one can be cut into what is before
/// it, itself, and what is behind it.
pub proof fn law_holds_any(value: Seq<char>, needles: Seq<&str>)
    ensures
        holds_any(value, needles) <==> exists|i: int, before: Seq<char>, after: Seq<char>|
            0 <= i < needles.len() && value == #[trigger] (before + needles[i]@ + after),
{
    if holds_any(value, needles) {
        let i = choose|i: int| 0 <= i < needles.len() && occurs_in(value, #[trigger] needles[i]@);
        law_occurs(value, needles[i]@);
        let (before, after) = choose|before: Seq<char>, after: Seq<char>|
            value == #[trigger] (before + needles[i]@ + after);
        assert(value == before + needles[i]@ + after);
    }
    if exists|i: int, before: Seq<char>, after: Seq<char>|
        0 <= i < needles.len() && value == #[trigger] (before + needles[i]@ + after) {
        let (i, before, after) = choose|i: int, before: Seq<char>, after: Seq<char>|
            0 <= i < needles.len() && value == #[trigger] (before + needles[i]@ + after);
        law_occurs(value, needles[i]@);
    }
}

/// The model is named by a text that holds this one, in letters of any case.
pub open spec fn is_model(request: JsonView, name: Seq<char>) -> bool {
    exists|before: Seq<char>, after: Seq<char>|
        lower(text_at(request, "model"@)) == #[trigger] (before + name + after)
}

/// The model is one of the large ones.
pub open spec fn is_large(request: JsonView) -> bool {
    ||| is_model(request, "opus-4-5"@)
    ||| is_model(request, "opus-4.5"@)
    ||| is_model(request, "opus-4-6"@)
    ||| is_model(request, "opus-4.6"@)
    ||| is_model(request, "opus-4-7"@)
    ||| is_model(request, "opus-4.7"@)
    ||| is_model(request, "haiku-4-5"@)
    ||| is_model(request, "haiku-4.5"@)
}

/// The model is one of the medium ones.
pub open spec fn is_medium(request: JsonView) -> bool {
    ||| is_model(request, "sonnet-4-6"@)
    ||| is_model(request, "sonnet-4.6"@)
}

/// The large models cache from 4096 tokens on, the medium ones from 2048, all others from 1024.
pub proof fn law_cache_minimum(request: JsonView)
    ensures
        is_large(request) ==> cache_minimum(request) == 4096,
        !is_large(request) && is_medium(request) ==> cache_minimum(request) == 2048,
        !is_large(request) && !is_medium(request) ==> cache_minimum(request) == 1024,
{
    let model = lower(text_at(request, "model"@));
    law_occurs(model, "opus-4-5"@);
    law_occurs(model, "opus-4.5"@);
    law_occurs(model, "opus-4-6"@);
    law_occurs(model, "opus-4.6"@);
    law_occurs(model, "opus-4-7"@);
    law_occurs(model, "opus-4.7"@);
    law_occurs(model, "haiku-4-5"@);
    law_occurs(model, "haiku-4.5"@);
    law_occurs(model, "sonnet-4-6"@);
    law_occurs(model, "sonnet-4.6"@);
}

} // verus!
