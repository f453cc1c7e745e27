//! What the simulator reads of a request: the texts that it counts, and the segments that
//! its cache prefixes are made of.

use crate::json::{is_sorted, lemma_array_view, sort_json_value, values_view, Json, JsonView};
use crate::serde_values::json_text;
use crate::text::{
    contains, in_order, join, join_with, lex_le, lower, occurs_at, occurs_in, same_text,
    starts_with, texts, to_lower,
};
use crate::tokens::{count_tokens, token_count};
use vstd::prelude::*;
use vstd::string::*;

verus! {

/// How long an entry stays in the cache, in seconds.
pub const DEFAULT_TTL_SECS: u64 = 300;

/// How long an entry stays that asks for an hour, in seconds.
pub const EXTENDED_TTL_SECS: u64 = 3600;

/// The text, or nothing.
pub open spec fn text_or_empty(text: Option<Seq<char>>) -> Seq<char> {
    match text {
        Some(content) => content,
        None => Seq::<char>::empty(),
    }
}

/// The name of a tool, or nothing.
pub open spec fn name_of(tool: JsonView) -> Seq<char> {
    text_or_empty(tool.text_field("name"@))
}

/// The name of a tool, or nothing.
pub fn tool_name(tool: &Json) -> (name: &str)
    ensures
        name@ == name_of(tool@),
{
    match tool.text_field("name") {
        Some(name) => name,
        None => {
            proof {
                reveal_strlit("");
                assert(""@ =~= Seq::<char>::empty());
            }
            ""
        },
    }
}

/// The request asks for nothing but a web search: it has one tool, and that one searches.
pub open spec fn asks_for_web_search(request: JsonView) -> bool {
    match request.array_field("tools"@) {
        Some(tools) => tools.len() == 1 && (name_of(tools[0]) == "web_search"@ || occurs_at(
            text_or_empty(tools[0].text_field("type"@)),
            "web_search"@,
            0,
        )),
        None => false,
    }
}

/// Whether the request asks for nothing but a web search.
pub fn is_web_search_request(request: &Json) -> (result: bool)
    ensures
        result == asks_for_web_search(request@),
{
    match request.array_field("tools") {
        Some(tools) => {
            if tools.len() != 1 {
                return false;
            }
            let tool = &tools[0];
            assert(values_view(tools@)[0] == tool@);
            if same_text(tool_name(tool), "web_search") {
                return true;
            }
            match tool.text_field("type") {
                Some(kind) => starts_with(kind, "web_search"),
                None => {
                    proof {
                        reveal_strlit("web_search");
                    }
                    false
                },
            }
        },
        None => false,
    }
}

/// Some of the texts stands in `value`.
pub open spec fn holds_any(value: Seq<char>, needles: Seq<&str>) -> bool {
    exists|i: int| 0 <= i < needles.len() && occurs_in(value, #[trigger] needles[i]@)
}

/// Whether some of the texts stands in `value`.
pub fn contains_any(value: &str, needles: &[&str]) -> (result: bool)
    ensures
        result == holds_any(value@, needles@),
{
    let mut at: usize = 0;
    while at < needles.len()
        invariant
            at <= needles@.len(),
            forall|i: int| 0 <= i < at ==> !occurs_in(value@, #[trigger] needles@[i]@),
        decreases needles.len() - at,
    {
        if contains(value, needles[at]) {
            return true;
        }
        at = at + 1;
    }
    false
}

/// The model has to see at least 4096 tokens before it caches.
pub open spec fn is_large_model(model: Seq<char>) -> bool {
    ||| occurs_in(model, "opus-4-6"@)
    ||| occurs_in(model, "opus-4.6"@)
    ||| occurs_in(model, "opus-4-5"@)
    ||| occurs_in(model, "opus-4.5"@)
    ||| occurs_in(model, "opus-4-7"@)
    ||| occurs_in(model, "opus-4.7"@)
    ||| occurs_in(model, "haiku-4-5"@)
    ||| occurs_in(model, "haiku-4.5"@)
}

/// The model has to see at least 2048 tokens before it caches.
pub open spec fn is_medium_model(model: Seq<char>) -> bool {
    ||| occurs_in(model, "sonnet-4-6"@)
    ||| occurs_in(model, "sonnet-4.6"@)
}

/// The fewest tokens that a request's model caches.
pub open spec fn cache_minimum(request: JsonView) -> int {
    let model = lower(text_or_empty(request.text_field("model"@)));
    if is_large_model(model) {
        4096
    } else if is_medium_model(model) {
        2048
    } else {
        1024
    }
}

/// The fewest tokens that a request's model caches.
pub fn minimum_cache_tokens(request: &Json) -> (minimum: i32)
    ensures
        minimum == cache_minimum(request@),
{
    let model = match request.text_field("model") {
        Some(model) => to_lower(model),
        None => {
            let nothing = String::new();
            assert(nothing@ =~= lower(Seq::<char>::empty()));
            nothing
        },
    };
    let large = [
        "opus-4-6",
        "opus-4.6",
        "opus-4-5",
        "opus-4.5",
        "opus-4-7",
        "opus-4.7",
        "haiku-4-5",
        "haiku-4.5",
    ];
    let medium = ["sonnet-4-6", "sonnet-4.6"];
    proof {
        assert(large@[0]@ == "opus-4-6"@ && large@[1]@ == "opus-4.6"@);
        assert(large@[2]@ == "opus-4-5"@ && large@[3]@ == "opus-4.5"@);
        assert(large@[4]@ == "opus-4-7"@ && large@[5]@ == "opus-4.7"@);
        assert(large@[6]@ == "haiku-4-5"@ && large@[7]@ == "haiku-4.5"@);
        assert(medium@[0]@ == "sonnet-4-6"@ && medium@[1]@ == "sonnet-4.6"@);
    }
    if contains_any(model.as_str(), &large) {
        4096
    } else if contains_any(model.as_str(), &medium) {
        2048
    } else {
        1024
    }
}

/// How long an entry stays that was asked for in this way.
pub open spec fn ttl_of(cache_control: JsonView) -> u64 {
    if cache_control.text_field("ttl"@) == Some("1h"@) {
        EXTENDED_TTL_SECS
    } else {
        DEFAULT_TTL_SECS
    }
}

/// How long an entry stays that was asked for in this way.
pub fn parse_ttl(cache_control: &Json) -> (ttl: u64)
    ensures
        ttl == ttl_of(cache_control@),
{
    match cache_control.text_field("ttl") {
        Some(text) => if same_text(text, "1h") {
            EXTENDED_TTL_SECS
        } else {
            DEFAULT_TTL_SECS
        },
        None => DEFAULT_TTL_SECS,
    }
}

/// How long the entry stays that a value asks for, where it asks for one.
pub open spec fn mark_of(value: JsonView) -> Option<u64> {
    match value.field("cache_control"@) {
        Some(cache_control) => Some(ttl_of(cache_control)),
        None => None,
    }
}

/// How long the entry stays that a value asks for, where it asks for one.
pub(crate) fn read_mark(value: &Json) -> (mark: Option<u64>)
    ensures
        mark == mark_of(value@),
{
    match value.get("cache_control") {
        Some(cache_control) => Some(parse_ttl(cache_control)),
        None => None,
    }
}

/// The text of a tool's input schema, where the schema is an object with members.
pub open spec fn schema_text(tool: JsonView) -> Option<Seq<char>> {
    match tool.field("input_schema"@) {
        Some(JsonView::Object(members)) => if members == Map::<Seq<char>, JsonView>::empty() {
            None
        } else {
            json_text(JsonView::Object(members))
        },
        _ => None,
    }
}

/// The parts of a tool's normal form: its name, its description and its schema, the last two
/// only where they say something.
pub open spec fn tool_parts(tool: JsonView) -> Seq<Seq<char>> {
    let name = seq!["name:"@ + name_of(tool)];
    let description = match tool.text_field("description"@) {
        Some(text) => if text.len() > 0 {
            seq!["desc:"@ + text]
        } else {
            Seq::<Seq<char>>::empty()
        },
        None => Seq::<Seq<char>>::empty(),
    };
    let schema = match schema_text(tool) {
        Some(text) => seq!["schema:"@ + text],
        None => Seq::<Seq<char>>::empty(),
    };
    name + description + schema
}

/// A tool in its normal form.
pub open spec fn normal_tool(tool: JsonView) -> Seq<char> {
    join(tool_parts(tool), "|"@)
}

fn labelled(label: &str, text: &str) -> (result: String)
    ensures
        result@ == label@ + text@,
{
    let mut result = label.to_owned();
    result.append(text);
    result
}

/// A tool in its normal form.
pub fn normalize_tool(tool: &Json) -> (result: String)
    ensures
        result@ == normal_tool(tool@),
{
    let mut parts: Vec<String> = Vec::new();
    parts.push(labelled("name:", tool_name(tool)));
    let ghost name = seq!["name:"@ + name_of(tool@)];
    assert(texts(parts@) =~= name);
    if let Some(description) = tool.text_field("description") {
        if !description.is_empty() {
            parts.push(labelled("desc:", description));
            assert(texts(parts@) =~= name + seq!["desc:"@ + description@]);
        }
    }
    let ghost before = texts(parts@);
    assert(before + Seq::<Seq<char>>::empty() =~= before);
    assert(name + Seq::<Seq<char>>::empty() =~= name);
    if let Some(schema) = tool.get("input_schema") {
        if let Json::Object(members) = schema {
            if !members.is_empty() {
                if let Some(text) = sort_json_value(schema).to_text() {
                    parts.push(labelled("schema:", text.as_str()));
                    assert(texts(parts@) =~= before + seq!["schema:"@ + text@]);
                }
            }
        }
    }
    join_with(&parts, "|")
}

/// What the hash of a message block is made of: the block without its cache control.
pub open spec fn block_material(block: JsonView) -> JsonView {
    match block {
        JsonView::Object(members) => JsonView::Object(members.remove("cache_control"@)),
        _ => block,
    }
}

/// What the hash of a message block is made of: the block without its cache control, with
/// the members of its objects in the order of their names.
pub fn block_cache_hash_material(block: &Json) -> (material: Json)
    ensures
        material@ == block_material(block@),
        block@ is Object ==> is_sorted(material),
{
    match block {
        Json::Object(members) => {
            let mut hashable = members.duplicate();
            hashable.remove("cache_control");
            sort_json_value(&Json::Object(hashable))
        },
        _ => block.duplicate(),
    }
}

/// A piece of a request that ends a cache prefix.
pub struct Segment {
    /// What it adds to the hashed text.
    pub material: Seq<char>,
    /// The tokens that it adds.
    pub tokens: nat,
    /// How long the entry stays that it asks for, where it asks for one.
    pub ttl: Option<u64>,
}

/// A segment of plain text.
pub open spec fn text_segment(text: Seq<char>) -> Segment {
    Segment { material: text, tokens: token_count(text), ttl: None }
}

/// The segment of a tool.
pub open spec fn tool_segment(tool: JsonView) -> Segment {
    Segment {
        material: normal_tool(tool),
        tokens: token_count(normal_tool(tool)),
        ttl: mark_of(tool),
    }
}

/// The segment of a system message.
pub open spec fn system_segment(message: JsonView) -> Segment {
    let text = text_or_empty(message.text_field("text"@));
    Segment { material: text, tokens: token_count(text), ttl: mark_of(message) }
}

/// The tokens of a value's text.
pub open spec fn text_tokens(value: JsonView) -> nat {
    token_count(text_or_empty(value.text_field("text"@)))
}

/// The segment of a message block.
pub open spec fn block_segment(block: JsonView) -> Segment {
    Segment {
        material: text_or_empty(json_text(block_material(block))),
        tokens: text_tokens(block),
        ttl: mark_of(block),
    }
}

/// Puts a tool behind those whose names do not come after its own.
pub open spec fn place_tool(sorted: Seq<JsonView>, tool: JsonView) -> Seq<JsonView>
    decreases sorted.len(),
{
    if sorted.len() == 0 || lex_le(name_of(sorted.last()), name_of(tool)) {
        sorted.push(tool)
    } else {
        place_tool(sorted.drop_last(), tool).push(sorted.last())
    }
}

/// The tools in the order of their names, those with one name in the order they came.
pub open spec fn sorted_tools(tools: Seq<JsonView>) -> Seq<JsonView>
    decreases tools.len(),
{
    if tools.len() == 0 {
        Seq::<JsonView>::empty()
    } else {
        place_tool(sorted_tools(tools.drop_last()), tools.last())
    }
}

/// The segments of the tools.
pub open spec fn tool_segments(request: JsonView) -> Seq<Segment> {
    match request.array_field("tools"@) {
        Some(tools) => sorted_tools(tools).map_values(|tool: JsonView| tool_segment(tool)),
        None => Seq::<Segment>::empty(),
    }
}

/// The segments of the system prompt.
pub open spec fn system_segments(request: JsonView) -> Seq<Segment> {
    match request.field("system"@) {
        Some(JsonView::Str(text)) => seq![text_segment(text)],
        Some(JsonView::Array(messages)) => messages.map_values(
            |message: JsonView| system_segment(message),
        ),
        _ => Seq::<Segment>::empty(),
    }
}

/// The segments of a message.
pub open spec fn content_segments(message: JsonView) -> Seq<Segment> {
    match message.field("content"@) {
        Some(JsonView::Str(text)) => seq![text_segment(text)],
        Some(JsonView::Array(blocks)) => blocks.map_values(|block: JsonView| block_segment(block)),
        _ => Seq::<Segment>::empty(),
    }
}

/// The segments of messages.
pub open spec fn messages_segments(messages: Seq<JsonView>) -> Seq<Segment>
    decreases messages.len(),
{
    if messages.len() == 0 {
        Seq::<Segment>::empty()
    } else {
        messages_segments(messages.drop_last()) + content_segments(messages.last())
    }
}

/// The segments of the messages of a request.
pub open spec fn message_segments(request: JsonView) -> Seq<Segment> {
    match request.array_field("messages"@) {
        Some(messages) => messages_segments(messages),
        None => Seq::<Segment>::empty(),
    }
}

/// The segments of a request: its tools, its system prompt, its messages.
pub open spec fn segments(request: JsonView) -> Seq<Segment> {
    tool_segments(request) + system_segments(request) + message_segments(request)
}

/// The views of a list of borrowed values.
pub open spec fn borrowed_view(values: Seq<&Json>) -> Seq<JsonView> {
    values.map_values(|value: &Json| value@)
}

proof fn lemma_place_tool(sorted: Seq<JsonView>, tool: JsonView, at: int)
    requires
        0 <= at <= sorted.len(),
        forall|i: int|
            at <= i < sorted.len() ==> !lex_le(name_of(#[trigger] sorted[i]), name_of(tool)),
        at > 0 ==> lex_le(name_of(sorted[at - 1]), name_of(tool)),
    ensures
        place_tool(sorted, tool) == sorted.insert(at, tool),
    decreases sorted.len(),
{
    if at < sorted.len() {
        let shorter = sorted.drop_last();
        assert(!lex_le(name_of(sorted[sorted.len() - 1]), name_of(tool)));
        assert forall|i: int| at <= i < shorter.len() implies !lex_le(
            name_of(#[trigger] shorter[i]),
            name_of(tool),
        ) by {
            assert(shorter[i] == sorted[i]);
        }
        lemma_place_tool(shorter, tool, at);
        assert(shorter.insert(at, tool).push(sorted.last()) =~= sorted.insert(at, tool));
    } else {
        assert(sorted.push(tool) =~= sorted.insert(at, tool));
    }
}

/// The tools in the order of their names, those with one name in the order they came.
pub(crate) fn sort_tools(tools: &Vec<Json>) -> (sorted: Vec<&Json>)
    ensures
        borrowed_view(sorted@) == sorted_tools(values_view(tools@)),
{
    let mut sorted: Vec<&Json> = Vec::new();
    assert(borrowed_view(sorted@) =~= sorted_tools(values_view(tools@).take(0)));
    let mut next: usize = 0;
    while next < tools.len()
        invariant
            next <= tools@.len(),
            borrowed_view(sorted@) == sorted_tools(values_view(tools@).take(next as int)),
        decreases tools.len() - next,
    {
        let tool = &tools[next];
        let ghost before = borrowed_view(sorted@);
        let ghost taken = values_view(tools@).take(next + 1);
        assert(taken.drop_last() =~= values_view(tools@).take(next as int));
        assert(taken.last() == tool@);
        let mut at: usize = sorted.len();
        while at > 0 && !in_order(tool_name(sorted[at - 1]), tool_name(tool))
            invariant
                at <= sorted@.len(),
                before == borrowed_view(sorted@),
                forall|i: int|
                    at <= i < before.len() ==> !lex_le(
                        name_of(#[trigger] before[i]),
                        name_of(tool@),
                    ),
            decreases at,
        {
            assert(before[at - 1] == sorted@[at - 1]@);
            at = at - 1;
        }
        proof {
            if at > 0 {
                assert(before[at - 1] == sorted@[at - 1]@);
            }
            lemma_place_tool(before, tool@, at as int);
        }
        sorted.insert(at, tool);
        assert(borrowed_view(sorted@) =~= before.insert(at as int, tool@));
        next = next + 1;
    }
    assert(values_view(tools@).take(tools@.len() as int) =~= values_view(tools@));
    sorted
}

/// The sum of the counts.
pub open spec fn sum(counts: Seq<nat>) -> nat
    decreases counts.len(),
{
    if counts.len() == 0 {
        0
    } else {
        sum(counts.drop_last()) + counts.last()
    }
}

/// A part of the counts sums up to no more than all of them.
pub proof fn lemma_sum_grows(counts: Seq<nat>, end: int)
    requires
        0 <= end <= counts.len(),
    ensures
        sum(counts.take(end)) <= sum(counts),
    decreases counts.len(),
{
    if end < counts.len() {
        lemma_sum_grows(counts.drop_last(), end);
        assert(counts.drop_last().take(end) =~= counts.take(end));
    } else {
        assert(counts.take(end) =~= counts);
    }
}

/// The tokens of the texts of a list of values.
pub open spec fn texts_tokens(values: Seq<JsonView>) -> nat {
    sum(values.map_values(|value: JsonView| text_tokens(value)))
}

/// The tokens of the system prompt.
pub open spec fn system_tokens(request: JsonView) -> nat {
    match request.field("system"@) {
        Some(JsonView::Str(text)) => token_count(text),
        Some(JsonView::Array(messages)) => texts_tokens(messages),
        _ => 0,
    }
}

/// The tokens of a message.
pub open spec fn content_tokens(message: JsonView) -> nat {
    match message.field("content"@) {
        Some(JsonView::Str(text)) => token_count(text),
        Some(JsonView::Array(blocks)) => texts_tokens(blocks),
        _ => 0,
    }
}

/// The tokens of the messages.
pub open spec fn message_tokens(request: JsonView) -> nat {
    match request.array_field("messages"@) {
        Some(messages) => sum(messages.map_values(|message: JsonView| content_tokens(message))),
        None => 0,
    }
}

/// The tokens of a tool's input schema.
pub open spec fn schema_tokens(tool: JsonView) -> nat {
    match tool.field("input_schema"@) {
        Some(schema) => token_count(text_or_empty(json_text(schema))),
        None => 0,
    }
}

/// The tokens of a tool.
pub open spec fn tool_token_count(tool: JsonView) -> nat {
    token_count(name_of(tool)) + token_count(text_or_empty(tool.text_field("description"@)))
        + schema_tokens(tool)
}

/// The tokens of the tools.
pub open spec fn tool_tokens(request: JsonView) -> nat {
    match request.array_field("tools"@) {
        Some(tools) => sum(tools.map_values(|tool: JsonView| tool_token_count(tool))),
        None => 0,
    }
}

/// The tokens of a request.
pub open spec fn request_tokens(request: JsonView) -> nat {
    system_tokens(request) + message_tokens(request) + tool_tokens(request)
}

/// Adds the tokens of the texts of `values` to `start`, unless that is more than an `i32`
/// holds.
fn add_texts(values: &Vec<Json>, start: i32) -> (total: Option<i32>)
    requires
        start >= 0,
    ensures
        match total {
            Some(sum) => sum == start + texts_tokens(values_view(values@)),
            None => start + texts_tokens(values_view(values@)) > i32::MAX,
        },
{
    let ghost counts = values_view(values@).map_values(|value: JsonView| text_tokens(value));
    let mut total: i32 = start;
    let mut at: usize = 0;
    while at < values.len()
        invariant
            at <= values@.len(),
            counts == values_view(values@).map_values(|value: JsonView| text_tokens(value)),
            total == start + sum(counts.take(at as int)),
            start >= 0,
        decreases values.len() - at,
    {
        assert(counts.take(at + 1).drop_last() =~= counts.take(at as int));
        assert(counts[at as int] == text_tokens(values@[at as int]@));
        proof {
            lemma_sum_grows(counts, at + 1);
        }
        if let Some(text) = values[at].text_field("text") {
            match total.checked_add(count_tokens(text)) {
                Some(more) => {
                    total = more;
                },
                None => {
                    return None;
                },
            }
        }
        at = at + 1;
    }
    assert(counts.take(counts.len() as int) =~= counts);
    Some(total)
}

/// Adds the tokens of the system prompt to `start`, unless that is more than an `i32` holds.
fn add_system(request: &Json, start: i32) -> (total: Option<i32>)
    requires
        start >= 0,
    ensures
        match total {
            Some(sum) => sum == start + system_tokens(request@),
            None => start + system_tokens(request@) > i32::MAX,
        },
{
    match request.get("system") {
        Some(system) => {
            match system {
                Json::Str(text) => start.checked_add(count_tokens(text.as_str())),
                Json::Array(messages) => {
                    proof {
                        lemma_array_view(*messages);
                    }
                    add_texts(messages, start)
                },
                _ => Some(start),
            }
        },
        None => Some(start),
    }
}

/// Adds the tokens of a message to `start`, unless that is more than an `i32` holds.
fn add_content(message: &Json, start: i32) -> (total: Option<i32>)
    requires
        start >= 0,
    ensures
        match total {
            Some(sum) => sum == start + content_tokens(message@),
            None => start + content_tokens(message@) > i32::MAX,
        },
{
    match message.get("content") {
        Some(content) => {
            match content {
                Json::Str(text) => start.checked_add(count_tokens(text.as_str())),
                Json::Array(blocks) => {
                    proof {
                        lemma_array_view(*blocks);
                    }
                    add_texts(blocks, start)
                },
                _ => Some(start),
            }
        },
        None => Some(start),
    }
}

/// Adds the tokens of the messages to `start`, unless that is more than an `i32` holds.
fn add_messages(request: &Json, start: i32) -> (total: Option<i32>)
    requires
        start >= 0,
    ensures
        match total {
            Some(sum) => sum == start + message_tokens(request@),
            None => start + message_tokens(request@) > i32::MAX,
        },
{
    let messages = match request.array_field("messages") {
        Some(messages) => messages,
        None => {
            return Some(start);
        },
    };
    let ghost counts = values_view(messages@).map_values(
        |message: JsonView| content_tokens(message),
    );
    let mut total: i32 = start;
    let mut at: usize = 0;
    while at < messages.len()
        invariant
            at <= messages@.len(),
            counts == values_view(messages@).map_values(
                |message: JsonView| content_tokens(message),
            ),
            message_tokens(request@) == sum(counts),
            total == start + sum(counts.take(at as int)),
            start >= 0,
        decreases messages.len() - at,
    {
        assert(counts.take(at + 1).drop_last() =~= counts.take(at as int));
        assert(counts[at as int] == content_tokens(messages@[at as int]@));
        proof {
            lemma_sum_grows(counts, at + 1);
        }
        match add_content(&messages[at], total) {
            Some(more) => {
                total = more;
            },
            None => {
                return None;
            },
        }
        at = at + 1;
    }
    assert(counts.take(counts.len() as int) =~= counts);
    Some(total)
}

/// Adds the tokens of a tool to `start`, unless that is more than an `i32` holds.
fn add_tool(tool: &Json, start: i32) -> (total: Option<i32>)
    requires
        start >= 0,
    ensures
        match total {
            Some(sum) => sum == start + tool_token_count(tool@),
            None => start + tool_token_count(tool@) > i32::MAX,
        },
{
    let mut total: i32 = match start.checked_add(count_tokens(tool_name(tool))) {
        Some(more) => more,
        None => {
            return None;
        },
    };
    if let Some(description) = tool.text_field("description") {
        total = match total.checked_add(count_tokens(description)) {
            Some(more) => more,
            None => {
                return None;
            },
        };
    }
    if let Some(schema) = tool.get("input_schema") {
        if let Some(text) = schema.to_text() {
            total = match total.checked_add(count_tokens(text.as_str())) {
                Some(more) => more,
                None => {
                    return None;
                },
            };
        }
    }
    Some(total)
}

/// Adds the tokens of the tools to `start`, unless that is more than an `i32` holds.
fn add_tools(request: &Json, start: i32) -> (total: Option<i32>)
    requires
        start >= 0,
    ensures
        match total {
            Some(sum) => sum == start + tool_tokens(request@),
            None => start + tool_tokens(request@) > i32::MAX,
        },
{
    let tools = match request.array_field("tools") {
        Some(tools) => tools,
        None => {
            return Some(start);
        },
    };
    let ghost counts = values_view(tools@).map_values(|tool: JsonView| tool_token_count(tool));
    let mut total: i32 = start;
    let mut at: usize = 0;
    while at < tools.len()
        invariant
            at <= tools@.len(),
            counts == values_view(tools@).map_values(|tool: JsonView| tool_token_count(tool)),
            tool_tokens(request@) == sum(counts),
            total == start + sum(counts.take(at as int)),
            start >= 0,
        decreases tools.len() - at,
    {
        assert(counts.take(at + 1).drop_last() =~= counts.take(at as int));
        assert(counts[at as int] == tool_token_count(tools@[at as int]@));
        proof {
            lemma_sum_grows(counts, at + 1);
        }
        match add_tool(&tools[at], total) {
            Some(more) => {
                total = more;
            },
            None => {
                return None;
            },
        }
        at = at + 1;
    }
    assert(counts.take(counts.len() as int) =~= counts);
    Some(total)
}

/// The tokens of a request, at least one, unless they are more than an `i32` holds.
pub fn checked_count_all_tokens(request: &Json) -> (total: Option<i32>)
    ensures
        match total {
            Some(sum) => request_tokens(request@) <= i32::MAX && sum == at_least_one(
                request_tokens(request@),
            ),
            None => request_tokens(request@) > i32::MAX,
        },
{
    let with_system = match add_system(request, 0) {
        Some(total) => total,
        None => {
            return None;
        },
    };
    let with_messages = match add_messages(request, with_system) {
        Some(total) => total,
        None => {
            return None;
        },
    };
    match add_tools(request, with_messages) {
        Some(total) => Some(
            if total < 1 {
                1
            } else {
                total
            },
        ),
        None => None,
    }
}

/// `count`, or one where it is none.
pub open spec fn at_least_one(count: nat) -> int {
    if count < 1 {
        1
    } else {
        count as int
    }
}

/// The tokens of a request, at least one.
pub fn count_all_tokens(request: &Json) -> (total: i32)
    requires
        request_tokens(request@) <= i32::MAX,
    ensures
        total == at_least_one(request_tokens(request@)),
{
    checked_count_all_tokens(request).unwrap()
}

} // verus!
