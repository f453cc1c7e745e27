//! What holds of the plans of cleaned requests.

use crate::cch::{cleaned_message, cleaned_messages, cleaned_request, cleaned_text};
use crate::json::JsonView;
use crate::plan::plan_of;
use vstd::prelude::*;

verus! {

/// Requests that differ only in their system prompts, and these only in what cleaning takes out
/// of them, are cleaned to one request, with one plan.
pub proof fn law_prompts_cleaned_alike_have_one_plan(
    fields: Map<Seq<char>, Seq<u8>>,
    members: Map<Seq<char>, JsonView>,
    left: Seq<char>,
    right: Seq<char>,
)
    requires
        cleaned_text(left) == cleaned_text(right),
    ensures
        ({
            let one = JsonView::Object(members.insert("system"@, JsonView::Str(left)));
            let other = JsonView::Object(members.insert("system"@, JsonView::Str(right)));
            &&& cleaned_request(one) == cleaned_request(other)
            &&& plan_of(fields, cleaned_request(one)) == plan_of(fields, cleaned_request(other))
        }),
{
    let prompt = JsonView::Str(cleaned_text(left));
    assert(members.insert("system"@, JsonView::Str(left)).insert("system"@, prompt)
        =~= members.insert("system"@, JsonView::Str(right)).insert("system"@, prompt));
}

/// Requests that differ only in the text of one system message, and there only in what cleaning
/// takes out of it, are cleaned to one request, with one plan.
pub proof fn law_messages_cleaned_alike_have_one_plan(
    fields: Map<Seq<char>, Seq<u8>>,
    members: Map<Seq<char>, JsonView>,
    messages: Seq<JsonView>,
    at: int,
    message: Map<Seq<char>, JsonView>,
    left: Seq<char>,
    right: Seq<char>,
)
    requires
        0 <= at < messages.len(),
        cleaned_text(left) == cleaned_text(right),
    ensures
        ({
            let one_message = JsonView::Object(message.insert("text"@, JsonView::Str(left)));
            let other_message = JsonView::Object(message.insert("text"@, JsonView::Str(right)));
            let one = JsonView::Object(
                members.insert("system"@, JsonView::Array(messages.update(at, one_message))),
            );
            let other = JsonView::Object(
                members.insert("system"@, JsonView::Array(messages.update(at, other_message))),
            );
            &&& cleaned_request(one) == cleaned_request(other)
            &&& plan_of(fields, cleaned_request(one)) == plan_of(fields, cleaned_request(other))
        }),
{
    let one_message = JsonView::Object(message.insert("text"@, JsonView::Str(left)));
    let other_message = JsonView::Object(message.insert("text"@, JsonView::Str(right)));
    let text = JsonView::Str(cleaned_text(left));
    assert(message.insert("text"@, JsonView::Str(left)).insert("text"@, text) =~= message.insert(
        "text"@,
        JsonView::Str(right),
    ).insert("text"@, text));
    assert(cleaned_message(one_message) == cleaned_message(other_message));
    let one = messages.update(at, one_message);
    let other = messages.update(at, other_message);
    assert(cleaned_messages(one) =~= cleaned_messages(other));
    let cleaned = JsonView::Array(cleaned_messages(one));
    assert(members.insert("system"@, JsonView::Array(one)).insert("system"@, cleaned)
        =~= members.insert("system"@, JsonView::Array(other)).insert("system"@, cleaned));
}

} // verus!
