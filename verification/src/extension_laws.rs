//! That a request which goes on where another one ended keeps the prefixes of that one.

use crate::json::JsonView;
use crate::path::{prefixes_of, request_path};
use crate::request::{
    content_segments, message_segments, messages_segments, segments, system_segments,
    tool_segments, Segment,
};
use crate::request_laws::law_like_segments_have_the_same_prefixes;
use vstd::prelude::*;

verus! {

/// The messages of a request.
pub open spec fn messages_of(request: JsonView) -> Seq<JsonView> {
    match request.array_field("messages"@) {
        Some(messages) => messages,
        None => Seq::<JsonView>::empty(),
    }
}

/// The longer message has the content of the shorter one, or its blocks and more of them.
pub open spec fn content_extends(shorter: JsonView, longer: JsonView) -> bool {
    ||| shorter.field("content"@) == longer.field("content"@)
    ||| match (shorter.array_field("content"@), longer.array_field("content"@)) {
        (Some(blocks), Some(more)) => blocks.is_prefix_of(more),
        _ => false,
    }
}

/// The longer messages begin with the shorter ones, the last of which may have more blocks in
/// them.
pub open spec fn messages_extend(shorter: Seq<JsonView>, longer: Seq<JsonView>) -> bool {
    shorter.len() == 0 || {
        &&& shorter.len() <= longer.len()
        &&& shorter.drop_last().is_prefix_of(longer)
        &&& content_extends(shorter.last(), longer[shorter.len() - 1])
    }
}

/// The longer request has the tools and the system prompt of the shorter one, and its messages
/// go on where those of the shorter one end.
pub open spec fn request_extends(shorter: JsonView, longer: JsonView) -> bool {
    &&& shorter.field("tools"@) == longer.field("tools"@)
    &&& shorter.field("system"@) == longer.field("system"@)
    &&& messages_extend(messages_of(shorter), messages_of(longer))
}

proof fn lemma_first_messages(messages: Seq<JsonView>, count: int)
    requires
        0 <= count <= messages.len(),
    ensures
        messages_segments(messages.take(count)).is_prefix_of(messages_segments(messages)),
    decreases messages.len(),
{
    if count < messages.len() {
        lemma_first_messages(messages.drop_last(), count);
        assert(messages.drop_last().take(count) =~= messages.take(count));
        lemma_prefix_grows(
            messages_segments(messages.take(count)),
            messages_segments(messages.drop_last()),
            content_segments(messages.last()),
        );
    } else {
        assert(messages.take(count) =~= messages);
    }
}

proof fn lemma_prefix_grows(first: Seq<Segment>, all: Seq<Segment>, more: Seq<Segment>)
    requires
        first.is_prefix_of(all),
    ensures
        first.is_prefix_of(all + more),
{
    assert((all + more).subrange(0, first.len() as int) =~= all.subrange(0, first.len() as int));
}

proof fn lemma_prefix_behind(before: Seq<Segment>, first: Seq<Segment>, all: Seq<Segment>)
    requires
        first.is_prefix_of(all),
    ensures
        (before + first).is_prefix_of(before + all),
{
    assert forall|i: int| 0 <= i < (before + first).len() implies #[trigger] (before + first)[i]
        == (before + all)[i] by {
        if i >= before.len() {
            assert(first[i - before.len()] == all.subrange(0, first.len() as int)[i
                - before.len()]);
        }
    }
    assert((before + all).subrange(0, (before + first).len() as int) =~= before + first);
}

proof fn lemma_content_extends(shorter: JsonView, longer: JsonView)
    requires
        content_extends(shorter, longer),
    ensures
        content_segments(shorter).is_prefix_of(content_segments(longer)),
{
    let left = content_segments(shorter);
    let right = content_segments(longer);
    if shorter.field("content"@) == longer.field("content"@) {
        assert(left.subrange(0, left.len() as int) =~= left);
    } else {
        let blocks = shorter.array_field("content"@)->0;
        let more = longer.array_field("content"@)->0;
        assert forall|i: int| 0 <= i < left.len() implies #[trigger] left[i] == right[i] by {
            assert(blocks[i] == more.subrange(0, blocks.len() as int)[i]);
        }
        assert(right.subrange(0, left.len() as int) =~= left);
    }
}

proof fn lemma_messages_extend(shorter: Seq<JsonView>, longer: Seq<JsonView>)
    requires
        messages_extend(shorter, longer),
    ensures
        messages_segments(shorter).is_prefix_of(messages_segments(longer)),
{
    if shorter.len() > 0 {
        let shared = longer.take(shorter.len() as int);
        assert(shared.drop_last() =~= shorter.drop_last());
        lemma_content_extends(shorter.last(), shared.last());
        lemma_prefix_behind(
            messages_segments(shorter.drop_last()),
            content_segments(shorter.last()),
            content_segments(shared.last()),
        );
        lemma_first_messages(longer, shorter.len() as int);
        let left = messages_segments(shorter);
        let middle = messages_segments(shared);
        let right = messages_segments(longer);
        assert(right.subrange(0, left.len() as int) =~= right.subrange(
            0,
            middle.len() as int,
        ).subrange(0, left.len() as int));
    } else {
        assert(messages_segments(longer).subrange(0, 0) =~= messages_segments(shorter));
    }
}

/// A request that goes on where another one ended, with more messages or with more blocks in
/// what was the last one, begins with the prefixes of that other one.
pub proof fn law_extended_requests_keep_their_prefixes(shorter: JsonView, longer: JsonView)
    requires
        request_extends(shorter, longer),
    ensures
        request_path(shorter).prefixes.is_prefix_of(request_path(longer).prefixes),
{
    lemma_messages_extend(messages_of(shorter), messages_of(longer));
    let before = tool_segments(shorter) + system_segments(shorter);
    lemma_prefix_behind(before, message_segments(shorter), message_segments(longer));
    let left = segments(shorter);
    let right = segments(longer);
    assert forall|i: int| 0 <= i < left.len() implies #[trigger] left[i] == right[i] by {
        assert(left[i] == right.subrange(0, left.len() as int)[i]);
    }
    law_like_segments_have_the_same_prefixes(left, right, left.len() as int);
    assert(prefixes_of(right).subrange(0, left.len() as int) =~= prefixes_of(left));
}

} // verus!
