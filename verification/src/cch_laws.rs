//! What cleaning takes out of a request, and what it leaves.

use crate::cch::{cleaned_message, cleaned_request, cleaned_text, is_cch_segment, kept_segments};
use crate::json::JsonView;
use crate::text::{
    is_whitespace, law_split_undoes_join, lemma_split_pieces_lack, pieces_lack, split,
    trimmed_start,
};
use crate::text_laws::{is_blank, law_begins, law_occurs, law_trimmed_start};
use vstd::prelude::*;

verus! {

proof fn lemma_leading_blank(text: Seq<char>) -> (blank: Seq<char>)
    ensures
        is_blank(blank),
        text == blank + trimmed_start(text),
    decreases text.len(),
{
    if text.len() > 0 && is_whitespace(text[0]) {
        let rest = lemma_leading_blank(text.drop_first());
        let blank = seq![text[0]] + rest;
        assert forall|i: int| 0 <= i < blank.len() implies is_whitespace(#[trigger] blank[i]) by {
            if i > 0 {
                assert(blank[i] == rest[i - 1]);
            }
        }
        assert(text =~= seq![text[0]] + text.drop_first());
        assert(text =~= blank + trimmed_start(text));
        blank
    } else {
        let blank = Seq::<char>::empty();
        assert(text =~= blank + trimmed_start(text));
        blank
    }
}

/// A segment is taken out if and only if it is whitespace, then `cch=`, then anything.
pub proof fn law_cch_segment(segment: Seq<char>)
    ensures
        is_cch_segment(segment) <==> exists|blank: Seq<char>, rest: Seq<char>|
            is_blank(blank) && segment == #[trigger] (blank + ("cch="@ + rest)),
{
    reveal_strlit("cch=");
    law_begins(trimmed_start(segment), "cch="@);
    if is_cch_segment(segment) {
        let blank = lemma_leading_blank(segment);
        let rest = choose|rest: Seq<char>| trimmed_start(segment) == #[trigger] ("cch="@ + rest);
        assert(is_blank(blank) && segment == blank + ("cch="@ + rest));
    }
    if exists|blank: Seq<char>, rest: Seq<char>|
        is_blank(blank) && segment == #[trigger] (blank + ("cch="@ + rest)) {
        let (blank, rest) = choose|blank: Seq<char>, rest: Seq<char>|
            is_blank(blank) && segment == #[trigger] (blank + ("cch="@ + rest));
        let tail = "cch="@ + rest;
        assert(tail[0] == 'c');
        law_trimmed_start(blank, tail);
        assert(trimmed_start(segment) == "cch="@ + rest);
    }
}

/// Of a list of segments those stay that are not taken out, in their order.
pub proof fn law_kept_segments(first: Seq<Seq<char>>, second: Seq<Seq<char>>, segment: Seq<char>)
    ensures
        kept_segments(first + second) == kept_segments(first) + kept_segments(second),
        is_cch_segment(segment) ==> kept_segments(seq![segment]) == Seq::<Seq<char>>::empty(),
        !is_cch_segment(segment) ==> kept_segments(seq![segment]) == seq![segment],
        kept_segments(Seq::<Seq<char>>::empty()) == Seq::<Seq<char>>::empty(),
    decreases second.len(),
{
    reveal_with_fuel(Seq::filter, 2);
    if second.len() == 0 {
        assert(first + second =~= first);
        assert(kept_segments(first) + kept_segments(second) =~= kept_segments(first));
    } else {
        law_kept_segments(first, second.drop_last(), segment);
        assert((first + second).drop_last() =~= first + second.drop_last());
        assert((first + second).last() == second.last());
        assert(kept_segments(first + second) =~= kept_segments(first) + kept_segments(second));
    }
    assert(seq![segment].drop_last() =~= Seq::<Seq<char>>::empty());
    if !is_cch_segment(segment) {
        assert(kept_segments(seq![segment]) =~= seq![segment]);
    }
}

proof fn lemma_kept_lack(segments: Seq<Seq<char>>)
    requires
        pieces_lack(segments, ';'),
    ensures
        pieces_lack(kept_segments(segments), ';'),
    decreases segments.len(),
{
    reveal(Seq::filter);
    if segments.len() > 0 {
        let earlier = segments.drop_last();
        assert forall|i: int| 0 <= i < earlier.len() implies !(#[trigger] earlier[i]).contains(
            ';',
        ) by {
            assert(!segments[i].contains(';'));
        }
        lemma_kept_lack(earlier);
        assert(!segments[segments.len() - 1].contains(';'));
        let kept = kept_segments(segments);
        assert forall|i: int| 0 <= i < kept.len() implies !(#[trigger] kept[i]).contains(';') by {
            if i < kept_segments(earlier).len() {
                assert(kept[i] == kept_segments(earlier)[i]);
            }
        }
    }
}

/// A text that holds a billing header becomes the one whose segments are those that stay; any
/// other text stays as it is.
pub proof fn law_cleaned_text(text: Seq<char>)
    ensures
        (forall|before: Seq<char>, after: Seq<char>|
            text != #[trigger] (before + "x-anthropic-billing-header"@ + after)) ==> cleaned_text(
            text,
        ) == text,
        (exists|before: Seq<char>, after: Seq<char>|
            text == #[trigger] (before + "x-anthropic-billing-header"@ + after)) ==> {
            let kept = kept_segments(split(text, ';'));
            &&& kept.len() > 0 ==> split(cleaned_text(text), ';') == kept
            &&& kept.len() == 0 ==> cleaned_text(text) == Seq::<char>::empty()
        },
{
    law_occurs(text, "x-anthropic-billing-header"@);
    reveal_strlit(";");
    assert(";"@ =~= seq![';']);
    let kept = kept_segments(split(text, ';'));
    lemma_split_pieces_lack(text, ';');
    lemma_kept_lack(split(text, ';'));
    if kept.len() > 0 {
        law_split_undoes_join(kept, ';');
    }
}

/// Cleaning a request changes nothing but its system prompt.
pub proof fn law_cleaning_changes_only_the_system_prompt(request: JsonView, key: Seq<char>)
    requires
        key != "system"@,
    ensures
        request is Object <==> cleaned_request(request) is Object,
        !(request is Object) ==> cleaned_request(request) == request,
        request is Object ==> {
            let before = request->Object_0;
            let after = cleaned_request(request)->Object_0;
            &&& after.contains_key(key) == before.contains_key(key)
            &&& before.contains_key(key) ==> after[key] == before[key]
            &&& after.contains_key("system"@) == before.contains_key("system"@)
        },
{
}

/// A plain system prompt is cleaned as a text, one of messages message by message, and one that is
/// neither stays as it is.
pub proof fn law_system_prompt_is_cleaned(
    members: Map<Seq<char>, JsonView>,
    text: Seq<char>,
    messages: Seq<JsonView>,
    at: int,
)
    requires
        members.contains_key("system"@),
    ensures
        ({
            let before = members["system"@];
            let after = cleaned_request(JsonView::Object(members))->Object_0["system"@];
            &&& before == JsonView::Str(text) ==> after == JsonView::Str(cleaned_text(text))
            &&& before == JsonView::Array(messages) ==> {
                &&& after is Array
                &&& after->Array_0.len() == messages.len()
                &&& 0 <= at < messages.len() ==> after->Array_0[at] == cleaned_message(
                    messages[at],
                )
            }
            &&& !(before is Str) && !(before is Array) ==> after == before
        }),
{
}

/// Cleaning a system message changes nothing but its text, and that only where it is one.
pub proof fn law_message_is_cleaned(message: JsonView, key: Seq<char>, text: Seq<char>)
    ensures
        !(message is Object) ==> cleaned_message(message) == message,
        message is Object ==> {
            let before = message->Object_0;
            let after = cleaned_message(message)->Object_0;
            &&& cleaned_message(message) is Object
            &&& after.contains_key(key) == before.contains_key(key)
            &&& before.contains_key(key) && (key != "text"@ || !(before[key] is Str)) ==> after[key]
                == before[key]
            &&& before.contains_key("text"@) && before["text"@] == JsonView::Str(text)
                ==> after["text"@] == JsonView::Str(cleaned_text(text))
        },
{
}

} // verus!
