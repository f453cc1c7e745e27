//! Taking the `cch=` segment, which changes with every request, out of the billing header
//! that some clients put into their system prompt.

use crate::json::{lemma_array_view, lemma_insert_same, values_view, Json, JsonView};
use crate::text::{
    contains, join, join_with, law_join_undoes_split, law_split_undoes_join,
    lemma_split_pieces_lack, occurs_at, occurs_in, pieces_lack, same_text, split, split_on,
    starts_with, texts, trim_start, trimmed_start,
};
use vstd::prelude::*;

verus! {

/// A segment that begins, after whitespace, with `cch=`.
pub open spec fn is_cch_segment(segment: Seq<char>) -> bool {
    occurs_at(trimmed_start(segment), "cch="@, 0)
}

/// The segments that stay.
pub open spec fn kept_segments(segments: Seq<Seq<char>>) -> Seq<Seq<char>> {
    segments.filter(|segment: Seq<char>| !is_cch_segment(segment))
}

/// `text` without its `cch=` segments, where segments are what stands between semicolons.
pub open spec fn without_cch(text: Seq<char>) -> Seq<char> {
    join(kept_segments(split(text, ';')), ";"@)
}

/// `text` without its `cch=` segments where it holds a billing header, else as it is.
pub open spec fn cleaned_text(text: Seq<char>) -> Seq<char> {
    if occurs_in(text, "x-anthropic-billing-header"@) {
        without_cch(text)
    } else {
        text
    }
}

/// A system message with its text cleaned.
pub open spec fn cleaned_message(message: JsonView) -> JsonView {
    match (message, message.field("text"@)) {
        (JsonView::Object(members), Some(JsonView::Str(text))) => JsonView::Object(
            members.insert("text"@, JsonView::Str(cleaned_text(text))),
        ),
        _ => message,
    }
}

/// System messages with their texts cleaned.
pub open spec fn cleaned_messages(messages: Seq<JsonView>) -> Seq<JsonView> {
    messages.map_values(|message: JsonView| cleaned_message(message))
}

/// A request with its system prompt cleaned.
pub open spec fn cleaned_request(request: JsonView) -> JsonView {
    match (request, request.field("system"@)) {
        (JsonView::Object(members), Some(JsonView::Str(text))) => JsonView::Object(
            members.insert("system"@, JsonView::Str(cleaned_text(text))),
        ),
        (JsonView::Object(members), Some(JsonView::Array(messages))) => JsonView::Object(
            members.insert("system"@, JsonView::Array(cleaned_messages(messages))),
        ),
        _ => request,
    }
}

/// What stays of a list of segments stays again, and no `cch=` segment is among it.
proof fn lemma_kept(segments: Seq<Seq<char>>)
    requires
        pieces_lack(segments, ';'),
    ensures
        forall|i: int|
            0 <= i < kept_segments(segments).len() ==> !is_cch_segment(
                #[trigger] kept_segments(segments)[i],
            ),
        pieces_lack(kept_segments(segments), ';'),
        kept_segments(kept_segments(segments)) == kept_segments(segments),
    decreases segments.len(),
{
    reveal(Seq::filter);
    if segments.len() > 0 {
        let earlier = segments.drop_last();
        assert forall|i: int| 0 <= i < earlier.len() implies !(#[trigger] earlier[i]).contains(
            ';',
        ) by {
            assert(!segments[i].contains(';'));
        }
        lemma_kept(earlier);
        let kept = kept_segments(segments);
        if !is_cch_segment(segments.last()) {
            assert(kept.drop_last() =~= kept_segments(earlier));
            assert(!segments[segments.len() - 1].contains(';'));
            assert forall|i: int| 0 <= i < kept.len() implies !is_cch_segment(
                #[trigger] kept[i],
            ) && !kept[i].contains(';') by {
                if i < kept.len() - 1 {
                    assert(kept[i] == kept_segments(earlier)[i]);
                }
            }
        }
    }
}

/// The segments of a stripped text are those that stayed, or one empty segment where none
/// did.
proof fn lemma_stripped_segments(text: Seq<char>)
    ensures
        kept_segments(split(text, ';')).len() > 0 ==> split(without_cch(text), ';')
            == kept_segments(split(text, ';')),
        kept_segments(split(text, ';')).len() == 0 ==> without_cch(text).len() == 0,
{
    reveal_strlit(";");
    assert(";"@ =~= seq![';']);
    lemma_split_pieces_lack(text, ';');
    lemma_kept(split(text, ';'));
    if kept_segments(split(text, ';')).len() > 0 {
        law_split_undoes_join(kept_segments(split(text, ';')), ';');
    }
}

/// A cleaned text that held a billing header has no `cch=` segment.
pub proof fn law_no_cch_segment_is_left(text: Seq<char>, at: int)
    requires
        occurs_in(text, "x-anthropic-billing-header"@),
        0 <= at < split(cleaned_text(text), ';').len(),
    ensures
        !is_cch_segment(split(cleaned_text(text), ';')[at]),
{
    lemma_stripped_segments(text);
    lemma_split_pieces_lack(text, ';');
    lemma_kept(split(text, ';'));
    if kept_segments(split(text, ';')).len() == 0 {
        reveal_strlit("cch=");
        assert(split(cleaned_text(text), ';')[at].len() == 0);
    }
}

/// Cleaning a cleaned text changes nothing.
pub proof fn law_cleaning_a_text_twice(text: Seq<char>)
    ensures
        cleaned_text(cleaned_text(text)) == cleaned_text(text),
{
    if occurs_in(text, "x-anthropic-billing-header"@) {
        lemma_stripped_segments(text);
        lemma_split_pieces_lack(text, ';');
        lemma_kept(split(text, ';'));
        if kept_segments(split(text, ';')).len() == 0 {
            let cleaned = cleaned_text(text);
            reveal_strlit("x-anthropic-billing-header");
            assert(!occurs_in(cleaned, "x-anthropic-billing-header"@));
        }
    }
}

/// Cleaning a cleaned request changes nothing.
pub proof fn law_cleaning_a_request_twice(request: JsonView)
    ensures
        cleaned_request(cleaned_request(request)) == cleaned_request(request),
{
    let cleaned = cleaned_request(request);
    match (request, request.field("system"@)) {
        (JsonView::Object(members), Some(JsonView::Str(text))) => {
            law_cleaning_a_text_twice(text);
            let new_members = members.insert("system"@, JsonView::Str(cleaned_text(text)));
            assert(new_members.insert("system"@, JsonView::Str(cleaned_text(text)))
                =~= new_members);
        },
        (JsonView::Object(members), Some(JsonView::Array(messages))) => {
            let once = cleaned_messages(messages);
            assert forall|i: int| 0 <= i < once.len() implies cleaned_message(
                #[trigger] once[i],
            ) == once[i] by {
                match (messages[i], messages[i].field("text"@)) {
                    (JsonView::Object(parts), Some(JsonView::Str(text))) => {
                        law_cleaning_a_text_twice(text);
                        let new_parts = parts.insert("text"@, JsonView::Str(cleaned_text(text)));
                        assert(new_parts.insert("text"@, JsonView::Str(cleaned_text(text)))
                            =~= new_parts);
                    },
                    _ => {},
                }
            }
            assert(cleaned_messages(once) =~= once);
            let new_members = members.insert("system"@, JsonView::Array(once));
            assert(new_members.insert("system"@, JsonView::Array(once)) =~= new_members);
        },
        _ => {},
    }
}

/// Two texts with a billing header that differ only in one `cch=` segment become the same.
pub proof fn law_cch_segment_does_not_matter(
    before: Seq<Seq<char>>,
    left: Seq<char>,
    right: Seq<char>,
    after: Seq<Seq<char>>,
)
    requires
        pieces_lack(before, ';'),
        pieces_lack(after, ';'),
        !left.contains(';'),
        !right.contains(';'),
        is_cch_segment(left),
        is_cch_segment(right),
        occurs_in(join(before + seq![left] + after, seq![';']), "x-anthropic-billing-header"@),
        occurs_in(join(before + seq![right] + after, seq![';']), "x-anthropic-billing-header"@),
    ensures
        cleaned_text(join(before + seq![left] + after, seq![';'])) == cleaned_text(
            join(before + seq![right] + after, seq![';']),
        ),
{
    lemma_cch_segment_drops_out(before, left, after);
    lemma_cch_segment_drops_out(before, right, after);
}

proof fn lemma_cch_segment_drops_out(
    before: Seq<Seq<char>>,
    segment: Seq<char>,
    after: Seq<Seq<char>>,
)
    requires
        pieces_lack(before, ';'),
        pieces_lack(after, ';'),
        !segment.contains(';'),
        is_cch_segment(segment),
    ensures
        kept_segments(split(join(before + seq![segment] + after, seq![';']), ';'))
            == kept_segments(before) + kept_segments(after),
{
    let all = before + seq![segment] + after;
    let keeps = |piece: Seq<char>| !is_cch_segment(piece);
    assert forall|i: int| 0 <= i < all.len() implies !(#[trigger] all[i]).contains(';') by {
        if i < before.len() {
            assert(all[i] == before[i]);
        } else if i > before.len() {
            assert(all[i] == after[i - before.len() - 1]);
        }
    }
    law_split_undoes_join(all, ';');
    Seq::filter_distributes_over_add(before + seq![segment], after, keeps);
    Seq::filter_distributes_over_add(before, seq![segment], keeps);
    assert(seq![segment].filter(keeps) =~= Seq::<Seq<char>>::empty()) by {
        reveal_with_fuel(Seq::filter, 2);
        assert(seq![segment].last() == segment);
        assert(seq![segment].drop_last() =~= Seq::<Seq<char>>::empty());
    }
    assert(before.filter(keeps) + Seq::<Seq<char>>::empty() =~= before.filter(keeps));
}

/// `text` without its `cch=` segments.
pub fn strip_cch_segments(text: &str) -> (result: String)
    ensures
        result@ == without_cch(text@),
{
    let segments = split_on(text, ';');
    let mut kept: Vec<String> = Vec::new();
    let mut changed = false;
    let ghost keeps = |segment: Seq<char>| !is_cch_segment(segment);
    assert(texts(kept@) =~= texts(segments@).take(0).filter(keeps)) by {
        reveal(Seq::filter);
    }
    let mut at: usize = 0;
    while at < segments.len()
        invariant
            at <= segments@.len(),
            keeps == (|segment: Seq<char>| !is_cch_segment(segment)),
            texts(kept@) == texts(segments@).take(at as int).filter(keeps),
            !changed ==> texts(kept@) == texts(segments@).take(at as int),
        decreases segments.len() - at,
    {
        let ghost before = texts(kept@);
        let ghost taken = texts(segments@).take(at + 1);
        assert(taken.drop_last() =~= texts(segments@).take(at as int));
        assert(taken.last() == segments@[at as int]@);
        let is_cch = starts_with(trim_start(segments[at].as_str()).as_str(), "cch=");
        if is_cch {
            changed = true;
        } else {
            kept.push(segments[at].clone());
            assert(texts(kept@) =~= before.push(segments@[at as int]@));
        }
        assert(taken.filter(keeps) == texts(kept@)) by {
            reveal(Seq::filter);
        }
        if !changed {
            assert(texts(kept@) =~= taken);
        }
        at = at + 1;
    }
    assert(texts(segments@).take(segments@.len() as int) =~= texts(segments@));
    proof {
        reveal_strlit(";");
        assert(";"@ =~= seq![';']);
        law_join_undoes_split(text@, ';');
    }
    if changed {
        join_with(&kept, ";")
    } else {
        text.to_owned()
    }
}

/// Takes the `cch=` segments out of a text with a billing header, and says whether that
/// changed the text.
pub fn strip_cch_from_string(text: &mut String) -> (changed: bool)
    ensures
        final(text)@ == cleaned_text(old(text)@),
        changed == (final(text)@ != old(text)@),
{
    if !contains(text.as_str(), "x-anthropic-billing-header") {
        return false;
    }
    let stripped = strip_cch_segments(text.as_str());
    if same_text(stripped.as_str(), text.as_str()) {
        false
    } else {
        *text = stripped;
        true
    }
}

fn strip_cch_from_message(message: &mut Json) -> (changed: bool)
    ensures
        final(message)@ == cleaned_message(old(message)@),
        changed == (final(message)@ != old(message)@),
{
    match message {
        Json::Object(members) => {
            let ghost old_members = members@;
            proof {
                lemma_insert_same(old_members, "text"@);
            }
            match members.get_mut("text") {
                Some(Json::Str(text)) => {
                    let ghost old_text = text@;
                    let changed = strip_cch_from_string(text);
                    proof {
                        let new_members = old_members.insert("text"@, JsonView::Str(text@));
                        assert(old_members["text"@] == JsonView::Str(old_text));
                        assert(new_members["text"@] == JsonView::Str(text@));
                    }
                    changed
                },
                _ => false,
            }
        },
        _ => false,
    }
}

fn strip_cch_from_messages(messages: &mut Vec<Json>) -> (changed: bool)
    ensures
        values_view(final(messages)@) == cleaned_messages(values_view(old(messages)@)),
        changed == (values_view(final(messages)@) != values_view(old(messages)@)),
{
    let mut changed = false;
    let mut at: usize = 0;
    let ghost before = values_view(messages@);
    while at < messages.len()
        invariant
            at <= messages@.len(),
            before == values_view(old(messages)@),
            messages@.len() == before.len(),
            forall|i: int|
                0 <= i < at ==> values_view(messages@)[i] == cleaned_message(
                    #[trigger] before[i],
                ),
            forall|i: int| at <= i < before.len() ==> values_view(messages@)[i] == #[trigger] before[i],
            changed ==> values_view(messages@) != before,
            !changed ==> values_view(messages@) == before,
        decreases messages.len() - at,
    {
        let ghost current = values_view(messages@);
        let message_changed = strip_cch_from_message(&mut messages[at]);
        assert(values_view(messages@) =~= current.update(at as int, messages@[at as int]@));
        assert(current[at as int] == before[at as int]);
        proof {
            if changed {
                let other = choose|i: int| 0 <= i < before.len() && current[i] != before[i];
                assert(!(current =~= before));
                assert(values_view(messages@)[other] != before[other]);
            } else if message_changed {
                assert(values_view(messages@)[at as int] != before[at as int]);
            } else {
                assert(values_view(messages@) =~= before);
            }
        }
        changed = changed || message_changed;
        at = at + 1;
    }
    assert(values_view(messages@) =~= cleaned_messages(before));
    changed
}

/// Takes the `cch=` segments out of the system prompt of a request, and says whether that
/// changed the request.
pub fn strip_cch_from_request(request: &mut Json) -> (changed: bool)
    ensures
        final(request)@ == cleaned_request(old(request)@),
        changed == (final(request)@ != old(request)@),
{
    match request {
        Json::Object(members) => {
            let ghost old_members = members@;
            proof {
                lemma_insert_same(old_members, "system"@);
            }
            match members.get_mut("system") {
                Some(Json::Str(text)) => {
                    let ghost old_text = text@;
                    let changed = strip_cch_from_string(text);
                    proof {
                        let new_members = old_members.insert("system"@, JsonView::Str(text@));
                        assert(old_members["system"@] == JsonView::Str(old_text));
                        assert(new_members["system"@] == JsonView::Str(text@));
                    }
                    changed
                },
                Some(Json::Array(messages)) => {
                    let ghost old_messages = *messages;
                    let changed = strip_cch_from_messages(messages);
                    proof {
                        lemma_array_view(old_messages);
                        lemma_array_view(*messages);
                        let new_messages = JsonView::Array(values_view(messages@));
                        let new_members = old_members.insert("system"@, new_messages);
                        assert(old_members["system"@] == JsonView::Array(
                            values_view(old_messages@),
                        ));
                        assert(new_members["system"@] == new_messages);
                    }
                    changed
                },
                _ => false,
            }
        },
        _ => false,
    }
}

} // verus!
