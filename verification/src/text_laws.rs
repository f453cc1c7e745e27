//! What the searches, cuts and joins of texts satisfy.

use crate::text::{
    is_whitespace, join, lex_le, lower, occurs_at, occurs_in, split, texts, trimmed, trimmed_end,
    trimmed_start, words,
};
use vstd::prelude::*;

verus! {

/// All characters are whitespace.
pub open spec fn is_blank(text: Seq<char>) -> bool {
    forall|i: int| 0 <= i < text.len() ==> is_whitespace(#[trigger] text[i])
}

/// No character is whitespace.
pub open spec fn is_solid(text: Seq<char>) -> bool {
    forall|i: int| 0 <= i < text.len() ==> !is_whitespace(#[trigger] text[i])
}

/// Whitespace is what has this property in Unicode.
pub proof fn law_whitespace(ch: char)
    ensures
        is_whitespace(ch) <==> {
            let code = ch as u32;
            ||| 0x9 <= code <= 0xd
            ||| code == 0x20
            ||| code == 0x85
            ||| code == 0xa0
            ||| code == 0x1680
            ||| 0x2000 <= code <= 0x200a
            ||| code == 0x2028
            ||| code == 0x2029
            ||| code == 0x202f
            ||| code == 0x205f
            ||| code == 0x3000
        },
{
}

/// Making a text small changes its capital ASCII letters, each by 32, and nothing else.
pub proof fn law_lower(text: Seq<char>, at: int)
    requires
        0 <= at < text.len(),
    ensures
        lower(text).len() == text.len(),
        'A' <= text[at] && text[at] <= 'Z' ==> lower(text)[at] as u32 == text[at] as u32 + 32,
        !('A' <= text[at] && text[at] <= 'Z') ==> lower(text)[at] == text[at],
{
}

/// A text stands in another if and only if that one can be cut into what is before it, itself,
/// and what is behind it.
pub proof fn law_occurs(text: Seq<char>, needle: Seq<char>)
    ensures
        occurs_in(text, needle) <==> exists|before: Seq<char>, after: Seq<char>|
            text == #[trigger] (before + needle + after),
{
    if occurs_in(text, needle) {
        let at = choose|at: int| occurs_at(text, needle, at);
        let before = text.take(at);
        let after = text.subrange(at + needle.len(), text.len() as int);
        assert(text =~= before + needle + after) by {
            assert forall|i: int| 0 <= i < text.len() implies text[i] == (before + needle
                + after)[i] by {
                if at <= i < at + needle.len() {
                    assert(needle[i - at] == text.subrange(at, at + needle.len())[i - at]);
                }
            }
        }
    }
    if exists|before: Seq<char>, after: Seq<char>| text == #[trigger] (before + needle + after) {
        let (before, after) = choose|before: Seq<char>, after: Seq<char>|
            text == #[trigger] (before + needle + after);
        assert(text.subrange(before.len() as int, (before.len() + needle.len()) as int) =~= needle);
        assert(occurs_at(text, needle, before.len() as int));
    }
}

/// A text begins with another if and only if it is that one with something behind it.
pub proof fn law_begins(text: Seq<char>, prefix: Seq<char>)
    ensures
        occurs_at(text, prefix, 0) <==> exists|after: Seq<char>|
            text == #[trigger] (prefix + after),
{
    if occurs_at(text, prefix, 0) {
        let after = text.subrange(prefix.len() as int, text.len() as int);
        assert(text =~= prefix + after) by {
            assert forall|i: int| 0 <= i < text.len() implies text[i] == (prefix + after)[i] by {
                if i < prefix.len() {
                    assert(prefix[i] == text.subrange(0, prefix.len() as int)[i]);
                }
            }
        }
    }
    if exists|after: Seq<char>| text == #[trigger] (prefix + after) {
        let after = choose|after: Seq<char>| text == #[trigger] (prefix + after);
        assert(text.subrange(0, prefix.len() as int) =~= prefix);
    }
}

/// Trimming the start takes off just the whitespace there.
pub proof fn law_trimmed_start(blank: Seq<char>, rest: Seq<char>)
    requires
        is_blank(blank),
        rest.len() > 0 ==> !is_whitespace(rest[0]),
    ensures
        trimmed_start(blank + rest) == rest,
    decreases blank.len(),
{
    if blank.len() == 0 {
        assert(blank + rest =~= rest);
    } else {
        assert(is_whitespace(blank[0]));
        let shorter = blank.drop_first();
        assert(is_blank(shorter)) by {
            assert forall|i: int| 0 <= i < shorter.len() implies is_whitespace(
                #[trigger] shorter[i],
            ) by {
                assert(shorter[i] == blank[i + 1]);
            }
        }
        law_trimmed_start(shorter, rest);
        assert((blank + rest).drop_first() =~= shorter + rest);
    }
}

proof fn lemma_trimmed_end(rest: Seq<char>, blank: Seq<char>)
    requires
        is_blank(blank),
        rest.len() > 0 ==> !is_whitespace(rest.last()),
    ensures
        trimmed_end(rest + blank) == rest,
    decreases blank.len(),
{
    if blank.len() == 0 {
        assert(rest + blank =~= rest);
    } else {
        assert(is_whitespace(blank[blank.len() - 1]));
        let shorter = blank.drop_last();
        assert(is_blank(shorter)) by {
            assert forall|i: int| 0 <= i < shorter.len() implies is_whitespace(
                #[trigger] shorter[i],
            ) by {
                assert(shorter[i] == blank[i]);
            }
        }
        lemma_trimmed_end(rest, shorter);
        assert((rest + blank).drop_last() =~= rest + shorter);
    }
}

/// Trimming takes off just the whitespace at both ends.
pub proof fn law_trimmed(before: Seq<char>, inner: Seq<char>, after: Seq<char>)
    requires
        is_blank(before),
        is_blank(after),
        inner.len() > 0 ==> !is_whitespace(inner[0]) && !is_whitespace(inner.last()),
    ensures
        trimmed(before + inner + after) == inner,
{
    if inner.len() > 0 {
        assert(before + inner + after =~= before + (inner + after));
        law_trimmed_start(before, inner + after);
        lemma_trimmed_end(inner, after);
    } else {
        let blank = before + after;
        assert(is_blank(blank)) by {
            assert forall|i: int| 0 <= i < blank.len() implies is_whitespace(
                #[trigger] blank[i],
            ) by {
                if i < before.len() {
                    assert(is_whitespace(before[i]));
                } else {
                    assert(is_whitespace(after[i - before.len()]));
                }
            }
        }
        assert(before + inner + after =~= blank + Seq::<char>::empty());
        law_trimmed_start(blank, Seq::<char>::empty());
        assert(inner =~= Seq::<char>::empty());
    }
}

/// A text cut at a separator has the pieces of what is before it and of what is behind it, and a
/// text without separators is one piece.
pub proof fn law_split(before: Seq<char>, after: Seq<char>, separator: char)
    ensures
        split(before + seq![separator] + after, separator) == split(before, separator) + split(
            after,
            separator,
        ),
        !before.contains(separator) ==> split(before, separator) == seq![before],
    decreases before.len() + after.len(),
{
    let text = before + seq![separator] + after;
    if after.len() == 0 {
        assert(text.drop_last() =~= before);
        assert(split(text, separator) =~= split(before, separator) + split(after, separator));
    } else {
        law_split(before, after.drop_last(), separator);
        assert(text.drop_last() =~= before + seq![separator] + after.drop_last());
        let left = split(before, separator);
        let right = split(after.drop_last(), separator);
        crate::text::lemma_split_is_not_empty(after.drop_last(), separator);
        if after.last() != separator {
            assert((left + right).drop_last() =~= left + right.drop_last());
        }
        assert(split(text, separator) =~= left + split(after, separator));
    }
    if !before.contains(separator) {
        crate::text::law_split_undoes_join(seq![before], separator);
    }
}

/// Joined pieces stand one behind the other, with the separator between each two.
pub proof fn law_join(pieces: Seq<Seq<char>>, piece: Seq<char>, separator: Seq<char>)
    ensures
        join(Seq::<Seq<char>>::empty(), separator) == Seq::<char>::empty(),
        join(seq![piece], separator) == piece,
        pieces.len() > 0 ==> join(pieces.push(piece), separator) == join(pieces, separator)
            + separator + piece,
{
    assert(pieces.push(piece).drop_last() =~= pieces);
}

/// A text cut at whitespace has the words of what is before it and of what is behind it; one
/// without whitespace is one word, or none where it is empty.
pub proof fn law_words(before: Seq<char>, space: char, after: Seq<char>)
    requires
        is_whitespace(space),
    ensures
        words(before + seq![space] + after) == words(before) + words(after),
        is_solid(before) && before.len() > 0 ==> words(before) == seq![before],
        words(Seq::<char>::empty()) == Seq::<Seq<char>>::empty(),
    decreases after.len(),
{
    let text = before + seq![space] + after;
    if after.len() == 0 {
        assert(text.drop_last() =~= before);
        assert(words(before) + words(after) =~= words(before));
    } else {
        let shorter = after.drop_last();
        law_words(before, space, shorter);
        assert(text.drop_last() =~= before + seq![space] + shorter);
        if !is_whitespace(after.last()) {
            if shorter.len() == 0 {
                assert(text.drop_last().last() == space);
                assert(words(text) =~= words(before) + words(after));
            } else {
                assert(text.drop_last().last() == shorter.last());
                lemma_words_end(shorter);
                if !is_whitespace(shorter.last()) {
                    assert((words(before) + words(shorter)).drop_last() =~= words(before)
                        + words(shorter).drop_last());
                }
                assert(words(text) =~= words(before) + words(after));
            }
        }
    }
    if is_solid(before) && before.len() > 0 {
        lemma_solid_word(before);
    }
}

proof fn lemma_words_end(text: Seq<char>)
    ensures
        text.len() > 0 && !is_whitespace(text.last()) ==> words(text).len() > 0,
{
}

proof fn lemma_solid_word(text: Seq<char>)
    requires
        is_solid(text),
        text.len() > 0,
    ensures
        words(text) == seq![text],
    decreases text.len(),
{
    let shorter = text.drop_last();
    assert(!is_whitespace(text[text.len() - 1]));
    if shorter.len() == 0 {
        assert(words(shorter).push(seq![text.last()]) =~= seq![text]) by {
            assert(seq![text.last()] =~= text);
        }
    } else {
        assert(is_solid(shorter)) by {
            assert forall|i: int| 0 <= i < shorter.len() implies !is_whitespace(
                #[trigger] shorter[i],
            ) by {
                assert(shorter[i] == text[i]);
            }
        }
        assert(!is_whitespace(text[text.len() - 2]));
        lemma_solid_word(shorter);
        assert(shorter.push(text.last()) =~= text);
        assert(words(shorter).drop_last().push(words(shorter).last().push(text.last()))
            =~= seq![text]);
    }
}

/// Whitespace has no words.
pub proof fn law_blank_texts_have_no_words(text: Seq<char>)
    requires
        is_blank(text),
    ensures
        words(text) == Seq::<Seq<char>>::empty(),
    decreases text.len(),
{
    if text.len() > 0 {
        let shorter = text.drop_last();
        assert(is_whitespace(text[text.len() - 1]));
        assert(is_blank(shorter)) by {
            assert forall|i: int| 0 <= i < shorter.len() implies is_whitespace(
                #[trigger] shorter[i],
            ) by {
                assert(shorter[i] == text[i]);
            }
        }
        law_blank_texts_have_no_words(shorter);
    }
}

/// Whitespace around a text changes nothing of its words.
pub proof fn law_words_between_whitespace(
    before: Seq<char>,
    inner: Seq<char>,
    after: Seq<char>,
)
    requires
        is_blank(before),
        is_blank(after),
    ensures
        words(before + inner + after) == words(inner),
    decreases before.len() + after.len(),
{
    if after.len() > 0 {
        let shorter = after.drop_last();
        assert(is_whitespace(after[after.len() - 1]));
        assert(is_blank(shorter)) by {
            assert forall|i: int| 0 <= i < shorter.len() implies is_whitespace(
                #[trigger] shorter[i],
            ) by {
                assert(shorter[i] == after[i]);
            }
        }
        law_words_between_whitespace(before, inner, shorter);
        assert((before + inner + after).drop_last() =~= before + inner + shorter);
    } else if before.len() > 0 {
        let shorter = before.drop_last();
        let space = before.last();
        assert(is_whitespace(before[before.len() - 1]));
        assert(is_blank(shorter)) by {
            assert forall|i: int| 0 <= i < shorter.len() implies is_whitespace(
                #[trigger] shorter[i],
            ) by {
                assert(shorter[i] == before[i]);
            }
        }
        law_words(shorter, space, inner);
        law_blank_texts_have_no_words(shorter);
        assert(before + inner + after =~= shorter + seq![space] + inner);
        assert(words(shorter) + words(inner) =~= words(inner));
    } else {
        assert(before + inner + after =~= inner);
    }
}

/// The first characters in which two texts differ decide their order, and a text comes before
/// every longer one that begins with it.
pub proof fn law_order(
    shared: Seq<char>,
    left: char,
    left_rest: Seq<char>,
    right: char,
    right_rest: Seq<char>,
)
    ensures
        left as u32 != right as u32 ==> (lex_le(
            shared + seq![left] + left_rest,
            shared + seq![right] + right_rest,
        ) <==> (left as u32) < right as u32),
        lex_le(shared, shared + right_rest),
        !lex_le(shared + seq![left] + left_rest, shared),
    decreases shared.len(),
{
    let one = shared + seq![left] + left_rest;
    let other = shared + seq![right] + right_rest;
    if shared.len() == 0 {
        assert(one[0] == left && other[0] == right);
    } else {
        let rest = shared.drop_first();
        law_order(rest, left, left_rest, right, right_rest);
        assert(one.drop_first() =~= rest + seq![left] + left_rest);
        assert(other.drop_first() =~= rest + seq![right] + right_rest);
        assert((shared + right_rest).drop_first() =~= rest + right_rest);
        assert(one[0] == shared[0] && other[0] == shared[0]);
        assert((shared + right_rest)[0] == shared[0]);
    }
}

/// The views of strings are those of each of them.
pub proof fn law_texts(strings: Seq<String>)
    ensures
        texts(strings).len() == strings.len(),
        forall|i: int| 0 <= i < strings.len() ==> #[trigger] texts(strings)[i] == strings[i]@,
{
}

} // verus!
