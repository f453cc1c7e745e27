//! Text as a sequence of characters: the searches, cuts and joins that the rest of the
//! crate needs, each proved against a definition on `Seq<char>`.

use vstd::prelude::*;
use vstd::string::*;

verus! {

/// `String::push` of std: the character goes to the end of the string.
pub assume_specification[ String::push ](string: &mut String, ch: char)
    ensures
        final(string)@ == old(string)@.push(ch),
;

/// The characters with the Unicode property `White_Space`.
pub open spec fn is_whitespace(ch: char) -> bool {
    ||| '\u{9}' <= ch && ch <= '\u{d}'
    ||| ch == ' '
    ||| ch == '\u{85}'
    ||| ch == '\u{a0}'
    ||| ch == '\u{1680}'
    ||| '\u{2000}' <= ch && ch <= '\u{200a}'
    ||| ch == '\u{2028}'
    ||| ch == '\u{2029}'
    ||| ch == '\u{202f}'
    ||| ch == '\u{205f}'
    ||| ch == '\u{3000}'
}

/// Whether `ch` has the Unicode property `White_Space`.
pub fn whitespace(ch: char) -> (result: bool)
    ensures
        result == is_whitespace(ch),
{
    ('\u{9}' <= ch && ch <= '\u{d}') || ch == ' ' || ch == '\u{85}' || ch == '\u{a0}' || ch
        == '\u{1680}' || ('\u{2000}' <= ch && ch <= '\u{200a}') || ch == '\u{2028}' || ch
        == '\u{2029}' || ch == '\u{202f}' || ch == '\u{205f}' || ch == '\u{3000}'
}

/// An ASCII capital letter as its small letter, any other character as it is.
pub open spec fn lower_char(ch: char) -> char {
    if 'A' <= ch && ch <= 'Z' {
        (ch as u32 + 32) as char
    } else {
        ch
    }
}

/// `text` with its ASCII capital letters made small.
pub open spec fn lower(text: Seq<char>) -> Seq<char> {
    text.map_values(|ch: char| lower_char(ch))
}

/// `needle` stands in `text` at position `at`.
pub open spec fn occurs_at(text: Seq<char>, needle: Seq<char>, at: int) -> bool {
    0 <= at && at + needle.len() <= text.len() && text.subrange(at, at + needle.len()) == needle
}

/// `needle` stands somewhere in `text`.
pub open spec fn occurs_in(text: Seq<char>, needle: Seq<char>) -> bool {
    exists|at: int| occurs_at(text, needle, at)
}

/// `text` without the whitespace at its start.
pub open spec fn trimmed_start(text: Seq<char>) -> Seq<char>
    decreases text.len(),
{
    if text.len() > 0 && is_whitespace(text[0]) {
        trimmed_start(text.drop_first())
    } else {
        text
    }
}

/// `text` without the whitespace at its end.
pub open spec fn trimmed_end(text: Seq<char>) -> Seq<char>
    decreases text.len(),
{
    if text.len() > 0 && is_whitespace(text.last()) {
        trimmed_end(text.drop_last())
    } else {
        text
    }
}

/// `text` without the whitespace at both ends.
pub open spec fn trimmed(text: Seq<char>) -> Seq<char> {
    trimmed_end(trimmed_start(text))
}

/// The pieces between the separators: one more than there are separators.
pub open spec fn split(text: Seq<char>, separator: char) -> Seq<Seq<char>>
    decreases text.len(),
{
    if text.len() == 0 {
        seq![Seq::<char>::empty()]
    } else {
        let pieces = split(text.drop_last(), separator);
        if text.last() == separator {
            pieces.push(Seq::<char>::empty())
        } else {
            pieces.drop_last().push(pieces.last().push(text.last()))
        }
    }
}

/// The pieces with `separator` between each two of them.
pub open spec fn join(pieces: Seq<Seq<char>>, separator: Seq<char>) -> Seq<char>
    decreases pieces.len(),
{
    if pieces.len() == 0 {
        Seq::<char>::empty()
    } else if pieces.len() == 1 {
        pieces[0]
    } else {
        join(pieces.drop_last(), separator) + separator + pieces.last()
    }
}

/// The words of `text`: its longest runs without whitespace.
pub open spec fn words(text: Seq<char>) -> Seq<Seq<char>>
    decreases text.len(),
{
    if text.len() == 0 {
        Seq::<Seq<char>>::empty()
    } else {
        let before = text.drop_last();
        if is_whitespace(text.last()) {
            words(before)
        } else if before.len() == 0 || is_whitespace(before.last()) {
            words(before).push(seq![text.last()])
        } else {
            words(before).drop_last().push(words(before).last().push(text.last()))
        }
    }
}

/// `left` comes before `right` or is the same, by the code points of their characters.
pub open spec fn lex_le(left: Seq<char>, right: Seq<char>) -> bool
    decreases left.len(),
{
    if left.len() == 0 {
        true
    } else if right.len() == 0 {
        false
    } else if left[0] == right[0] {
        lex_le(left.drop_first(), right.drop_first())
    } else {
        left[0] < right[0]
    }
}

/// The characters of a string.
pub(crate) fn chars_of(text: &str) -> (chars: Vec<char>)
    ensures
        chars@ == text@,
{
    let mut chars: Vec<char> = Vec::new();
    for ch in it: text.chars()
        invariant
            it.seq() == text@,
            chars@ == text@.take(it.index()),
    {
        chars.push(ch);
    }
    chars
}

/// The string of the characters from `start` up to `end`.
pub(crate) fn string_of(chars: &Vec<char>, start: usize, end: usize) -> (string: String)
    requires
        start <= end <= chars@.len(),
    ensures
        string@ == chars@.subrange(start as int, end as int),
{
    let mut string = String::new();
    let mut at: usize = start;
    while at < end
        invariant
            start <= at <= end <= chars@.len(),
            string@ == chars@.subrange(start as int, at as int),
        decreases end - at,
    {
        string.push(chars[at]);
        at = at + 1;
    }
    string
}

/// Whether two strings hold the same characters.
pub fn same_text(left: &str, right: &str) -> (result: bool)
    ensures
        result == (left@ == right@),
{
    let right_chars = chars_of(right);
    let left_chars = chars_of(left);
    if left_chars.len() != right_chars.len() {
        return false;
    }
    let mut at: usize = 0;
    while at < left_chars.len()
        invariant
            at <= left_chars@.len(),
            left_chars@.len() == right_chars@.len(),
            left_chars@ == left@,
            right_chars@ == right@,
            forall|i: int| 0 <= i < at ==> left@[i] == right@[i],
        decreases left_chars.len() - at,
    {
        if left_chars[at] != right_chars[at] {
            return false;
        }
        at = at + 1;
    }
    assert(left@ =~= right@);
    true
}

/// Whether `needle` stands in `chars` at position `at`.
fn found_at(chars: &Vec<char>, needle: &Vec<char>, at: usize) -> (result: bool)
    ensures
        result == occurs_at(chars@, needle@, at as int),
{
    if at > chars.len() || needle.len() > chars.len() - at {
        return false;
    }
    let mut i: usize = 0;
    while i < needle.len()
        invariant
            i <= needle@.len(),
            at + needle@.len() <= chars.len(),
            forall|k: int| 0 <= k < i ==> chars@[at + k] == needle@[k],
        decreases needle.len() - i,
    {
        if chars[at + i] != needle[i] {
            assert(chars@.subrange(at as int, at + needle@.len())[i as int] == chars@[at + i]);
            return false;
        }
        i = i + 1;
    }
    assert(chars@.subrange(at as int, at + needle@.len()) =~= needle@);
    true
}

/// Whether `needle` stands somewhere in `text`.
pub fn contains(text: &str, needle: &str) -> (result: bool)
    ensures
        result == occurs_in(text@, needle@),
{
    let chars = chars_of(text);
    let wanted = chars_of(needle);
    if wanted.len() > chars.len() {
        return false;
    }
    let last: usize = chars.len() - wanted.len();
    let mut at: usize = 0;
    while at <= last
        invariant
            at <= last + 1,
            last == chars@.len() - wanted@.len(),
            chars@.len() <= usize::MAX,
            chars@ == text@,
            wanted@ == needle@,
            forall|k: int| 0 <= k < at ==> !occurs_at(text@, needle@, k),
        decreases last + 1 - at,
    {
        if found_at(&chars, &wanted, at) {
            return true;
        }
        if at == last {
            return false;
        }
        at = at + 1;
    }
    false
}

/// Whether `text` begins with `prefix`.
pub fn starts_with(text: &str, prefix: &str) -> (result: bool)
    ensures
        result == occurs_at(text@, prefix@, 0),
{
    found_at(&chars_of(text), &chars_of(prefix), 0)
}

/// `text` with its ASCII capital letters made small.
pub fn to_lower(text: &str) -> (result: String)
    ensures
        result@ == lower(text@),
{
    let mut result = String::new();
    for ch in it: text.chars()
        invariant
            it.seq() == text@,
            result@ == lower(text@.take(it.index())),
    {
        if 'A' <= ch && ch <= 'Z' {
            result.push((ch as u8 + 32) as char);
        } else {
            result.push(ch);
        }
        assert(lower(text@.take(it.index() + 1)) =~= lower(text@.take(it.index())).push(
            lower_char(ch),
        ));
    }
    assert(text@.take(text@.len() as int) =~= text@);
    result
}

proof fn lemma_trimmed_start(text: Seq<char>, start: int)
    requires
        0 <= start <= text.len(),
        forall|i: int| 0 <= i < start ==> is_whitespace(text[i]),
        start < text.len() ==> !is_whitespace(text[start]),
    ensures
        trimmed_start(text) == text.subrange(start, text.len() as int),
    decreases text.len(),
{
    if start == 0 {
        assert(text.subrange(0, text.len() as int) =~= text);
    } else {
        lemma_trimmed_start(text.drop_first(), start - 1);
        assert(text.drop_first().subrange(start - 1, text.len() - 1) =~= text.subrange(
            start,
            text.len() as int,
        ));
    }
}

proof fn lemma_trimmed_end(text: Seq<char>, end: int)
    requires
        0 <= end <= text.len(),
        forall|i: int| end <= i < text.len() ==> is_whitespace(text[i]),
        end > 0 ==> !is_whitespace(text[end - 1]),
    ensures
        trimmed_end(text) == text.take(end),
    decreases text.len(),
{
    if end == text.len() {
        assert(text.take(end) =~= text);
    } else {
        lemma_trimmed_end(text.drop_last(), end);
        assert(text.drop_last().take(end) =~= text.take(end));
    }
}

/// The number of whitespace characters at the start.
fn leading_whitespace(chars: &Vec<char>) -> (start: usize)
    ensures
        start <= chars@.len(),
        forall|i: int| 0 <= i < start ==> is_whitespace(chars@[i]),
        start < chars@.len() ==> !is_whitespace(chars@[start as int]),
{
    let mut start: usize = 0;
    while start < chars.len() && whitespace(chars[start])
        invariant
            start <= chars@.len(),
            forall|i: int| 0 <= i < start ==> is_whitespace(chars@[i]),
        decreases chars.len() - start,
    {
        start = start + 1;
    }
    start
}

/// `text` without the whitespace at its start.
pub fn trim_start(text: &str) -> (result: String)
    ensures
        result@ == trimmed_start(text@),
{
    let chars = chars_of(text);
    let start: usize = leading_whitespace(&chars);
    proof {
        lemma_trimmed_start(text@, start as int);
    }
    string_of(&chars, start, chars.len())
}

/// `text` without the whitespace at both ends.
pub fn trim(text: &str) -> (result: String)
    ensures
        result@ == trimmed(text@),
{
    let chars = chars_of(text);
    let start: usize = leading_whitespace(&chars);
    let mut end: usize = chars.len();
    while end > start && whitespace(chars[end - 1])
        invariant
            start <= end <= chars@.len(),
            forall|i: int| end <= i < chars@.len() ==> is_whitespace(chars@[i]),
        decreases end,
    {
        end = end - 1;
    }
    proof {
        let rest = text@.subrange(start as int, text@.len() as int);
        lemma_trimmed_start(text@, start as int);
        lemma_trimmed_end(rest, end - start);
        assert(rest.take(end - start) =~= text@.subrange(start as int, end as int));
    }
    string_of(&chars, start, end)
}

/// The views of a list of strings.
pub open spec fn texts(strings: Seq<String>) -> Seq<Seq<char>> {
    strings.map_values(|string: String| string@)
}

/// A text without the separator is one piece, and `split` always gives a piece.
pub proof fn lemma_split_is_not_empty(text: Seq<char>, separator: char)
    ensures
        split(text, separator).len() > 0,
    decreases text.len(),
{
    if text.len() > 0 {
        lemma_split_is_not_empty(text.drop_last(), separator);
    }
}

/// No piece holds the separator.
pub open spec fn pieces_lack(pieces: Seq<Seq<char>>, separator: char) -> bool {
    forall|i: int| 0 <= i < pieces.len() ==> !(#[trigger] pieces[i]).contains(separator)
}

/// The pieces of a text do not hold the separator.
pub proof fn lemma_split_pieces_lack(text: Seq<char>, separator: char)
    ensures
        pieces_lack(split(text, separator), separator),
    decreases text.len(),
{
    if text.len() > 0 {
        let earlier = split(text.drop_last(), separator);
        let pieces = split(text, separator);
        lemma_split_pieces_lack(text.drop_last(), separator);
        lemma_split_is_not_empty(text.drop_last(), separator);
        assert forall|i: int| 0 <= i < pieces.len() implies !(#[trigger] pieces[i]).contains(
            separator,
        ) by {
            if i < pieces.len() - 1 {
                assert(pieces[i] == earlier[i]);
            } else if text.last() != separator {
                let piece = earlier.last();
                assert(!piece.contains(separator));
                assert forall|k: int| 0 <= k < pieces[i].len() implies pieces[i][k]
                    != separator by {
                    if k < piece.len() {
                        assert(piece[k] == pieces[i][k]);
                    }
                }
            }
        }
    }
}

/// A text without the separator, put behind another, lengthens its last piece.
proof fn lemma_split_append(text: Seq<char>, tail: Seq<char>, separator: char)
    requires
        !tail.contains(separator),
    ensures
        split(text + tail, separator) == split(text, separator).drop_last().push(
            split(text, separator).last() + tail,
        ),
    decreases tail.len(),
{
    let pieces = split(text, separator);
    lemma_split_is_not_empty(text, separator);
    if tail.len() == 0 {
        assert(text + tail =~= text);
        assert(pieces.last() + tail =~= pieces.last());
        assert(pieces.drop_last().push(pieces.last()) =~= pieces);
    } else {
        let shorter = tail.drop_last();
        assert forall|k: int| 0 <= k < shorter.len() implies shorter[k] != separator by {
            assert(tail[k] != separator);
        }
        lemma_split_append(text, shorter, separator);
        assert((text + tail).drop_last() =~= text + shorter);
        assert((text + tail).last() == tail.last());
        assert(tail[tail.len() - 1] != separator);
        let earlier = pieces.drop_last().push(pieces.last() + shorter);
        assert(earlier.drop_last() =~= pieces.drop_last());
        assert(earlier.last().push(tail.last()) =~= pieces.last() + tail);
    }
}

/// Splitting a joined list gives the list back, where no piece holds the separator.
pub proof fn law_split_undoes_join(pieces: Seq<Seq<char>>, separator: char)
    requires
        pieces.len() > 0,
        pieces_lack(pieces, separator),
    ensures
        split(join(pieces, seq![separator]), separator) == pieces,
    decreases pieces.len(),
{
    let last = pieces.last();
    assert(!pieces[pieces.len() - 1].contains(separator));
    if pieces.len() == 1 {
        let nothing = Seq::<char>::empty();
        lemma_split_append(nothing, last, separator);
        assert(nothing + last =~= last);
        assert(split(nothing, separator) =~= seq![nothing]);
        assert(split(last, separator) =~= pieces);
    } else {
        let earlier = pieces.drop_last();
        assert forall|i: int| 0 <= i < earlier.len() implies !(#[trigger] earlier[i]).contains(
            separator,
        ) by {
            assert(!pieces[i].contains(separator));
        }
        law_split_undoes_join(earlier, separator);
        let front = join(earlier, seq![separator]) + seq![separator];
        assert(front.drop_last() =~= join(earlier, seq![separator]));
        assert(split(front, separator) =~= earlier.push(Seq::<char>::empty()));
        lemma_split_append(front, last, separator);
        assert(Seq::<char>::empty() + last =~= last);
        assert(split(front + last, separator) =~= pieces);
    }
}

/// Joining the pieces of a text with the separator gives the text back.
pub proof fn law_join_undoes_split(text: Seq<char>, separator: char)
    ensures
        join(split(text, separator), seq![separator]) == text,
    decreases text.len(),
{
    let pieces = split(text, separator);
    if text.len() == 0 {
        assert(pieces[0] =~= text);
    } else {
        let before = text.drop_last();
        let earlier = split(before, separator);
        law_join_undoes_split(before, separator);
        lemma_split_is_not_empty(before, separator);
        if text.last() == separator {
            assert(pieces.drop_last() =~= earlier);
            assert(join(pieces, seq![separator]) =~= text);
        } else {
            assert(pieces.drop_last() =~= earlier.drop_last());
            if earlier.len() == 1 {
                assert(pieces[0] =~= earlier[0].push(text.last()));
            }
            assert(join(pieces, seq![separator]) =~= join(earlier, seq![separator]).push(
                text.last(),
            ));
            assert(text =~= before.push(text.last()));
        }
    }
}

/// The pieces of `text` between the separators.
pub fn split_on(text: &str, separator: char) -> (pieces: Vec<String>)
    ensures
        texts(pieces@) == split(text@, separator),
{
    let mut pieces: Vec<String> = Vec::new();
    let mut current = String::new();
    assert(texts(pieces@).push(current@) =~= split(text@.take(0), separator));
    for ch in it: text.chars()
        invariant
            it.seq() == text@,
            texts(pieces@).push(current@) == split(text@.take(it.index()), separator),
    {
        let ghost taken = text@.take(it.index() + 1);
        assert(taken.drop_last() =~= text@.take(it.index()));
        assert(taken.last() == ch);
        if ch == separator {
            let ghost before = texts(pieces@).push(current@);
            pieces.push(current);
            assert(texts(pieces@) =~= before);
            current = String::new();
        } else {
            let ghost old_current = current@;
            current.push(ch);
            assert(texts(pieces@).push(old_current).drop_last() =~= texts(pieces@));
        }
    }
    assert(text@.take(text@.len() as int) =~= text@);
    let ghost before = texts(pieces@).push(current@);
    pieces.push(current);
    assert(texts(pieces@) =~= before);
    pieces
}

/// The pieces with `separator` between each two of them.
pub fn join_with(pieces: &Vec<String>, separator: &str) -> (result: String)
    ensures
        result@ == join(texts(pieces@), separator@),
{
    let mut result = String::new();
    let mut at: usize = 0;
    while at < pieces.len()
        invariant
            at <= pieces@.len(),
            result@ == join(texts(pieces@).take(at as int), separator@),
        decreases pieces.len() - at,
    {
        let ghost taken = texts(pieces@).take(at + 1);
        assert(taken.drop_last() =~= texts(pieces@).take(at as int));
        assert(taken.last() == pieces@[at as int]@);
        if at > 0 {
            result.append(separator);
        } else {
            assert(taken =~= seq![pieces@[0]@]);
        }
        result.append(pieces[at].as_str());
        at = at + 1;
        assert(result@ =~= join(taken, separator@));
    }
    assert(texts(pieces@).take(pieces@.len() as int) =~= texts(pieces@));
    result
}

/// The words of `text`.
pub fn split_words(text: &str) -> (result: Vec<String>)
    ensures
        texts(result@) == words(text@),
{
    let mut result: Vec<String> = Vec::new();
    let mut current = String::new();
    let mut inside = false;
    for ch in it: text.chars()
        invariant
            it.seq() == text@,
            inside == (it.index() > 0 && !is_whitespace(text@[it.index() - 1])),
            inside ==> texts(result@).push(current@) == words(text@.take(it.index())),
            !inside ==> current@.len() == 0 && texts(result@) == words(text@.take(it.index())),
    {
        let ghost taken = text@.take(it.index() + 1);
        assert(taken.drop_last() =~= text@.take(it.index()));
        assert(taken.last() == ch);
        if whitespace(ch) {
            if inside {
                let ghost before = texts(result@).push(current@);
                result.push(current);
                assert(texts(result@) =~= before);
                current = String::new();
            }
            inside = false;
        } else {
            let ghost old_current = current@;
            current.push(ch);
            if inside {
                assert(texts(result@).push(old_current).drop_last() =~= texts(result@));
            } else {
                assert(current@ =~= seq![ch]);
            }
            inside = true;
        }
    }
    assert(text@.take(text@.len() as int) =~= text@);
    if inside {
        let ghost before = texts(result@).push(current@);
        result.push(current);
        assert(texts(result@) =~= before);
    }
    result
}

proof fn lemma_lex_skip(left: Seq<char>, right: Seq<char>, shared: int)
    requires
        0 <= shared <= left.len(),
        shared <= right.len(),
        left.take(shared) == right.take(shared),
    ensures
        lex_le(left, right) == lex_le(
            left.subrange(shared, left.len() as int),
            right.subrange(shared, right.len() as int),
        ),
    decreases shared,
{
    if shared == 0 {
        assert(left.subrange(0, left.len() as int) =~= left);
        assert(right.subrange(0, right.len() as int) =~= right);
    } else {
        assert(left[0] == left.take(shared)[0]);
        assert(right[0] == right.take(shared)[0]);
        let rest_left = left.drop_first();
        let rest_right = right.drop_first();
        assert(rest_left.take(shared - 1) =~= left.take(shared).drop_first());
        assert(rest_right.take(shared - 1) =~= right.take(shared).drop_first());
        lemma_lex_skip(rest_left, rest_right, shared - 1);
        assert(rest_left.subrange(shared - 1, rest_left.len() as int) =~= left.subrange(
            shared,
            left.len() as int,
        ));
        assert(rest_right.subrange(shared - 1, rest_right.len() as int) =~= right.subrange(
            shared,
            right.len() as int,
        ));
    }
}

/// Whether `left` comes before `right` or is the same.
pub fn in_order(left: &str, right: &str) -> (result: bool)
    ensures
        result == lex_le(left@, right@),
{
    let left_chars = chars_of(left);
    let right_chars = chars_of(right);
    let mut at: usize = 0;
    while at < left_chars.len() && at < right_chars.len() && left_chars[at] == right_chars[at]
        invariant
            at <= left_chars@.len(),
            at <= right_chars@.len(),
            left_chars@ == left@,
            right_chars@ == right@,
            left@.take(at as int) == right@.take(at as int),
        decreases left_chars.len() - at,
    {
        assert(left@.take(at + 1) =~= left@.take(at as int).push(left@[at as int]));
        assert(right@.take(at + 1) =~= right@.take(at as int).push(right@[at as int]));
        at = at + 1;
    }
    proof {
        lemma_lex_skip(left@, right@, at as int);
    }
    if at == left_chars.len() {
        true
    } else if at == right_chars.len() {
        false
    } else {
        left_chars[at] < right_chars[at]
    }
}

/// Of two texts one comes before the other or is the same.
pub proof fn lemma_lex_total(left: Seq<char>, right: Seq<char>)
    ensures
        lex_le(left, right) || lex_le(right, left),
    decreases left.len(),
{
    if left.len() > 0 && right.len() > 0 && left[0] == right[0] {
        lemma_lex_total(left.drop_first(), right.drop_first());
    }
}

/// Two texts that each come before the other or are the same, are the same.
pub proof fn lemma_lex_antisymmetric(left: Seq<char>, right: Seq<char>)
    requires
        lex_le(left, right),
        lex_le(right, left),
    ensures
        left == right,
    decreases left.len(),
{
    if left.len() > 0 && right.len() > 0 {
        assert(left[0] == right[0]);
        lemma_lex_antisymmetric(left.drop_first(), right.drop_first());
        assert(left.len() == left.drop_first().len() + 1);
        assert(right.len() == right.drop_first().len() + 1);
        assert forall|i: int| 0 <= i < left.len() implies left[i] == right[i] by {
            if i > 0 {
                assert(left[i] == left.drop_first()[i - 1]);
                assert(right[i] == right.drop_first()[i - 1]);
            }
        }
    }
    assert(left =~= right);
}

/// The order of texts is transitive.
pub proof fn lemma_lex_transitive(first: Seq<char>, second: Seq<char>, third: Seq<char>)
    requires
        lex_le(first, second),
        lex_le(second, third),
    ensures
        lex_le(first, third),
    decreases first.len(),
{
    if first.len() > 0 && first[0] == second[0] && second[0] == third[0] {
        lemma_lex_transitive(first.drop_first(), second.drop_first(), third.drop_first());
    }
}

} // verus!
