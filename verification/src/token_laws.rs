//! What the estimate of the tokens of a text satisfies.

use crate::tokens::{is_non_western, text_units, token_count};
use vstd::prelude::*;

verus! {

/// A character lies outside the Latin blocks if its code point lies in none of the seven ranges:
/// Basic Latin, Latin-1 Supplement and Latin Extended A and B, which follow one another, Latin
/// Extended Additional, Latin Extended-C, Latin Extended-D and Latin Extended-E.
pub proof fn law_latin_characters(ch: char)
    ensures
        is_non_western(ch) <==> {
            let code = ch as u32;
            &&& 0x024f < code
            &&& code < 0x1e00 || 0x1eff < code
            &&& code < 0x2c60 || 0x2c7f < code
            &&& code < 0xa720 || 0xa7ff < code
            &&& code < 0xab30 || 0xab6f < code
        },
{
}

/// The quarter tokens of a text are those of its parts: one for each character of the Latin
/// blocks, four for each other.
pub proof fn law_units_add_up(first: Seq<char>, second: Seq<char>, ch: char)
    ensures
        text_units(first + second) == text_units(first) + text_units(second),
        text_units(Seq::<char>::empty()) == 0,
        text_units(seq![ch]) == if is_non_western(ch) {
            4nat
        } else {
            1nat
        },
    decreases second.len(),
{
    reveal_with_fuel(text_units, 2);
    if second.len() == 0 {
        assert(first + second =~= first);
    } else {
        law_units_add_up(first, second.drop_last(), ch);
        assert((first + second).drop_last() =~= first + second.drop_last());
    }
    assert(seq![ch].drop_last() =~= Seq::<char>::empty());
}

/// The quarter tokens of a text are between its length and four times its length.
pub proof fn law_units_are_bounded(text: Seq<char>)
    ensures
        text.len() <= text_units(text) <= 4 * text.len(),
    decreases text.len(),
{
    if text.len() > 0 {
        law_units_are_bounded(text.drop_last());
    }
}

/// The tokens of a text are its quarter tokens by four, times 1.5 below 100 tokens, 1.3 below 200,
/// 1.25 below 300, 1.2 below 800 and 1 from there on, rounded down, and at most what an `i32`
/// holds.
pub proof fn law_tokens_are_rounded_down(text: Seq<char>)
    ensures
        ({
            let units = text_units(text);
            let tokens = token_count(text);
            &&& units < 4 * 100 ==> 8 * tokens <= 3 * units < 8 * (tokens + 1)
            &&& 4 * 100 <= units < 4 * 200 ==> 40 * tokens <= 13 * units < 40 * (tokens + 1)
            &&& 4 * 200 <= units < 4 * 300 ==> 16 * tokens <= 5 * units < 16 * (tokens + 1)
            &&& 4 * 300 <= units < 4 * 800 ==> 10 * tokens <= 3 * units < 10 * (tokens + 1)
            &&& 4 * 800 <= units <= 4 * i32::MAX ==> 4 * tokens <= units < 4 * (tokens + 1)
            &&& units > 4 * i32::MAX ==> tokens == i32::MAX
        }),
{
}

/// A text without characters has no tokens.
pub proof fn law_no_text_has_no_tokens()
    ensures
        token_count(Seq::<char>::empty()) == 0,
{
}

} // verus!
