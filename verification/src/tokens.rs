//! The estimate of how many tokens a text has.

use vstd::prelude::*;
use vstd::string::*;

verus! {

/// The largest count.
pub const MAX_TOKENS: u64 = 0x7fff_ffff;

/// Beyond this many quarter tokens every text counts as `MAX_TOKENS`.
const UNIT_CAP: u64 = 0x2_0000_0000;

/// The characters outside the Latin blocks.
pub open spec fn is_non_western(ch: char) -> bool {
    !{
        ||| ch <= '\u{24f}'
        ||| '\u{1e00}' <= ch && ch <= '\u{1eff}'
        ||| '\u{2c60}' <= ch && ch <= '\u{2c7f}'
        ||| '\u{a720}' <= ch && ch <= '\u{a7ff}'
        ||| '\u{ab30}' <= ch && ch <= '\u{ab6f}'
    }
}

/// Whether `ch` lies outside the Latin blocks.
pub fn is_non_western_char(ch: char) -> (result: bool)
    ensures
        result == is_non_western(ch),
{
    !(ch <= '\u{24f}' || ('\u{1e00}' <= ch && ch <= '\u{1eff}') || ('\u{2c60}' <= ch && ch
        <= '\u{2c7f}') || ('\u{a720}' <= ch && ch <= '\u{a7ff}') || ('\u{ab30}' <= ch && ch
        <= '\u{ab6f}'))
}

/// The quarter tokens of one character: a whole token outside the Latin blocks.
pub open spec fn char_units(ch: char) -> nat {
    if is_non_western(ch) {
        4
    } else {
        1
    }
}

/// The quarter tokens of a text.
pub open spec fn text_units(text: Seq<char>) -> nat
    decreases text.len(),
{
    if text.len() == 0 {
        0
    } else {
        text_units(text.drop_last()) + char_units(text.last())
    }
}

/// The tokens for `units` quarter tokens, rounded down. Short texts count for more: below
/// 100 tokens half as much again, below 200 three tenths more, below 300 a quarter more,
/// below 800 a fifth more.
pub open spec fn tokens_of_units(units: nat) -> nat {
    if units < 400 {
        units * 3 / 8
    } else if units < 800 {
        units * 13 / 40
    } else if units < 1200 {
        units * 5 / 16
    } else if units < 3200 {
        units * 3 / 10
    } else if units / 4 < MAX_TOKENS {
        units / 4
    } else {
        MAX_TOKENS as nat
    }
}

/// The tokens of a text.
pub open spec fn token_count(text: Seq<char>) -> nat {
    tokens_of_units(text_units(text))
}

/// The tokens of a text.
pub fn count_tokens(text: &str) -> (count: i32)
    ensures
        count == token_count(text@),
{
    let mut units: u64 = 0;
    for ch in it: text.chars()
        invariant
            it.seq() == text@,
            units <= UNIT_CAP + 4,
            units == text_units(text@.take(it.index())) || (units >= UNIT_CAP && text_units(
                text@.take(it.index()),
            ) >= UNIT_CAP),
    {
        assert(text@.take(it.index() + 1).drop_last() =~= text@.take(it.index()));
        if units < UNIT_CAP {
            if is_non_western_char(ch) {
                units = units + 4;
            } else {
                units = units + 1;
            }
        }
    }
    assert(text@.take(text@.len() as int) =~= text@);
    let tokens: u64 = if units < 400 {
        units * 3 / 8
    } else if units < 800 {
        units * 13 / 40
    } else if units < 1200 {
        units * 5 / 16
    } else if units < 3200 {
        units * 3 / 10
    } else if units / 4 < MAX_TOKENS {
        units / 4
    } else {
        MAX_TOKENS
    };
    tokens as i32
}

} // verus!
