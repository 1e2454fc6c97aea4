//! Reading dice notation.

use vstd::prelude::*;
use crate::error::ParseError;
use crate::expression::{DiceExpression, Notation};
use crate::grammar::{
    decimal_value, is_blank, is_digit, is_number, is_separator, is_separator_position, is_sign,
    is_sign_position, is_whitespace, lemma_separator_position, lemma_sign_position, parsed,
};
use crate::text::characters;

verus! {

/// What `parse` returns for a text that denotes `meaning`.
pub open spec fn is_reading(
    meaning: Result<Notation, ParseError>,
    outcome: Result<DiceExpression, ParseError>,
) -> bool {
    match meaning {
        Ok(notation) => outcome is Ok && outcome->Ok_0@ == notation,
        Err(reason) => outcome == Err::<DiceExpression, ParseError>(reason),
    }
}

/// A run of digits denotes at least as much as any of its prefixes.
proof fn lemma_decimal_value_grows(s: Seq<char>, n: int)
    requires
        0 <= n <= s.len(),
    ensures
        decimal_value(s.take(n)) <= decimal_value(s),
    decreases s.len(),
{
    if n == s.len() {
        assert(s.take(n) == s);
    } else {
        assert(s.drop_last().take(n) == s.take(n));
        lemma_decimal_value_grows(s.drop_last(), n);
    }
}

/// Whether `c` is white space.
fn char_is_whitespace(c: char) -> (b: bool)
    ensures
        b == is_whitespace(c),
{
    let u: u32 = c as u32;
    (0x09 <= u && u <= 0x0D) || u == 0x20 || u == 0x85 || u == 0xA0 || u == 0x1680 || (0x2000 <= u
        && u <= 0x200A) || u == 0x2028 || u == 0x2029 || u == 0x202F || u == 0x205F || u == 0x3000
}

/// Whether the text holds nothing but white space.
fn text_is_blank(chars: &Vec<char>) -> (b: bool)
    ensures
        b == is_blank(chars@),
{
    let mut i: usize = 0;
    while i < chars.len()
        invariant
            i <= chars.len(),
            forall|j: int| 0 <= j < i ==> is_whitespace(#[trigger] chars@[j]),
        decreases chars.len() - i,
    {
        if !char_is_whitespace(chars[i]) {
            return false;
        }
        i += 1;
    }
    true
}

/// The index of the first separator, or the length of the text.
fn find_separator(chars: &Vec<char>) -> (at: usize)
    ensures
        is_separator_position(chars@, at as int),
{
    let mut i: usize = 0;
    while i < chars.len()
        invariant
            i <= chars.len(),
            forall|j: int| 0 <= j < i ==> !is_separator(#[trigger] chars@[j]),
        decreases chars.len() - i,
    {
        let c = chars[i];
        if c == 'd' || c == 'D' {
            return i;
        }
        i += 1;
    }
    i
}

/// The index of the first sign at or after `from`, or the length of the text.
fn find_sign(chars: &Vec<char>, from: usize) -> (at: usize)
    requires
        from <= chars.len(),
    ensures
        from <= at <= chars.len(),
        is_sign_position(chars@.skip(from as int), at - from),
{
    let mut i: usize = from;
    while i < chars.len()
        invariant
            from <= i <= chars.len(),
            forall|j: int| 0 <= j < i - from ==> !is_sign(#[trigger] chars@.skip(from as int)[j]),
        decreases chars.len() - i,
    {
        let c = chars[i];
        if c == '+' || c == '-' {
            assert(chars@.skip(from as int)[i - from] == c);
            return i;
        }
        assert(chars@.skip(from as int)[i - from] == c);
        i += 1;
    }
    i
}

/// The value of the digits in `chars[lo..hi]`, where they are a number that
/// does not exceed `limit`.
fn read_number(chars: &Vec<char>, lo: usize, hi: usize, limit: u64) -> (value: Option<u64>)
    requires
        lo <= hi <= chars.len(),
        limit <= 0x1_0000_0000,
    ensures
        value is Some <==> is_number(chars@.subrange(lo as int, hi as int)) && decimal_value(
            chars@.subrange(lo as int, hi as int),
        ) <= limit,
        value matches Some(v) ==> v == decimal_value(chars@.subrange(lo as int, hi as int)),
{
    let ghost segment = chars@.subrange(lo as int, hi as int);
    if lo == hi {
        return None;
    }
    let mut acc: u64 = 0;
    let mut i: usize = lo;
    while i < hi
        invariant
            lo <= i <= hi <= chars.len(),
            limit <= 0x1_0000_0000,
            segment == chars@.subrange(lo as int, hi as int),
            forall|j: int| 0 <= j < i - lo ==> is_digit(#[trigger] segment[j]),
            acc == decimal_value(segment.take(i - lo)),
            acc <= limit,
        decreases hi - i,
    {
        let c = chars[i];
        assert(segment[i - lo] == c);
        if !('0' <= c && c <= '9') {
            return None;
        }
        let ghost before = segment.take(i - lo);
        let ghost now = segment.take(i - lo + 1);
        assert(now.drop_last() == before);
        assert(now.last() == c);
        acc = acc * 10 + (c as u32 - '0' as u32) as u64;
        assert(acc == decimal_value(now));
        if acc > limit {
            proof {
                lemma_decimal_value_grows(segment, i - lo + 1);
            }
            return None;
        }
        i += 1;
    }
    assert(segment.take(hi - lo) == segment);
    Some(acc)
}

/// Reads the expression that `chars` spells.
fn parse_characters(chars: &Vec<char>) -> (outcome: Result<DiceExpression, ParseError>)
    ensures
        is_reading(parsed(chars@), outcome),
{
    let len = chars.len();
    if text_is_blank(chars) {
        return Err(ParseError::Empty);
    }
    let at = find_separator(chars);
    proof {
        lemma_separator_position(chars@, at as int);
    }
    if at == len {
        return Err(ParseError::MissingSeparator);
    }
    let ghost tail = chars@.skip(at + 1);
    assert(chars@.take(at as int) == chars@.subrange(0, at as int));
    let count: u32 = if at == 0 {
        1
    } else {
        match read_number(chars, 0, at, 0xFFFF_FFFF) {
            Some(v) => {
                if v == 0 {
                    return Err(ParseError::InvalidCount);
                }
                v as u32
            },
            None => {
                return Err(ParseError::InvalidCount);
            },
        }
    };
    let sign = find_sign(chars, at + 1);
    proof {
        lemma_sign_position(tail, sign - at - 1);
    }
    assert(tail.take(sign - at - 1) == chars@.subrange(at + 1, sign as int));
    let sides: u32 = match read_number(chars, at + 1, sign, 0xFFFF_FFFF) {
        Some(v) => {
            if v < 2 {
                return Err(ParseError::InvalidSides);
            }
            v as u32
        },
        None => {
            return Err(ParseError::InvalidSides);
        },
    };
    let ghost rest = tail.skip(sign - at - 1);
    assert(rest == chars@.subrange(sign as int, len as int));
    let modifier: i32 = if sign == len {
        0
    } else {
        let negative = chars[sign] == '-';
        assert(rest[0] == chars@[sign as int]);
        assert(rest.drop_first() == chars@.subrange(sign + 1, len as int));
        let limit: u64 = if negative {
            0x8000_0000
        } else {
            0x7FFF_FFFF
        };
        match read_number(chars, sign + 1, len, limit) {
            Some(v) => {
                if negative {
                    (-(v as i64)) as i32
                } else {
                    v as i32
                }
            },
            None => {
                return Err(ParseError::InvalidModifier);
            },
        }
    };
    Ok(DiceExpression::new(count, sides, modifier).unwrap())
}

/// Reads a dice expression from `text`.
///
/// The text is taken as it is: nothing is trimmed, and both `d` and `D`
/// separate count from sides. The result is the expression that the text
/// denotes, or the reason why it denotes none.
pub fn parse(text: &str) -> (outcome: Result<DiceExpression, ParseError>)
    ensures
        is_reading(parsed(text@), outcome),
{
    let chars = characters(text);
    parse_characters(&chars)
}

impl std::str::FromStr for DiceExpression {
    type Err = ParseError;

    /// The same as `parse`, for `str::parse`.
    fn from_str(text: &str) -> (outcome: Result<DiceExpression, ParseError>)
        ensures
            is_reading(parsed(text@), outcome),
    {
        parse(text)
    }
}

} // verus!
