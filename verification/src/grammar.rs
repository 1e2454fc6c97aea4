//! What dice notation means, stated over sequences of characters.
//!
//! ```text
//! expr     := [count] "d" sides [modifier]      "d" may be written "D"
//! count    := digit+                            omitted: 1
//! sides    := digit+                            at least 2
//! modifier := ("+" | "-") digit+                omitted: 0
//! ```
//!
//! The text is split at its first separator, and what follows the separator
//! is split at its first sign. Nothing is trimmed: whitespace inside or
//! around an expression makes the segment it falls in malformed.

use vstd::prelude::*;
use crate::error::ParseError;
use crate::expression::Notation;

verus! {

/// One of the ten ASCII digits.
pub open spec fn is_digit(c: char) -> bool {
    '0' <= c <= '9'
}

/// The number that a digit stands for.
pub open spec fn digit_value(c: char) -> nat
    recommends
        is_digit(c),
{
    (c as u32 - '0' as u32) as nat
}

/// The letter between count and sides, in either case.
pub open spec fn is_separator(c: char) -> bool {
    c == 'd' || c == 'D'
}

/// The character that opens a modifier.
pub open spec fn is_sign(c: char) -> bool {
    c == '+' || c == '-'
}

/// A character that Unicode counts as white space.
pub open spec fn is_whitespace(c: char) -> bool {
    let u = c as u32;
    ||| 0x09 <= u <= 0x0D
    ||| u == 0x20
    ||| u == 0x85
    ||| u == 0xA0
    ||| u == 0x1680
    ||| 0x2000 <= u <= 0x200A
    ||| u == 0x2028
    ||| u == 0x2029
    ||| u == 0x202F
    ||| u == 0x205F
    ||| u == 0x3000
}

/// Every character of `s` is whitespace; the empty text is blank.
pub open spec fn is_blank(s: Seq<char>) -> bool {
    forall|i: int| 0 <= i < s.len() ==> is_whitespace(#[trigger] s[i])
}

/// A non-empty run of digits.
pub open spec fn is_number(s: Seq<char>) -> bool {
    &&& s.len() > 0
    &&& forall|i: int| 0 <= i < s.len() ==> is_digit(#[trigger] s[i])
}

/// The number that a run of digits denotes in base ten. It is not bounded:
/// leading zeros do not count, and no run is too long to have a value.
pub open spec fn decimal_value(s: Seq<char>) -> nat
    decreases s.len(),
{
    if s.len() == 0 {
        0
    } else {
        decimal_value(s.drop_last()) * 10 + digit_value(s.last())
    }
}

/// `i` is where a separator first occurs in `s`, or the length of `s` if
/// there is none.
pub open spec fn is_separator_position(s: Seq<char>, i: int) -> bool {
    &&& 0 <= i <= s.len()
    &&& forall|j: int| 0 <= j < i ==> !is_separator(#[trigger] s[j])
    &&& i < s.len() ==> is_separator(s[i])
}

/// `i` is where a sign first occurs in `s`, or the length of `s` if there is
/// none.
pub open spec fn is_sign_position(s: Seq<char>, i: int) -> bool {
    &&& 0 <= i <= s.len()
    &&& forall|j: int| 0 <= j < i ==> !is_sign(#[trigger] s[j])
    &&& i < s.len() ==> is_sign(s[i])
}

/// Where the first separator of `s` stands; the length of `s` if it has none.
pub open spec fn separator_position(s: Seq<char>) -> int {
    choose|i: int| is_separator_position(s, i)
}

/// Where the first sign of `s` stands; the length of `s` if it has none.
pub open spec fn sign_position(s: Seq<char>) -> int {
    choose|i: int| is_sign_position(s, i)
}

/// The number of dice that the text before the separator asks for.
pub open spec fn count_of(segment: Seq<char>) -> Option<nat> {
    if segment.len() == 0 {
        Some(1)
    } else if is_number(segment) && 1 <= decimal_value(segment) <= u32::MAX {
        Some(decimal_value(segment))
    } else {
        None
    }
}

/// The number of faces that the text between separator and sign asks for.
pub open spec fn sides_of(segment: Seq<char>) -> Option<nat> {
    if is_number(segment) && 2 <= decimal_value(segment) <= u32::MAX {
        Some(decimal_value(segment))
    } else {
        None
    }
}

/// The modifier that the text from the sign onwards asks for; that text is
/// empty where the expression has no sign.
pub open spec fn modifier_of(segment: Seq<char>) -> Option<int> {
    if segment.len() == 0 {
        Some(0)
    } else {
        let digits = segment.drop_first();
        let magnitude = decimal_value(digits) as int;
        let value = if segment[0] == '-' {
            -magnitude
        } else {
            magnitude
        };
        if is_number(digits) && i32::MIN <= value <= i32::MAX {
            Some(value)
        } else {
            None
        }
    }
}

/// What a text denotes: the one expression it spells, or the one reason why
/// it spells none.
pub open spec fn parsed(s: Seq<char>) -> Result<Notation, ParseError> {
    let at = separator_position(s);
    let tail = s.skip(at + 1);
    let sign = sign_position(tail);
    let count = count_of(s.take(at));
    let sides = sides_of(tail.take(sign));
    let modifier = modifier_of(tail.skip(sign));
    if is_blank(s) {
        Err(ParseError::Empty)
    } else if at == s.len() {
        Err(ParseError::MissingSeparator)
    } else if count is None {
        Err(ParseError::InvalidCount)
    } else if sides is None {
        Err(ParseError::InvalidSides)
    } else if modifier is None {
        Err(ParseError::InvalidModifier)
    } else {
        Ok(Notation { count: count->0, sides: sides->0, modifier: modifier->0 })
    }
}

/// There is exactly one first separator position.
pub proof fn lemma_separator_position(s: Seq<char>, i: int)
    requires
        is_separator_position(s, i),
    ensures
        separator_position(s) == i,
{
    let j = separator_position(s);
    assert(is_separator_position(s, j));
    if j < i {
        assert(!is_separator(s[j]));
    } else if i < j {
        assert(!is_separator(s[i]));
    }
}

/// There is exactly one first sign position.
pub proof fn lemma_sign_position(s: Seq<char>, i: int)
    requires
        is_sign_position(s, i),
    ensures
        sign_position(s) == i,
{
    let j = sign_position(s);
    assert(is_sign_position(s, j));
    if j < i {
        assert(!is_sign(s[j]));
    } else if i < j {
        assert(!is_sign(s[i]));
    }
}

} // verus!
