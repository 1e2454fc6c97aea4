//! The ways in which a piece of text can fail to be dice notation.

use vstd::prelude::*;

verus! {

/// Why a text was rejected. Every rejected text has exactly one of these
/// reasons; where several segments are malformed, the leftmost one decides.
#[derive(Debug, Clone, Copy, PartialEq, Eq, Hash, Structural)]
pub enum ParseError {
    /// The text is empty or consists of whitespace only.
    Empty,
    /// The text holds neither `d` nor `D`.
    MissingSeparator,
    /// What stands before the separator is not a decimal number from 1 to
    /// `u32::MAX`.
    InvalidCount,
    /// What stands after the separator, up to the sign if there is one, is
    /// not a decimal number from 2 to `u32::MAX`.
    InvalidSides,
    /// A sign is present, but what follows it is not a decimal number that,
    /// with the sign applied, fits an `i32`.
    InvalidModifier,
}

impl ParseError {
    /// The sentence that says what was wrong with the text.
    pub open spec fn sentence(self) -> Seq<char> {
        match self {
            ParseError::Empty => "the text is empty"@,
            ParseError::MissingSeparator => "the text has no 'd' between count and sides"@,
            ParseError::InvalidCount => "the count is not a whole number from 1 to 4294967295"@,
            ParseError::InvalidSides => "the sides are not a whole number from 2 to 4294967295"@,
            ParseError::InvalidModifier =>
                "the modifier is not a whole number from -2147483648 to 2147483647"@,
        }
    }

    /// Says what was wrong with the text.
    pub fn message(&self) -> (text: &'static str)
        ensures
            text@ == self.sentence(),
    {
        match self {
            ParseError::Empty => "the text is empty",
            ParseError::MissingSeparator => "the text has no 'd' between count and sides",
            ParseError::InvalidCount => "the count is not a whole number from 1 to 4294967295",
            ParseError::InvalidSides => "the sides are not a whole number from 2 to 4294967295",
            ParseError::InvalidModifier =>
                "the modifier is not a whole number from -2147483648 to 2147483647",
        }
    }
}

} // verus!
