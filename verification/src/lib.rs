//! Dice notation: reading expressions such as `2d6+3` and rolling them
//! against a source of randomness that the caller supplies.
//!
//! `parse` turns a text into a `DiceExpression` or says why it is none;
//! `evaluate` rolls an expression; `parse_and_roll` does one after the other.

pub mod error;
pub mod expression;
pub mod grammar;
pub mod laws;
pub mod parser;
pub mod roll;
pub mod source;
pub mod text;

pub use error::ParseError;
pub use expression::DiceExpression;
pub use parser::parse;
pub use roll::{evaluate, parse_and_roll, RollResult};
pub use source::{FixedSource, RandomSource, ScriptedSource};
