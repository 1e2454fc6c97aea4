//! What holds of reading and rolling in general.

use vstd::prelude::*;
use vstd::arithmetic::div_mod::{
    lemma_fundamental_div_mod, lemma_mod_bound, lemma_mod_multiples_vanish, lemma_small_mod,
};
use crate::error::ParseError;
use crate::expression::{DiceExpression, Notation};
use crate::grammar::{
    count_of, decimal_value, is_blank, is_digit, is_number, is_separator, is_sign, is_whitespace,
    lemma_separator_position, lemma_sign_position, modifier_of, parsed, sides_of,
};
use crate::parser::is_reading;
use crate::roll::{face, is_evaluation, lemma_face_is_on_die, rolled, sum, Outcome};
use crate::source::{
    is_deterministic, lemma_draws_are_determined, lemma_fixed_source_draws, may_yield_all,
    FixedSource, RandomSource,
};

verus! {

/// The digit that stands for a number below ten.
pub open spec fn digit_of(d: nat) -> char
    recommends
        d < 10,
{
    if d == 0 {
        '0'
    } else if d == 1 {
        '1'
    } else if d == 2 {
        '2'
    } else if d == 3 {
        '3'
    } else if d == 4 {
        '4'
    } else if d == 5 {
        '5'
    } else if d == 6 {
        '6'
    } else if d == 7 {
        '7'
    } else if d == 8 {
        '8'
    } else {
        '9'
    }
}

/// A number written in base ten without leading zeros.
pub open spec fn decimal_digits(n: nat) -> Seq<char>
    decreases n,
{
    if n < 10 {
        seq![digit_of(n)]
    } else {
        decimal_digits(n / 10).push(digit_of(n % 10))
    }
}

/// A number written in base ten is a run of digits that denotes the number.
pub proof fn lemma_decimal_digits_denote(n: nat)
    ensures
        is_number(decimal_digits(n)),
        decimal_value(decimal_digits(n)) == n,
    decreases n,
{
    let text = decimal_digits(n);
    if n < 10 {
        assert(text.drop_last() == Seq::<char>::empty());
        assert(decimal_value(text.drop_last()) == 0);
        assert(text.last() == digit_of(n));
    } else {
        lemma_decimal_digits_denote(n / 10);
        assert(text.drop_last() == decimal_digits(n / 10));
        assert(text.last() == digit_of(n % 10));
        assert forall|i: int| 0 <= i < text.len() implies is_digit(#[trigger] text[i]) by {
            if i < text.len() - 1 {
                assert(text[i] == decimal_digits(n / 10)[i]);
            }
        }
    }
}

/// A text put together from what stands before the separator, the
/// separator, what stands between separator and sign, and what stands from
/// the sign onwards denotes what its three segments denote. A segment that
/// denotes nothing has the text rejected for it; of several, the leftmost.
pub proof fn lemma_notation_is_composed(
    count_text: Seq<char>,
    separator: char,
    sides_text: Seq<char>,
    modifier_text: Seq<char>,
)
    requires
        forall|i: int| 0 <= i < count_text.len() ==> !is_separator(#[trigger] count_text[i]),
        is_separator(separator),
        forall|i: int| 0 <= i < sides_text.len() ==> !is_sign(#[trigger] sides_text[i]),
        modifier_text.len() > 0 ==> is_sign(modifier_text[0]),
    ensures
        parsed(count_text + seq![separator] + sides_text + modifier_text) == (if count_of(
            count_text,
        ) is None {
            Err::<Notation, ParseError>(ParseError::InvalidCount)
        } else if sides_of(sides_text) is None {
            Err::<Notation, ParseError>(ParseError::InvalidSides)
        } else if modifier_of(modifier_text) is None {
            Err::<Notation, ParseError>(ParseError::InvalidModifier)
        } else {
            Ok::<Notation, ParseError>(
                Notation {
                    count: count_of(count_text)->0,
                    sides: sides_of(sides_text)->0,
                    modifier: modifier_of(modifier_text)->0,
                },
            )
        }),
{
    let s = count_text + seq![separator] + sides_text + modifier_text;
    let at = count_text.len() as int;
    assert(s[at] == separator);
    assert(!is_whitespace(s[at]));
    assert forall|j: int| 0 <= j < at implies !is_separator(#[trigger] s[j]) by {
        assert(s[j] == count_text[j]);
    }
    lemma_separator_position(s, at);
    assert(s.take(at) == count_text);
    let tail = s.skip(at + 1);
    assert(tail == sides_text + modifier_text);
    let sign = sides_text.len() as int;
    assert forall|j: int| 0 <= j < sign implies !is_sign(#[trigger] tail[j]) by {
        assert(tail[j] == sides_text[j]);
    }
    if modifier_text.len() > 0 {
        assert(tail[sign] == modifier_text[0]);
    }
    lemma_sign_position(tail, sign);
    assert(tail.take(sign) == sides_text);
    assert(tail.skip(sign) == modifier_text);
}

/// For every count from 1 and every number of faces from 2, both within
/// `u32`, the text made of the count, `d` and the number of faces, the
/// numbers written in base ten, denotes that count and that number of faces
/// with a modifier of zero.
pub proof fn lemma_count_d_sides_is_read(count: nat, sides: nat)
    requires
        1 <= count <= u32::MAX,
        2 <= sides <= u32::MAX,
    ensures
        parsed(decimal_digits(count) + seq!['d'] + decimal_digits(sides)) == Ok::<
            Notation,
            ParseError,
        >(Notation { count, sides, modifier: 0 }),
{
    let count_text = decimal_digits(count);
    let sides_text = decimal_digits(sides);
    lemma_decimal_digits_denote(count);
    lemma_decimal_digits_denote(sides);
    assert forall|i: int| 0 <= i < count_text.len() implies !is_separator(
        #[trigger] count_text[i],
    ) by {
        assert(is_digit(count_text[i]));
    }
    assert forall|i: int| 0 <= i < sides_text.len() implies !is_sign(#[trigger] sides_text[i]) by {
        assert(is_digit(sides_text[i]));
    }
    lemma_notation_is_composed(count_text, 'd', sides_text, Seq::empty());
    assert(count_text + seq!['d'] + sides_text + Seq::<char>::empty() == count_text + seq!['d']
        + sides_text);
}

/// A text without `d` and `D` that is not blank is rejected for its missing
/// separator. (A blank text has no separator either, and is rejected as
/// empty.)
pub proof fn lemma_no_separator_is_rejected(text: Seq<char>)
    requires
        !is_blank(text),
        forall|i: int| 0 <= i < text.len() ==> !is_separator(#[trigger] text[i]),
    ensures
        parsed(text) == Err::<Notation, ParseError>(ParseError::MissingSeparator),
{
    lemma_separator_position(text, text.len() as int);
}

/// A blank text is rejected as empty, whatever else may be said of it.
pub proof fn lemma_blank_is_rejected(text: Seq<char>)
    requires
        is_blank(text),
    ensures
        parsed(text) == Err::<Notation, ParseError>(ParseError::Empty),
{
}

/// Whatever a text denotes is valid and fits the machine types.
pub proof fn lemma_parsed_is_valid(text: Seq<char>)
    ensures
        parsed(text) matches Ok(notation) ==> notation.is_valid() && notation.is_representable(),
{
}

/// Reading is a function of the text: two readings of one text are equal.
pub proof fn lemma_reading_is_repeatable(
    text: Seq<char>,
    first: Result<DiceExpression, ParseError>,
    second: Result<DiceExpression, ParseError>,
)
    requires
        is_reading(parsed(text), first),
        is_reading(parsed(text), second),
    ensures
        first == second,
{
    if parsed(text) is Ok {
        first->Ok_0.lemma_view_is_injective(second->Ok_0);
    }
}

/// Whatever the source hands out, rolling a valid expression gives one roll
/// for each die, each from 1 to the number of faces, and a total that is
/// their sum plus the modifier.
pub proof fn lemma_rolled_is_outcome(notation: Notation, draws: Seq<u64>)
    requires
        notation.is_valid(),
        draws.len() == notation.count,
    ensures
        rolled(notation, draws).is_outcome_of(notation),
{
    let shown = rolled(notation, draws).individual_rolls;
    assert forall|i: int| 0 <= i < shown.len() implies 1 <= #[trigger] shown[i]
        <= notation.sides by {
        lemma_face_is_on_die(draws[i] as int, notation.sides as int);
    }
}

/// Rolling is a function of the expression and of what the source hands
/// out: two rolls of one expression, made with deterministic sources that
/// start from states that are alike, give the same outcome and leave the
/// sources in states that are alike.
pub proof fn lemma_evaluation_is_repeatable<R: RandomSource>(
    notation: Notation,
    first_start: R,
    first: Outcome,
    first_end: R,
    second_start: R,
    second: Outcome,
    second_end: R,
)
    requires
        is_deterministic::<R>(),
        first_start.alike(&second_start),
        is_evaluation(notation, first_start, first, first_end),
        is_evaluation(notation, second_start, second, second_end),
    ensures
        first == second,
        first_end.alike(&second_end),
{
    let sides = notation.sides as u32;
    let draws_a = choose|draws: Seq<u64>| #[trigger]
        may_yield_all(first_start, sides, draws, first_end) && draws.len() == notation.count
            && first == rolled(notation, draws);
    let draws_b = choose|draws: Seq<u64>| #[trigger]
        may_yield_all(second_start, sides, draws, second_end) && draws.len() == notation.count
            && second == rolled(notation, draws);
    lemma_draws_are_determined(
        sides,
        first_start,
        draws_a,
        first_end,
        second_start,
        draws_b,
        second_end,
    );
}

/// The sum of numbers that are all the same is that number, once for each.
proof fn lemma_sum_of_equal(numbers: Seq<nat>, each: nat)
    requires
        forall|i: int| 0 <= i < numbers.len() ==> #[trigger] numbers[i] == each,
    ensures
        sum(numbers) == numbers.len() * each,
    decreases numbers.len(),
{
    if numbers.len() > 0 {
        lemma_sum_of_equal(numbers.drop_last(), each);
        assert(numbers.drop_last().len() * each + each == numbers.len() * each)
            by (nonlinear_arith)
            requires
                numbers.drop_last().len() + 1 == numbers.len(),
        ;
    } else {
        assert(numbers.len() * each == 0) by (nonlinear_arith)
            requires
                numbers.len() == 0,
        ;
    }
}

/// Rolled with a fixed source, every die shows the face that the number of
/// the source selects, the total is that face once for each die plus the
/// modifier, and the source stays as it is.
pub proof fn lemma_fixed_source_rolls(
    notation: Notation,
    start: FixedSource,
    outcome: Outcome,
    end: FixedSource,
)
    requires
        is_evaluation(notation, start, outcome, end),
    ensures
        end == start,
        outcome.individual_rolls.len() == notation.count,
        forall|i: int|
            0 <= i < notation.count ==> #[trigger] outcome.individual_rolls[i] == face(
                start.value as int,
                notation.sides as int,
            ),
        outcome.total == notation.count * face(start.value as int, notation.sides as int)
            + notation.modifier,
{
    let sides = notation.sides as u32;
    let draws = choose|draws: Seq<u64>| #[trigger]
        may_yield_all(start, sides, draws, end) && draws.len() == notation.count && outcome
            == rolled(notation, draws);
    lemma_fixed_source_draws(start, sides, draws, end);
    lemma_face_is_on_die(start.value as int, notation.sides as int);
    lemma_sum_of_equal(
        outcome.individual_rolls,
        face(start.value as int, notation.sides as int) as nat,
    );
}

/// Among any `sides` numbers in a row, each face of the die is selected by
/// exactly one: a source whose numbers are spread evenly over such rows
/// makes every face equally likely.
pub proof fn lemma_faces_are_balanced(first: int, sides: int, shown: int)
    requires
        sides >= 1,
        1 <= shown <= sides,
    ensures
        exists|raw: int| first <= raw < first + sides && #[trigger] face(raw, sides) == shown,
        forall|a: int, b: int|
            first <= a < first + sides && first <= b < first + sides && #[trigger] face(a, sides)
                == shown && #[trigger] face(b, sides) == shown ==> a == b,
{
    let step = (shown - first) % sides;
    let turns = (shown - first) / sides;
    lemma_fundamental_div_mod(shown - first, sides);
    lemma_mod_bound(shown - first, sides);
    let raw = first + step;
    assert(raw - 1 == sides * (-turns) + (shown - 1)) by (nonlinear_arith)
        requires
            shown - first == sides * turns + step,
            raw == first + step,
    ;
    lemma_mod_multiples_vanish(-turns, shown - 1, sides);
    lemma_small_mod((shown - 1) as nat, sides as nat);
    assert(face(raw, sides) == shown);
    assert forall|a: int, b: int|
        first <= a < first + sides && first <= b < first + sides && #[trigger] face(a, sides)
            == shown && #[trigger] face(b, sides) == shown implies a == b by {
        lemma_fundamental_div_mod(a - 1, sides);
        lemma_fundamental_div_mod(b - 1, sides);
        let qa = (a - 1) / sides;
        let qb = (b - 1) / sides;
        assert(qa == qb) by (nonlinear_arith)
            requires
                a - b == sides * qa - sides * qb,
                -sides < a - b < sides,
                sides >= 1,
        ;
    }
}

} // verus!
