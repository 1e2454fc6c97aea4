//! Rolling a dice expression.

use vstd::prelude::*;
use vstd::arithmetic::div_mod::{
    lemma_fundamental_div_mod, lemma_mod_bound, lemma_mod_multiples_basic,
    lemma_mod_multiples_vanish, lemma_small_mod,
};
use crate::error::ParseError;
use crate::expression::{DiceExpression, Notation};
use crate::grammar::parsed;
use crate::parser::parse;
use crate::source::{is_run, may_yield_all, RandomSource};

verus! {

/// The mathematical content of a roll: what each die showed, in the order
/// in which the dice were rolled, and the total.
pub struct Outcome {
    pub individual_rolls: Seq<nat>,
    pub total: int,
}

/// The result of rolling a dice expression once.
#[derive(Debug, PartialEq, Eq)]
pub struct RollResult {
    /// What each die showed; the die rolled first comes first.
    pub individual_rolls: Vec<u32>,
    /// The sum of the dice plus the modifier of the expression.
    pub total: i128,
}

impl View for RollResult {
    type V = Outcome;

    open spec fn view(&self) -> Outcome {
        Outcome {
            individual_rolls: Seq::new(
                self.individual_rolls@.len(),
                |i: int| self.individual_rolls@[i] as nat,
            ),
            total: self.total as int,
        }
    }
}

impl Clone for RollResult {
    fn clone(&self) -> (copy: RollResult)
        ensures
            copy@ == self@,
    {
        let copy = RollResult { individual_rolls: self.individual_rolls.clone(), total: self.total };
        assert(copy@.individual_rolls =~= self@.individual_rolls);
        copy
    }
}

/// The face that a raw number selects on a die of `sides` faces: the one
/// number from 1 to `sides` that differs from `raw` by a multiple of `sides`.
/// A raw number that already is a face selects itself.
pub open spec fn face(raw: int, sides: int) -> int {
    (raw - 1) % sides + 1
}

/// The faces that a list of raw numbers selects, in the same order.
pub open spec fn faces(draws: Seq<u64>, sides: nat) -> Seq<nat> {
    Seq::new(draws.len(), |i: int| face(draws[i] as int, sides as int) as nat)
}

/// The sum of a list of numbers.
pub open spec fn sum(numbers: Seq<nat>) -> nat
    decreases numbers.len(),
{
    if numbers.len() == 0 {
        0
    } else {
        sum(numbers.drop_last()) + numbers.last()
    }
}

/// What rolling `notation` gives when the source hands out `draws`.
pub open spec fn rolled(notation: Notation, draws: Seq<u64>) -> Outcome {
    Outcome {
        individual_rolls: faces(draws, notation.sides),
        total: sum(faces(draws, notation.sides)) + notation.modifier,
    }
}

impl Outcome {
    /// One roll for each die, each of them a face of the die, and a total
    /// that is their sum plus the modifier.
    pub open spec fn is_outcome_of(self, notation: Notation) -> bool {
        &&& self.individual_rolls.len() == notation.count
        &&& forall|i: int|
            0 <= i < self.individual_rolls.len() ==> 1 <= #[trigger] self.individual_rolls[i]
                <= notation.sides
        &&& self.total == sum(self.individual_rolls) + notation.modifier
    }
}

/// Rolling `notation` with a source in state `start` may give `outcome` and
/// leave the source as `end`: the source, told the number of faces, hands out
/// one number for each die, and each die shows the face that its number
/// selects.
pub open spec fn is_evaluation<R: RandomSource>(
    notation: Notation,
    start: R,
    outcome: Outcome,
    end: R,
) -> bool {
    &&& notation.is_valid()
    &&& notation.is_representable()
    &&& exists|draws: Seq<u64>| #[trigger]
        may_yield_all(start, notation.sides as u32, draws, end) && draws.len() == notation.count
            && outcome == rolled(notation, draws)
}

/// A selected face lies on the die, and differs from the raw number by a
/// multiple of the number of faces.
pub proof fn lemma_face_is_on_die(raw: int, sides: int)
    requires
        sides >= 1,
    ensures
        1 <= face(raw, sides) <= sides,
        (face(raw, sides) - raw) % sides == 0,
        1 <= raw <= sides ==> face(raw, sides) == raw,
{
    let q = (raw - 1) / sides;
    let r = (raw - 1) % sides;
    lemma_fundamental_div_mod(raw - 1, sides);
    lemma_mod_bound(raw - 1, sides);
    assert(r + 1 - raw == (-q) * sides) by (nonlinear_arith)
        requires
            raw - 1 == sides * q + r,
    ;
    lemma_mod_multiples_basic(-q, sides);
    if 1 <= raw <= sides {
        lemma_small_mod((raw - 1) as nat, sides as nat);
    }
}

/// The face that `raw` selects on a die of `sides` faces.
pub fn select_face(raw: u64, sides: u32) -> (shown: u32)
    requires
        sides >= 1,
    ensures
        shown == face(raw as int, sides as int),
        1 <= shown <= sides,
{
    proof {
        lemma_face_is_on_die(raw as int, sides as int);
    }
    if raw == 0 {
        proof {
            lemma_mod_multiples_vanish(-1, sides - 1, sides as int);
            lemma_small_mod((sides - 1) as nat, sides as nat);
        }
        sides
    } else {
        ((raw - 1) % (sides as u64)) as u32 + 1
    }
}

/// Rolls every die of `expr` once, in order, and adds up.
///
/// One number is taken from `rng` for each die. The die shows the face that
/// the number selects, so the result is a function of the expression and of
/// what the source handed out.
pub fn evaluate<R: RandomSource>(expr: &DiceExpression, rng: &mut R) -> (result: RollResult)
    ensures
        is_evaluation(expr@, *old(rng), result@, *final(rng)),
        result@.is_outcome_of(expr@),
{
    let count = expr.count();
    let sides = expr.sides();
    let modifier = expr.modifier();
    let mut rolls: Vec<u32> = Vec::new();
    let mut dice_sum: u64 = 0;
    let ghost mut draws: Seq<u64> = Seq::empty();
    let ghost mut states: Seq<R> = seq![*rng];
    let mut i: u32 = 0;
    while i < count
        invariant
            i <= count,
            sides >= 2,
            draws.len() == i,
            is_run(states, sides, draws),
            states.first() == *old(rng),
            states.last() == *rng,
            rolls@.len() == i,
            forall|j: int| 0 <= j < i ==> #[trigger] rolls@[j] == faces(draws, sides as nat)[j],
            forall|j: int| 0 <= j < i ==> 1 <= #[trigger] rolls@[j] <= sides,
            dice_sum == sum(faces(draws, sides as nat)),
            dice_sum <= i * 0xFFFF_FFFF,
        decreases count - i,
    {
        let raw = rng.next_raw(sides);
        let shown = select_face(raw, sides);
        proof {
            let ghost before = faces(draws, sides as nat);
            assert(states.push(*rng).first() == states.first());
            states = states.push(*rng);
            draws = draws.push(raw);
            let ghost now = faces(draws, sides as nat);
            assert(now.drop_last() == before);
            assert(now.last() == shown);
        }
        rolls.push(shown);
        dice_sum = dice_sum + shown as u64;
        i += 1;
    }
    let result = RollResult { individual_rolls: rolls, total: dice_sum as i128 + modifier as i128 };
    proof {
        assert(result@.individual_rolls == faces(draws, expr@.sides));
        expr.lemma_view_is_representable();
        assert(expr@.sides as u32 == sides);
        assert(may_yield_all(*old(rng), sides, draws, *rng));
        assert(result@ == rolled(expr@, draws));
    }
    result
}

/// Reads `text` and rolls the expression it denotes.
///
/// A text that denotes no expression is rejected with the reason, and the
/// source is left untouched.
pub fn parse_and_roll<R: RandomSource>(text: &str, rng: &mut R) -> (result: Result<
    RollResult,
    ParseError,
>)
    ensures
        match parsed(text@) {
            Ok(notation) => {
                &&& result is Ok
                &&& is_evaluation(notation, *old(rng), result->Ok_0@, *final(rng))
                &&& result->Ok_0@.is_outcome_of(notation)
            },
            Err(reason) => {
                &&& result == Err::<RollResult, ParseError>(reason)
                &&& *final(rng) == *old(rng)
            },
        },
{
    match parse(text) {
        Ok(expr) => Ok(evaluate(&expr, rng)),
        Err(reason) => Err(reason),
    }
}

} // verus!
