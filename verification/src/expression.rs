//! A parsed dice expression and its mathematical model.

use vstd::prelude::*;

verus! {

/// The mathematical content of a dice expression: roll `count` dice of
/// `sides` faces each and add `modifier` to their sum.
pub struct Notation {
    pub count: nat,
    pub sides: nat,
    pub modifier: int,
}

impl Notation {
    /// At least one die, and at least two faces on it.
    pub open spec fn is_valid(self) -> bool {
        self.count >= 1 && self.sides >= 2
    }

    /// The three numbers fit the machine types that hold them.
    pub open spec fn is_representable(self) -> bool {
        &&& self.count <= u32::MAX
        &&& self.sides <= u32::MAX
        &&& i32::MIN <= self.modifier <= i32::MAX
    }
}

/// A dice expression such as `4d6+2`. A value of this type always describes
/// at least one die with at least two faces; it cannot be changed once made.
#[derive(Debug, Clone, Copy, PartialEq, Eq, Hash)]
pub struct DiceExpression {
    count: u32,
    sides: u32,
    modifier: i32,
}

impl View for DiceExpression {
    type V = Notation;

    closed spec fn view(&self) -> Notation {
        Notation {
            count: self.count as nat,
            sides: self.sides as nat,
            modifier: self.modifier as int,
        }
    }
}

impl DiceExpression {
    #[verifier::type_invariant]
    spec fn well_formed(self) -> bool {
        self.count >= 1 && self.sides >= 2
    }

    /// The expression with the given numbers, if they describe at least one
    /// die with at least two faces.
    pub fn new(count: u32, sides: u32, modifier: i32) -> (made: Option<DiceExpression>)
        ensures
            made is Some <==> count >= 1 && sides >= 2,
            made matches Some(e) ==> e@ == (Notation {
                count: count as nat,
                sides: sides as nat,
                modifier: modifier as int,
            }),
    {
        if count >= 1 && sides >= 2 {
            Some(DiceExpression { count, sides, modifier })
        } else {
            None
        }
    }

    /// How many dice are rolled.
    pub fn count(&self) -> (n: u32)
        ensures
            n == self@.count,
            n >= 1,
    {
        proof {
            use_type_invariant(self);
        }
        self.count
    }

    /// How many faces each die has.
    pub fn sides(&self) -> (n: u32)
        ensures
            n == self@.sides,
            n >= 2,
    {
        proof {
            use_type_invariant(self);
        }
        self.sides
    }

    /// What is added to the sum of the dice.
    pub fn modifier(&self) -> (m: i32)
        ensures
            m == self@.modifier,
    {
        self.modifier
    }

    /// The model of every expression is representable.
    pub proof fn lemma_view_is_representable(self)
        ensures
            self@.is_representable(),
    {
    }

    /// Two expressions with the same model are the same expression.
    pub proof fn lemma_view_is_injective(self, other: DiceExpression)
        requires
            self@ == other@,
        ensures
            self == other,
    {
    }
}

} // verus!
