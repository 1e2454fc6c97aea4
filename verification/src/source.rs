//! Sources of randomness.

use vstd::prelude::*;

verus! {

/// A provider of random numbers, handed to the evaluator by its caller.
///
/// The evaluator asks a source for one number for each die and tells it how
/// many faces the die has. A source that hands out the numbers from 1 to
/// that many, each equally likely and independently of what it handed out
/// before, makes the dice fair. The evaluator does not rely on this: it
/// folds whatever number it gets onto the die.
///
/// A source describes itself by `may_yield`: which number it may hand out in
/// a given state, and in which state that leaves it. A source that says
/// nothing of itself admits every number and every next state, as a source
/// of true randomness does. A source that is a function of its state admits
/// exactly one of each, and rolls made from it can be repeated.
pub trait RandomSource: Sized {
    /// Asked for a die of `sides` faces, a source in state `self` may hand
    /// out `raw` and be left as `next`.
    open spec fn may_yield(&self, sides: u32, raw: u64, next: &Self) -> bool {
        true
    }

    /// The two states are the same as far as what they hand out goes. Unless
    /// a source says otherwise, they are the same only if they are equal.
    open spec fn alike(&self, other: &Self) -> bool {
        *self == *other
    }

    /// Hands out the number for the next die, which has `sides` faces.
    fn next_raw(&mut self, sides: u32) -> (raw: u64)
        ensures
            old(self).may_yield(sides, raw, final(self)),
    ;
}

/// `states` are the states that a source passes through while it hands out
/// `draws`, one after the other, for dice of `sides` faces.
pub open spec fn is_run<R: RandomSource>(states: Seq<R>, sides: u32, draws: Seq<u64>) -> bool {
    &&& states.len() == draws.len() + 1
    &&& forall|i: int|
        0 <= i < draws.len() ==> (#[trigger] states[i]).may_yield(sides, draws[i], &states[i + 1])
}

/// Asked for dice of `sides` faces, a source in state `start` may hand out
/// `draws`, in this order, and be left as `end`.
pub open spec fn may_yield_all<R: RandomSource>(
    start: R,
    sides: u32,
    draws: Seq<u64>,
    end: R,
) -> bool {
    exists|states: Seq<R>| #[trigger]
        is_run(states, sides, draws) && states.first() == start && states.last() == end
}

/// The sources of type `R` are functions of their state: from states that
/// are alike they hand out the same number, for every die, and are left in
/// states that are alike again.
pub open spec fn is_deterministic<R: RandomSource>() -> bool {
    forall|a: R, b: R, sides: u32, raw_a: u64, next_a: R, raw_b: u64, next_b: R|
        a.alike(&b) && #[trigger] a.may_yield(sides, raw_a, &next_a) && #[trigger] b.may_yield(
            sides,
            raw_b,
            &next_b,
        ) ==> raw_a == raw_b && next_a.alike(&next_b)
}

/// A source that hands out the same number every time, whatever the die.
#[derive(Debug, Clone, Copy, PartialEq, Eq)]
pub struct FixedSource {
    pub value: u64,
}

impl FixedSource {
    /// The source that always hands out `value`.
    pub fn new(value: u64) -> (source: FixedSource)
        ensures
            source.value == value,
    {
        FixedSource { value }
    }
}

impl RandomSource for FixedSource {
    open spec fn may_yield(&self, _sides: u32, raw: u64, next: &Self) -> bool {
        raw == self.value && *next == *self
    }

    fn next_raw(&mut self, _sides: u32) -> (raw: u64) {
        self.value
    }
}

/// A source that hands out the numbers of a list in order, whatever the
/// dice, and starts over when the list is used up. With an empty list it
/// hands out zero.
#[derive(Debug, PartialEq, Eq)]
pub struct ScriptedSource {
    pub script: Vec<u64>,
    pub position: usize,
}

impl ScriptedSource {
    /// The source that goes through `script`, starting at its first number.
    pub fn new(script: Vec<u64>) -> (source: ScriptedSource)
        ensures
            source.script@ == script@,
            source.position == 0,
    {
        ScriptedSource { script, position: 0 }
    }

    /// The number that the source hands out next.
    pub open spec fn upcoming(&self) -> u64 {
        if self.script@.len() == 0 {
            0
        } else {
            self.script@[self.position as int % self.script@.len() as int]
        }
    }

    /// The position from which the source goes on after handing out a number.
    pub open spec fn following(&self) -> int {
        if self.script@.len() == 0 {
            self.position as int
        } else if self.position as int % self.script@.len() as int + 1 == self.script@.len() {
            0
        } else {
            self.position as int % self.script@.len() as int + 1
        }
    }
}

impl Clone for ScriptedSource {
    fn clone(&self) -> (copy: ScriptedSource)
        ensures
            copy.alike(self),
    {
        ScriptedSource { script: self.script.clone(), position: self.position }
    }
}

impl RandomSource for ScriptedSource {
    open spec fn may_yield(&self, _sides: u32, raw: u64, next: &Self) -> bool {
        &&& raw == self.upcoming()
        &&& next.script@ == self.script@
        &&& next.position == self.following()
    }

    open spec fn alike(&self, other: &Self) -> bool {
        self.script@ == other.script@ && self.position == other.position
    }

    fn next_raw(&mut self, _sides: u32) -> (raw: u64) {
        let len = self.script.len();
        if len == 0 {
            return 0;
        }
        let at = self.position % len;
        let raw = self.script[at];
        self.position = if at + 1 == len {
            0
        } else {
            at + 1
        };
        raw
    }
}

/// A fixed source is a function of its state.
pub proof fn lemma_fixed_source_is_deterministic()
    ensures
        is_deterministic::<FixedSource>(),
{
}

/// A fixed source hands out its number at every draw and stays as it is.
pub proof fn lemma_fixed_source_draws(
    start: FixedSource,
    sides: u32,
    draws: Seq<u64>,
    end: FixedSource,
)
    requires
        may_yield_all(start, sides, draws, end),
    ensures
        end == start,
        forall|i: int| 0 <= i < draws.len() ==> #[trigger] draws[i] == start.value,
{
    let states = choose|states: Seq<FixedSource>| #[trigger]
        is_run(states, sides, draws) && states.first() == start && states.last() == end;
    lemma_fixed_run(states, sides, draws, draws.len() as int);
}

/// Along a run of a fixed source, every state is the first one.
proof fn lemma_fixed_run(states: Seq<FixedSource>, sides: u32, draws: Seq<u64>, n: int)
    requires
        is_run(states, sides, draws),
        0 <= n <= draws.len(),
    ensures
        states[n] == states[0],
        forall|i: int| 0 <= i < n ==> #[trigger] draws[i] == states[0].value,
    decreases n,
{
    if n > 0 {
        lemma_fixed_run(states, sides, draws, n - 1);
        assert(states[n - 1].may_yield(sides, draws[n - 1], &states[n - 1 + 1]));
    }
}

/// A scripted source is a function of its state.
pub proof fn lemma_scripted_source_is_deterministic()
    ensures
        is_deterministic::<ScriptedSource>(),
{
}

/// Two runs of a deterministic source from states that are alike agree as
/// far as both go.
proof fn lemma_runs_agree<R: RandomSource>(
    sides: u32,
    states_a: Seq<R>,
    draws_a: Seq<u64>,
    states_b: Seq<R>,
    draws_b: Seq<u64>,
    n: int,
)
    requires
        is_deterministic::<R>(),
        is_run(states_a, sides, draws_a),
        is_run(states_b, sides, draws_b),
        states_a.first().alike(&states_b.first()),
        0 <= n <= draws_a.len(),
        n <= draws_b.len(),
    ensures
        states_a[n].alike(&states_b[n]),
        forall|i: int| 0 <= i < n ==> draws_a[i] == draws_b[i],
    decreases n,
{
    if n > 0 {
        lemma_runs_agree(sides, states_a, draws_a, states_b, draws_b, n - 1);
        assert(states_a[n - 1].may_yield(sides, draws_a[n - 1], &states_a[n - 1 + 1]));
        assert(states_b[n - 1].may_yield(sides, draws_b[n - 1], &states_b[n - 1 + 1]));
    }
}

/// What a deterministic source hands out over a number of draws for dice of
/// one kind is determined by the state it starts from, and so is the state
/// it is left in: from states that are alike come the same numbers and
/// states that are alike.
pub proof fn lemma_draws_are_determined<R: RandomSource>(
    sides: u32,
    start_a: R,
    draws_a: Seq<u64>,
    end_a: R,
    start_b: R,
    draws_b: Seq<u64>,
    end_b: R,
)
    requires
        is_deterministic::<R>(),
        start_a.alike(&start_b),
        may_yield_all(start_a, sides, draws_a, end_a),
        may_yield_all(start_b, sides, draws_b, end_b),
        draws_a.len() == draws_b.len(),
    ensures
        draws_a == draws_b,
        end_a.alike(&end_b),
{
    let states_a = choose|states: Seq<R>| #[trigger]
        is_run(states, sides, draws_a) && states.first() == start_a && states.last() == end_a;
    let states_b = choose|states: Seq<R>| #[trigger]
        is_run(states, sides, draws_b) && states.first() == start_b && states.last() == end_b;
    lemma_runs_agree(sides, states_a, draws_a, states_b, draws_b, draws_a.len() as int);
    assert(draws_a =~= draws_b);
}

} // verus!
