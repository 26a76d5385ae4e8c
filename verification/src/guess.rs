//! A number that is known to lie in a fixed range.

use vstd::prelude::*;

verus! {

/// A guess at a number between 1 and 100. A value of this type cannot hold
/// any other number.
pub struct Guess {
    value: i32,
}

impl Guess {
    /// The number guessed.
    pub closed spec fn number(&self) -> int {
        self.value as int
    }

    #[verifier::type_invariant]
    spec fn in_range(&self) -> bool {
        1 <= self.value <= 100
    }

    /// A guess of `value`, which has to lie between 1 and 100.
    pub fn new(value: i32) -> (guess: Guess)
        requires
            1 <= value <= 100,
        ensures
            guess.number() == value,
    {
        Guess { value }
    }

    /// The number guessed.
    pub fn value(&self) -> (value: i32)
        ensures
            value == self.number(),
            1 <= value <= 100,
    {
        proof {
            use_type_invariant(self);
        }
        self.value
    }
}

} // verus!
