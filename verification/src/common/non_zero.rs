//! A `u64` that is not zero.

use vstd::prelude::*;

verus! {

/// A `u64` that is known not to be zero.
#[derive(Debug, Clone, Copy, PartialEq, Eq)]
pub struct NonZeroU64 {
    number: u64,
}

impl View for NonZeroU64 {
    type V = u64;

    closed spec fn view(&self) -> u64 {
        self.number
    }
}

impl NonZeroU64 {
    #[verifier::type_invariant]
    spec fn well_formed(self) -> bool {
        self.number != 0
    }

    /// Wraps `number`, unless it is zero.
    pub fn new(number: u64) -> (wrapped: Option<NonZeroU64>)
        ensures
            match wrapped {
                Some(wrapped) => number != 0 && wrapped@ == number,
                None => number == 0,
            },
    {
        if number == 0 {
            None
        } else {
            Some(NonZeroU64 { number })
        }
    }

    /// The number itself.
    pub fn get(&self) -> (number: u64)
        ensures
            number == self@,
            number != 0,
    {
        proof {
            use_type_invariant(self);
        }
        self.number
    }
}

} // verus!
