//! The standard round counts: 8, 12 and 20 rounds, that is 4, 6 and 10
//! double rounds.
use vstd::prelude::*;

verus! {

/// A compile-time tag naming how many double rounds a block takes.
pub trait DoubleRounds {
    /// The number of double rounds.
    spec fn count_spec() -> nat;

    /// Returns the number of double rounds.
    fn count() -> (r: usize)
        ensures
            r == Self::count_spec(),
    ;
}

/// ChaCha8: four double rounds.
pub struct R8;

impl DoubleRounds for R8 {
    open spec fn count_spec() -> nat {
        4
    }

    fn count() -> (r: usize) {
        4
    }
}

/// ChaCha12: six double rounds.
pub struct R12;

impl DoubleRounds for R12 {
    open spec fn count_spec() -> nat {
        6
    }

    fn count() -> (r: usize) {
        6
    }
}

/// ChaCha20: ten double rounds.
pub struct R20;

impl DoubleRounds for R20 {
    open spec fn count_spec() -> nat {
        10
    }

    fn count() -> (r: usize) {
        10
    }
}

} // verus!
