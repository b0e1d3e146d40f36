//! The two layouts of the counter and nonce row.
use vstd::prelude::*;

verus! {

/// Which layout the last row of the matrix follows.
#[derive(Clone, Copy, Debug, PartialEq, Eq, Structural)]
pub enum Variants {
    /// The layout Daniel J. Bernstein proposed: a 64-bit counter
    /// in words 12 and 13, then a 64-bit nonce.
    Djb,
    /// Layout specified by the IETF: a 32-bit counter in word 12, then a
    /// 96-bit nonce.
    Ietf,
}

/// A compile-time tag naming one of the [`Variants`].
pub trait Variant {
    /// The layout this tag stands for.
    spec fn var() -> Variants;

    /// Returns the layout this tag stands for.
    fn variant() -> (r: Variants)
        ensures
            r == Self::var(),
    ;
}

/// Tag for [`Variants::Djb`].
pub struct Djb;

impl Variant for Djb {
    open spec fn var() -> Variants {
        Variants::Djb
    }

    fn variant() -> (r: Variants) {
        Variants::Djb
    }
}

/// Tag for [`Variants::Ietf`].
pub struct Ietf;

impl Variant for Ietf {
    open spec fn var() -> Variants {
        Variants::Ietf
    }

    fn variant() -> (r: Variants) {
        Variants::Ietf
    }
}

} // verus!
