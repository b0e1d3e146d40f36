//! ChaCha keystream generation, four blocks at a time.
//!
//! A [`ChaChaCore`] holds a key, a block counter and a nonce, and turns them
//! into a keystream of any length. The work is done by a [`Machine`]: a
//! packing of four ChaCha matrices whose counters are consecutive, so that
//! one call yields 256 bytes. Every backend under [`backends`] is proved to
//! meet the same contract, stated over the model in [`model`], so every
//! backend yields the same bytes, and [`ChaChaCore`] is proved to yield the
//! keystream that the model defines.
pub mod backends;
pub mod chacha;
pub mod model;
pub mod rounds;
pub mod util;
pub mod variations;

pub use chacha::ChaChaCore;
pub use rounds::{DoubleRounds, R12, R20, R8};
pub use util::{
    ChaChaNaked, Machine, Row, BUF_LEN_U64, BUF_LEN_U8, SEED_LEN_U32, SEED_LEN_U64, SEED_LEN_U8,
};
pub use variations::{Djb, Ietf, Variant, Variants};

use vstd::prelude::*;

verus! {

/// The machine used by the type aliases below.
pub type Matrix = backends::soft::Matrix;

/// ChaCha with 8 rounds, a 64-bit counter, and a 64-bit nonce.
pub type ChaCha8Djb = ChaChaCore<Matrix, R8, Djb>;
/// ChaCha with 12 rounds, a 64-bit counter, and a 64-bit nonce.
pub type ChaCha12Djb = ChaChaCore<Matrix, R12, Djb>;
/// ChaCha with 20 rounds, a 64-bit counter, and a 64-bit nonce.
pub type ChaCha20Djb = ChaChaCore<Matrix, R20, Djb>;
/// ChaCha with 8 rounds, a 32-bit counter, and a 96-bit nonce.
pub type ChaCha8Ietf = ChaChaCore<Matrix, R8, Ietf>;
/// ChaCha with 12 rounds, a 32-bit counter, and a 96-bit nonce.
pub type ChaCha12Ietf = ChaChaCore<Matrix, R12, Ietf>;
/// ChaCha with 20 rounds, a 32-bit counter, and a 96-bit nonce.
pub type ChaCha20Ietf = ChaChaCore<Matrix, R20, Ietf>;

} // verus!
