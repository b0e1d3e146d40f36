//! The machines. Each packs four ChaCha matrices its own way and is proved
//! against the one [`Machine`](crate::util::Machine) contract, so all of them
//! produce the same bytes.
//!
//! - [`soft`]: four flat arrays of sixteen words, quarter rounds by index.
//! - [`sse2`]: per lane, four 128-bit rows; diagonals by shuffling rows.
//! - [`neon`]: as `sse2`, with rows rotated by element extraction.
//! - [`avx2`]: two lanes per 256-bit row; the halves are split on output.
//! - [`avx512`]: all four lanes in one 512-bit row, lane 0 in the top quarter.
//!
//! [`vector`] holds the portable register operations the packed backends use.
pub mod soft;
pub mod avx2;
pub mod avx512;
pub mod neon;
pub mod sse2;
pub mod vector;
