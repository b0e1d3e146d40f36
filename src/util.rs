//! Sizes, the row type, the key/counter/nonce state handed to a machine,
//! and the contract that every machine meets.
use crate::model::{add_words, advance, double_round, high, join, lanes_bytes, lanes_from, le_byte, le_bytes, le_word, low, sigma};
use crate::variations::{Variant, Variants};
use vstd::prelude::*;

verus! {

/// The number of distinct ChaCha blocks processed in parallel.
pub const DEPTH: usize = 4;
/// Columns of a ChaCha matrix.
pub const COLUMNS: usize = 4;
/// Rows of a ChaCha matrix.
pub const ROWS: usize = 4;
/// Size (in 32-bit integers) of one ChaCha matrix.
pub const MATRIX_SIZE_U32: usize = COLUMNS * ROWS;
/// Size (in 8-bit integers) of one ChaCha matrix.
pub const MATRIX_SIZE_U8: usize = MATRIX_SIZE_U32 * 4;
/// Size (in 8-bit integers) of a single machine computation.
pub const BUF_LEN_U8: usize = MATRIX_SIZE_U8 * DEPTH;
/// Size (in 64-bit integers) of a single machine computation.
pub const BUF_LEN_U64: usize = BUF_LEN_U8 / 8;
/// Size (in 8-bit integers) of the raw seed of a ChaCha instance.
pub const SEED_LEN_U8: usize = (ROWS - 1) * 16;
/// Size (in 32-bit integers) of the raw seed of a ChaCha instance.
pub const SEED_LEN_U32: usize = SEED_LEN_U8 / 4;
/// Size (in 64-bit integers) of the raw seed of a ChaCha instance.
pub const SEED_LEN_U64: usize = SEED_LEN_U8 / 8;

/// One 16-byte row of a ChaCha matrix, held as four 32-bit words. Its other
/// views (two little-endian 64-bit words, sixteen bytes) are computed.
#[derive(Clone, Copy, Debug)]
pub struct Row {
    /// The row as four 32-bit words.
    pub u32x4: [u32; 4],
}

impl Row {
    /// The row of four words.
    pub fn from_u32x4(words: [u32; 4]) -> (r: Row)
        ensures
            r.u32x4@ == words@,
    {
        Row { u32x4: words }
    }

    /// The row whose two little-endian 64-bit halves are `v[0]` and `v[1]`.
    pub fn from_u64x2(v: [u64; 2]) -> (r: Row)
        ensures
            r.u32x4@ == seq![low(v[0]), high(v[0]), low(v[1]), high(v[1])],
    {
        let r = Row { u32x4: [v[0] as u32, (v[0] >> 32) as u32, v[1] as u32, (v[1] >> 32) as u32] };
        assert(r.u32x4@ =~= seq![low(v[0]), high(v[0]), low(v[1]), high(v[1])]);
        r
    }

    /// The row as two little-endian 64-bit words.
    pub fn u64x2(&self) -> (r: [u64; 2])
        ensures
            r[0] == join(self.u32x4[0], self.u32x4[1]),
            r[1] == join(self.u32x4[2], self.u32x4[3]),
    {
        let w = self.u32x4;
        [(w[0] as u64) | ((w[1] as u64) << 32), (w[2] as u64) | ((w[3] as u64) << 32)]
    }

    /// The row as eight little-endian 16-bit words.
    pub fn u16x8(&self) -> (r: [u16; 8])
        ensures
            forall|i: int|
                0 <= i < 8 ==> #[trigger] r[i] == if i % 2 == 0 {
                    self.u32x4[i / 2] as u16
                } else {
                    (self.u32x4[i / 2] >> 16u32) as u16
                },
    {
        let w = self.u32x4;
        [
            w[0] as u16,
            (w[0] >> 16) as u16,
            w[1] as u16,
            (w[1] >> 16) as u16,
            w[2] as u16,
            (w[2] >> 16) as u16,
            w[3] as u16,
            (w[3] >> 16) as u16,
        ]
    }

    /// The row whose sixteen little-endian bytes are `b`.
    pub fn from_u8x16(b: [u8; 16]) -> (r: Row)
        ensures
            r.u32x4@ == Seq::new(4, |i: int| le_word(b[4 * i], b[4 * i + 1], b[4 * i + 2], b[4 * i + 3])),
    {
        let mut w: [u32; 4] = [0; 4];
        let mut i: usize = 0;
        while i < 4
            invariant
                i <= 4,
                forall|j: int| 0 <= j < i ==> w[j] == le_word(b[4 * j], b[4 * j + 1], b[4 * j + 2], b[4 * j + 3]),
            decreases 4 - i,
        {
            w[i] = (b[4 * i] as u32) | ((b[4 * i + 1] as u32) << 8) | ((b[4 * i + 2] as u32) << 16)
                | ((b[4 * i + 3] as u32) << 24);
            i += 1;
        }
        let r = Row { u32x4: w };
        assert(r.u32x4@ =~= Seq::new(4, |i: int| le_word(b[4 * i], b[4 * i + 1], b[4 * i + 2], b[4 * i + 3])));
        r
    }

    /// The row as sixteen little-endian bytes.
    pub fn u8x16(&self) -> (r: [u8; 16])
        ensures
            r@ == le_bytes(self.u32x4@),
    {
        let mut b: [u8; 16] = [0; 16];
        let mut i: usize = 0;
        while i < 4
            invariant
                i <= 4,
                forall|j: int| 0 <= j < 4 * i ==> b[j] == le_byte(self.u32x4[j / 4], j % 4),
            decreases 4 - i,
        {
            let w = self.u32x4[i];
            b[4 * i] = w as u8;
            b[4 * i + 1] = (w >> 8) as u8;
            b[4 * i + 2] = (w >> 16) as u8;
            b[4 * i + 3] = (w >> 24) as u8;
            i += 1;
        }
        assert(b@ =~= le_bytes(self.u32x4@));
        b
    }
}

/// The constant row, "expand 32-byte k".
pub fn row_a() -> (r: Row)
    ensures
        r.u32x4@ == sigma(),
{
    let r = Row { u32x4: [0x6170_7865, 0x3320_646e, 0x7962_2d32, 0x6b20_6574] };
    assert(r.u32x4@ =~= sigma());
    r
}

/// The three rows of a ChaCha matrix that are not constant: two key rows,
/// and the counter/nonce row.
#[derive(Clone, Copy, Debug)]
pub struct ChaChaNaked {
    /// The first four key words.
    pub row_b: Row,
    /// The last four key words.
    pub row_c: Row,
    /// The counter and nonce.
    pub row_d: Row,
}

impl ChaChaNaked {
    /// The full matrix: the constant row followed by the three rows.
    pub open spec fn matrix(&self) -> Seq<u32> {
        sigma() + self.row_b.u32x4@ + self.row_c.u32x4@ + self.row_d.u32x4@
    }
}

/// What every machine provides: four ChaCha matrices side by side, packed as
/// the backend likes, seen through [`Machine::lanes`] as four matrices of
/// sixteen words.
pub trait Machine: Sized {
    /// The four matrices, lane after lane.
    spec fn lanes(&self) -> Seq<Seq<u32>>;

    /// Broadcasts `state` to four lanes whose counters are 0, 1, 2 and 3
    /// blocks past that of `state`, under layout `V`.
    fn new<V: Variant>(state: &ChaChaNaked) -> (r: Self)
        ensures
            r.lanes() == lanes_from(V::var(), state.matrix()),
    {
        match V::variant() {
            Variants::Djb => Self::new_djb(state),
            Variants::Ietf => Self::new_ietf(state),
        }
    }

    /// [`Machine::new`] under [`Variants::Djb`].
    fn new_djb(state: &ChaChaNaked) -> (r: Self)
        ensures
            r.lanes() == lanes_from(Variants::Djb, state.matrix()),
    ;

    /// [`Machine::new`] under [`Variants::Ietf`].
    fn new_ietf(state: &ChaChaNaked) -> (r: Self)
        ensures
            r.lanes() == lanes_from(Variants::Ietf, state.matrix()),
    ;

    /// Moves the counter of every lane on by [`DEPTH`] blocks, wrapping as
    /// layout `V` does.
    fn increment<V: Variant>(&mut self)
        ensures
            final(self).lanes() == Seq::new(4, |l: int| advance(V::var(), old(self).lanes()[l], 4)),
    {
        match V::variant() {
            Variants::Djb => self.increment_djb(),
            Variants::Ietf => self.increment_ietf(),
        }
    }

    /// [`Machine::increment`] under [`Variants::Djb`].
    fn increment_djb(&mut self)
        ensures
            final(self).lanes() == Seq::new(4, |l: int| advance(Variants::Djb, old(self).lanes()[l], 4)),
    ;

    /// [`Machine::increment`] under [`Variants::Ietf`].
    fn increment_ietf(&mut self)
        ensures
            final(self).lanes() == Seq::new(4, |l: int| advance(Variants::Ietf, old(self).lanes()[l], 4)),
    ;

    /// One double round on every lane.
    fn double_round(&mut self)
        ensures
            final(self).lanes() == Seq::new(4, |l: int| double_round(old(self).lanes()[l])),
    ;

    /// The lane-by-lane, word-by-word sum of two machines.
    fn add(self, rhs: Self) -> (r: Self)
        ensures
            r.lanes() == Seq::new(4, |l: int| add_words(self.lanes()[l], rhs.lanes()[l])),
    ;

    /// A second machine with the same lanes.
    fn duplicate(&self) -> (r: Self)
        ensures
            r.lanes() == self.lanes(),
    ;

    /// Writes the four lanes to `buf` as little-endian bytes, lane after lane.
    fn fetch_result(self, buf: &mut [u8; BUF_LEN_U8])
        ensures
            final(buf)@ == lanes_bytes(self.lanes()),
    ;
}

} // verus!
