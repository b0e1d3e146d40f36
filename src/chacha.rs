//! [`ChaChaCore`]: a key, a block counter and a nonce, turned into a
//! keystream of any length by a [`Machine`].
use crate::model::{
    advance, blocks_for, counter_of, initial, keystream, keystream_byte,
    lanes_from, le_u64, lemma_advance_add, lemma_advance_zero, lemma_join_split, lemma_keystream_shift,
    lemma_wrapping_add_u32, lemma_wrapping_add_u64, le_word, low, high, rounds, sigma, with_counter, xor_bytes,
};
use crate::rounds::DoubleRounds;
use crate::util::{ChaChaNaked, Machine, Row, BUF_LEN_U64, BUF_LEN_U8, DEPTH, SEED_LEN_U32, SEED_LEN_U64, SEED_LEN_U8};
use crate::variations::{Variant, Variants};
use core::marker::PhantomData;
use vstd::prelude::*;

verus! {

/// A ChaCha stream: the two key rows and the counter/nonce row, with the
/// machine `M`, the round count `R` and the layout `V` fixed by type.
pub struct ChaChaCore<M, R, V> {
    row_b: Row,
    row_c: Row,
    row_d: Row,
    _phantom: PhantomData<(M, R, V)>,
}

impl<M, R, V> ChaChaCore<M, R, V> {
    /// The matrix of the next block: the constant row, then the three rows.
    pub closed spec fn matrix(&self) -> Seq<u32> {
        sigma() + self.row_b.u32x4@ + self.row_c.u32x4@ + self.row_d.u32x4@
    }

    /// The matrix always has sixteen words and starts with the constant row.
    pub proof fn lemma_matrix_wf(&self)
        ensures
            self.matrix().len() == 16,
            self.matrix().subrange(0, 4) == sigma(),
    {
        assert(self.matrix().subrange(0, 4) =~= sigma());
    }
}

impl<M, R, V> Clone for ChaChaCore<M, R, V> {
    /// A copy of the stream's state: both copies go on to yield the same
    /// bytes.
    fn clone(&self) -> (r: Self)
        ensures
            r.matrix() == self.matrix(),
    {
        ChaChaCore { row_b: self.row_b, row_c: self.row_c, row_d: self.row_d, _phantom: PhantomData }
    }
}

impl<M, R, V> ChaChaCore<M, R, V> {
    /// The stream whose matrix is the constant row followed by the twelve
    /// words `w`.
    pub closed spec fn from_words(w: Seq<u32>) -> Self {
        choose|r: Self| r.matrix() == sigma() + w
    }

    /// The stream whose matrix is the constant row followed by `w`.
    fn from_seed_words(w: [u32; SEED_LEN_U32]) -> (r: Self)
        ensures
            r.matrix() == sigma() + w@,
    {
        let r = ChaChaCore {
            row_b: Row { u32x4: [w[0], w[1], w[2], w[3]] },
            row_c: Row { u32x4: [w[4], w[5], w[6], w[7]] },
            row_d: Row { u32x4: [w[8], w[9], w[10], w[11]] },
            _phantom: PhantomData,
        };
        assert(r.matrix() =~= sigma() + w@);
        r
    }
}

/// The twelve words whose little-endian bytes are `b`.
pub open spec fn words_of_bytes(b: Seq<u8>) -> Seq<u32> {
    Seq::new(12, |i: int| le_word(b[4 * i], b[4 * i + 1], b[4 * i + 2], b[4 * i + 3]))
}

/// The twelve words whose little-endian pairs are `q`.
pub open spec fn words_of_u64s(q: Seq<u64>) -> Seq<u32> {
    Seq::new(12, |i: int| if i % 2 == 0 { low(q[i / 2]) } else { high(q[i / 2]) })
}

// The `From` impls below state their result through `matrix`: the marker
// field cannot be compared in specifications, so `from_spec` is not claimed.
impl<M, R, V> From<[u32; SEED_LEN_U32]> for ChaChaCore<M, R, V> {
    /// The stream whose matrix is the constant row followed by `value`.
    fn from(value: [u32; SEED_LEN_U32]) -> (r: Self)
        ensures
            r.matrix() == sigma() + value@,
    {
        Self::from_seed_words(value)
    }
}

impl<M, R, V> vstd::std_specs::convert::FromSpecImpl<[u32; SEED_LEN_U32]> for ChaChaCore<M, R, V> {
    open spec fn obeys_from_spec() -> bool {
        false
    }

    open spec fn from_spec(v: [u32; SEED_LEN_U32]) -> Self {
        ChaChaCore::from_words(v@)
    }
}

impl<M, R, V> From<[u8; SEED_LEN_U8]> for ChaChaCore<M, R, V> {
    /// The stream whose matrix is the constant row followed by the words
    /// whose little-endian bytes are `value`.
    fn from(value: [u8; SEED_LEN_U8]) -> (r: Self)
        ensures
            r.matrix() == sigma() + words_of_bytes(value@),
    {
        let mut w: [u32; SEED_LEN_U32] = [0; SEED_LEN_U32];
        let mut i: usize = 0;
        while i < SEED_LEN_U32
            invariant
                i <= 12,
                forall|j: int| 0 <= j < i ==> #[trigger] w[j] == words_of_bytes(value@)[j],
            decreases 12 - i,
        {
            let b = 4 * i;
            w[i] = (value[b] as u32) | ((value[b + 1] as u32) << 8) | ((value[b + 2] as u32) << 16) | ((value[b + 3] as u32) << 24);
            i += 1;
        }
        assert(w@ =~= words_of_bytes(value@));
        Self::from_seed_words(w)
    }
}

impl<M, R, V> vstd::std_specs::convert::FromSpecImpl<[u8; SEED_LEN_U8]> for ChaChaCore<M, R, V> {
    open spec fn obeys_from_spec() -> bool {
        false
    }

    open spec fn from_spec(v: [u8; SEED_LEN_U8]) -> Self {
        ChaChaCore::from_words(words_of_bytes(v@))
    }
}

impl<M, R, V> From<[u64; SEED_LEN_U64]> for ChaChaCore<M, R, V> {
    /// The stream whose matrix is the constant row followed by the words
    /// whose little-endian pairs are `value`.
    fn from(value: [u64; SEED_LEN_U64]) -> (r: Self)
        ensures
            r.matrix() == sigma() + words_of_u64s(value@),
    {
        let mut w: [u32; SEED_LEN_U32] = [0; SEED_LEN_U32];
        let mut i: usize = 0;
        while i < SEED_LEN_U64
            invariant
                i <= 6,
                forall|j: int| 0 <= j < 2 * i ==> #[trigger] w[j] == words_of_u64s(value@)[j],
            decreases 6 - i,
        {
            w[2 * i] = value[i] as u32;
            w[2 * i + 1] = (value[i] >> 32) as u32;
            assert((2 * i) / 2 == i && (2 * i + 1) / 2 == i && (2 * i) % 2 == 0 && (2 * i + 1) % 2 == 1);
            i += 1;
        }
        assert(w@ =~= words_of_u64s(value@));
        Self::from_seed_words(w)
    }
}

impl<M, R, V> vstd::std_specs::convert::FromSpecImpl<[u64; SEED_LEN_U64]> for ChaChaCore<M, R, V> {
    open spec fn obeys_from_spec() -> bool {
        false
    }

    open spec fn from_spec(v: [u64; SEED_LEN_U64]) -> Self {
        ChaChaCore::from_words(words_of_u64s(v@))
    }
}

impl<M, R, V> From<u8> for ChaChaCore<M, R, V> {
    /// The stream whose seed bytes are all `value`.
    fn from(value: u8) -> (r: Self)
        ensures
            r.matrix() == sigma() + words_of_bytes(Seq::new(48, |i: int| value)),
    {
        let r = <Self as From<[u8; SEED_LEN_U8]>>::from([value; SEED_LEN_U8]);
        assert([value; SEED_LEN_U8]@ =~= Seq::new(48, |i: int| value));
        r
    }
}

impl<M, R, V> vstd::std_specs::convert::FromSpecImpl<u8> for ChaChaCore<M, R, V> {
    open spec fn obeys_from_spec() -> bool {
        false
    }

    open spec fn from_spec(v: u8) -> Self {
        ChaChaCore::from_words(words_of_bytes(Seq::new(48, |i: int| v)))
    }
}

impl<M, R, V> From<u32> for ChaChaCore<M, R, V> {
    /// The stream whose seed words are all `value`.
    fn from(value: u32) -> (r: Self)
        ensures
            r.matrix() == sigma() + Seq::new(12, |i: int| value),
    {
        let r = Self::from_seed_words([value; SEED_LEN_U32]);
        assert([value; SEED_LEN_U32]@ =~= Seq::new(12, |i: int| value));
        r
    }
}

impl<M, R, V> vstd::std_specs::convert::FromSpecImpl<u32> for ChaChaCore<M, R, V> {
    open spec fn obeys_from_spec() -> bool {
        false
    }

    open spec fn from_spec(v: u32) -> Self {
        ChaChaCore::from_words(Seq::new(12, |i: int| v))
    }
}

impl<M, R, V> From<u64> for ChaChaCore<M, R, V> {
    /// The stream whose seed, read as six 64-bit words, is all `value`.
    fn from(value: u64) -> (r: Self)
        ensures
            r.matrix() == sigma() + words_of_u64s(Seq::new(6, |i: int| value)),
    {
        let r = <Self as From<[u64; SEED_LEN_U64]>>::from([value; SEED_LEN_U64]);
        assert([value; SEED_LEN_U64]@ =~= Seq::new(6, |i: int| value));
        r
    }
}

impl<M, R, V> vstd::std_specs::convert::FromSpecImpl<u64> for ChaChaCore<M, R, V> {
    open spec fn obeys_from_spec() -> bool {
        false
    }

    open spec fn from_spec(v: u64) -> Self {
        ChaChaCore::from_words(words_of_u64s(Seq::new(6, |i: int| v)))
    }
}

impl<M: Machine, R: DoubleRounds, V: Variant> ChaChaCore<M, R, V> {
    /// Creates a stream from a key, a counter and a nonce.
    ///
    /// The key is kept as it is. [`crate::Djb`] keeps all of `counter` and the
    /// first two words of `nonce`; [`crate::Ietf`] keeps the low 32 bits of
    /// `counter` and all of `nonce`.
    pub fn new(key: [u32; 8], counter: u64, nonce: [u32; 3]) -> (r: Self)
        ensures
            r.matrix() == initial(V::var(), key@, counter, nonce@),
    {
        let row_b = Row { u32x4: [key[0], key[1], key[2], key[3]] };
        let row_c = Row { u32x4: [key[4], key[5], key[6], key[7]] };
        let row_d = match V::variant() {
            Variants::Djb => {
                let nonce_low = (nonce[0] as u64) | ((nonce[1] as u64) << 32);
                proof {
                    lemma_join_split(nonce[0], nonce[1], 0);
                }
                Row::from_u64x2([counter, nonce_low])
            },
            Variants::Ietf => {
                let counter = counter as u32;
                Row { u32x4: [counter, nonce[0], nonce[1], nonce[2]] }
            },
        };
        let r = ChaChaCore { row_b, row_c, row_d, _phantom: PhantomData };
        assert(r.matrix() =~= initial(V::var(), key@, counter, nonce@));
        r
    }

    /// The block counter: words 12 and 13 as one 64-bit integer under
    /// [`crate::Djb`], word 12 under [`crate::Ietf`].
    pub fn get_counter(&self) -> (r: u64)
        ensures
            r == counter_of(V::var(), self.matrix()),
    {
        match V::variant() {
            Variants::Djb => self.row_d.u64x2()[0],
            Variants::Ietf => self.row_d.u32x4[0] as u64,
        }
    }

    /// Sets the block counter, to seek within the stream. Under
    /// [`crate::Ietf`] only the low 32 bits of `new_counter` are kept.
    pub fn set_counter(&mut self, new_counter: u64)
        ensures
            final(self).matrix() == with_counter(V::var(), old(self).matrix(), new_counter),
    {
        match V::variant() {
            Variants::Djb => {
                self.row_d.u32x4[0] = new_counter as u32;
                self.row_d.u32x4[1] = (new_counter >> 32) as u32;
            },
            Variants::Ietf => {
                self.row_d.u32x4[0] = new_counter as u32;
            },
        }
        assert(self.matrix() =~= with_counter(V::var(), old(self).matrix(), new_counter));
    }

    /// Moves the block counter on by `k` blocks, wrapping around.
    fn add_to_counter(&mut self, k: u32)
        ensures
            final(self).matrix() == advance(V::var(), old(self).matrix(), k as nat),
    {
        match V::variant() {
            Variants::Djb => {
                let c = self.row_d.u64x2()[0];
                let c2 = c.wrapping_add(k as u64);
                proof {
                    lemma_wrapping_add_u64(c, k as u64);
                }
                self.row_d.u32x4[0] = c2 as u32;
                self.row_d.u32x4[1] = (c2 >> 32) as u32;
            },
            Variants::Ietf => {
                let c = self.row_d.u32x4[0];
                proof {
                    lemma_wrapping_add_u32(c, k);
                }
                self.row_d.u32x4[0] = c.wrapping_add(k);
            },
        }
        assert(self.matrix() =~= advance(V::var(), old(self).matrix(), k as nat));
    }

    /// Moves the block counter on by [`DEPTH`] blocks.
    fn increment(&mut self)
        ensures
            final(self).matrix() == advance(V::var(), old(self).matrix(), 4),
    {
        self.add_to_counter(DEPTH as u32);
    }

    /// Xors `dst` with the next `dst.len()` bytes of the stream. The counter
    /// moves on by the number of 64-byte blocks touched.
    pub fn xor(&mut self, dst: &mut [u8])
        ensures
            final(dst)@ == xor_bytes(old(dst)@, keystream(V::var(), R::count_spec(), old(self).matrix(), old(dst)@.len())),
            final(self).matrix() == advance(V::var(), old(self).matrix(), blocks_for(old(dst)@.len())),
    {
        self.slice(dst, true);
    }

    /// Fills `dst` with the next `dst.len()` bytes of the stream. The counter
    /// moves on by the number of 64-byte blocks touched.
    pub fn fill(&mut self, dst: &mut [u8])
        ensures
            final(dst)@ == keystream(V::var(), R::count_spec(), old(self).matrix(), old(dst)@.len()),
            final(self).matrix() == advance(V::var(), old(self).matrix(), blocks_for(old(dst)@.len())),
    {
        self.slice(dst, false);
    }

    /// Writes (or, with `xor`, xors) the keystream over `dst`: whole
    /// 256-byte chunks first, then, for a shorter remainder, the prefix of one
    /// more machine computation. After a remainder the counter moves on by
    /// the number of 64-byte blocks the remainder touched, not by four.
    fn slice(&mut self, dst: &mut [u8], xor: bool)
        ensures
            xor ==> final(dst)@ == xor_bytes(old(dst)@, keystream(V::var(), R::count_spec(), old(self).matrix(), old(dst)@.len())),
            !xor ==> final(dst)@ == keystream(V::var(), R::count_spec(), old(self).matrix(), old(dst)@.len()),
            final(self).matrix() == advance(V::var(), old(self).matrix(), blocks_for(old(dst)@.len())),
    {
        let ghost v = V::var();
        let ghost r = R::count_spec();
        let ghost m0 = self.matrix();
        let ghost d0 = dst@;
        proof {
            self.lemma_matrix_wf();
            lemma_advance_zero(v, m0);
        }
        let mut machine = M::new::<V>(&self.get_naked());
        let len = dst.len();
        let full = len / BUF_LEN_U8;
        let mut buf: [u8; BUF_LEN_U8] = [0; BUF_LEN_U8];
        let mut i: usize = 0;
        while i < full
            invariant
                i <= full,
                full == len / 256,
                len == d0.len(),
                dst@.len() == len,
                m0.len() == 16,
                v == V::var(),
                r == R::count_spec(),
                machine.lanes() == lanes_from(v, self.matrix()),
                self.matrix() == advance(v, m0, 4 * i as nat),
                forall|j: int| 0 <= j < 256 * i ==> #[trigger] dst@[j] == stream_out(xor, d0, v, r, m0, j),
                forall|j: int| 256 * i <= j < len ==> #[trigger] dst@[j] == d0[j],
            decreases full - i,
        {
            self.chacha(&mut machine, &mut buf, true);
            assert(256 * i + 256 <= len && i * 256 == 256 * i) by (nonlinear_arith)
                requires
                    i < full,
                    full == len / 256,
            ;
            let base = i * BUF_LEN_U8;
            splice(dst, base, &buf, BUF_LEN_U8, xor);
            assert forall|j: int| 0 <= j < 256 * (i + 1) implies #[trigger] dst@[j] == stream_out(xor, d0, v, r, m0, j) by {
                if j >= base {
                    lemma_keystream_shift(v, r, m0, 4 * i as nat, j - base);
                }
            }
            proof {
                lemma_advance_add(v, m0, 4 * i as nat, 4);
            }
            i += 1;
        }
        let rem = len - full * BUF_LEN_U8;
        assert(len == 256 * full + rem && rem < 256) by (nonlinear_arith)
            requires
                full == len / 256,
                rem == len - full * 256,
        ;
        if rem > 0 {
            self.chacha(&mut machine, &mut buf, false);
            let base = full * BUF_LEN_U8;
            splice(dst, base, &buf, rem, xor);
            assert forall|j: int| 0 <= j < len implies #[trigger] dst@[j] == stream_out(xor, d0, v, r, m0, j) by {
                if j >= base {
                    lemma_keystream_shift(v, r, m0, 4 * full as nat, j - base);
                }
            }
            let blocks = (rem + 63) / 64;
            self.add_to_counter(blocks as u32);
            proof {
                lemma_advance_add(v, m0, 4 * full as nat, blocks as nat);
                assert(blocks_for(len as nat) == 4 * full + blocks) by (nonlinear_arith)
                    requires
                        len == 256 * full + rem,
                        blocks == (rem + 63) / 64,
                ;
            }
        } else {
            assert(blocks_for(len as nat) == 4 * full) by (nonlinear_arith)
                requires
                    len == 256 * full,
            ;
        }
        assert(xor ==> dst@ =~= xor_bytes(d0, keystream(v, r, m0, len as nat)));
        assert(!xor ==> dst@ =~= keystream(v, r, m0, len as nat));
    }

    /// Computes one machine's worth of output (four blocks, 256 bytes) and
    /// uses it to fill the returned array with little-endian `u64` values.
    pub fn get_block_u64(&mut self) -> (r: [u64; BUF_LEN_U64])
        ensures
            forall|i: int|
                0 <= i < 32 ==> #[trigger] r[i] == le_u64(
                    keystream(V::var(), R::count_spec(), old(self).matrix(), 256).subrange(8 * i, 8 * i + 8),
                ),
            final(self).matrix() == advance(V::var(), old(self).matrix(), 4),
    {
        let mut result: [u64; BUF_LEN_U64] = [0; BUF_LEN_U64];
        self.fill_block_u64(&mut result);
        result
    }

    /// Computes one machine's worth of output (four blocks, 256 bytes) and
    /// returns it.
    pub fn get_block(&mut self) -> (r: [u8; BUF_LEN_U8])
        ensures
            r@ == keystream(V::var(), R::count_spec(), old(self).matrix(), 256),
            final(self).matrix() == advance(V::var(), old(self).matrix(), 4),
    {
        let mut result: [u8; BUF_LEN_U8] = [0; BUF_LEN_U8];
        self.fill_block(&mut result);
        result
    }

    /// Computes one machine's worth of output (four blocks, 256 bytes) and
    /// uses it to fill `buf` with little-endian `u64` values.
    pub fn fill_block_u64(&mut self, buf: &mut [u64; BUF_LEN_U64])
        ensures
            forall|i: int|
                0 <= i < 32 ==> #[trigger] final(buf)[i] == le_u64(
                    keystream(V::var(), R::count_spec(), old(self).matrix(), 256).subrange(8 * i, 8 * i + 8),
                ),
            final(self).matrix() == advance(V::var(), old(self).matrix(), 4),
    {
        let ghost ks = keystream(V::var(), R::count_spec(), self.matrix(), 256);
        let mut bytes: [u8; BUF_LEN_U8] = [0; BUF_LEN_U8];
        self.chacha_once(&mut bytes, false);
        let mut i: usize = 0;
        while i < BUF_LEN_U64
            invariant
                i <= 32,
                bytes@ == ks,
                ks.len() == 256,
                forall|k: int| 0 <= k < i ==> #[trigger] buf[k] == le_u64(ks.subrange(8 * k, 8 * k + 8)),
            decreases 32 - i,
        {
            let b = 8 * i;
            let lo = (bytes[b] as u32) | ((bytes[b + 1] as u32) << 8) | ((bytes[b + 2] as u32) << 16) | ((bytes[b + 3] as u32) << 24);
            let hi = (bytes[b + 4] as u32) | ((bytes[b + 5] as u32) << 8) | ((bytes[b + 6] as u32) << 16) | ((bytes[b + 7] as u32) << 24);
            buf[i] = (lo as u64) | ((hi as u64) << 32);
            assert(buf[i as int] == le_u64(ks.subrange(8 * i, 8 * i + 8)));
            i += 1;
        }
    }

    /// Computes one machine's worth of output (four blocks, 256 bytes) into
    /// `buf`.
    pub fn fill_block(&mut self, buf: &mut [u8; BUF_LEN_U8])
        ensures
            final(buf)@ == keystream(V::var(), R::count_spec(), old(self).matrix(), 256),
            final(self).matrix() == advance(V::var(), old(self).matrix(), 4),
    {
        self.chacha_once(buf, false);
    }

    /// Computes one machine's worth of output (four blocks, 256 bytes) and
    /// xors it into `buf`.
    pub fn xor_block(&mut self, buf: &mut [u8; BUF_LEN_U8])
        ensures
            final(buf)@ == xor_bytes(old(buf)@, keystream(V::var(), R::count_spec(), old(self).matrix(), 256)),
            final(self).matrix() == advance(V::var(), old(self).matrix(), 4),
    {
        self.chacha_once(buf, true);
    }

    /// One fresh machine computation into `buf` (xored in with `xor`), then
    /// the counter moves on four blocks.
    fn chacha_once(&mut self, buf: &mut [u8; BUF_LEN_U8], xor: bool)
        ensures
            xor ==> final(buf)@ == xor_bytes(old(buf)@, keystream(V::var(), R::count_spec(), old(self).matrix(), 256)),
            !xor ==> final(buf)@ == keystream(V::var(), R::count_spec(), old(self).matrix(), 256),
            final(self).matrix() == advance(V::var(), old(self).matrix(), 4),
    {
        let mut machine = M::new::<V>(&self.get_naked());
        if xor {
            let mut ks: [u8; BUF_LEN_U8] = [0; BUF_LEN_U8];
            self.chacha(&mut machine, &mut ks, false);
            let mut t: usize = 0;
            while t < BUF_LEN_U8
                invariant
                    t <= 256,
                    forall|j: int| 0 <= j < t ==> #[trigger] buf[j] == old(buf)[j] ^ ks[j],
                    forall|j: int| t <= j < 256 ==> #[trigger] buf[j] == old(buf)[j],
                decreases 256 - t,
            {
                buf[t] = buf[t] ^ ks[t];
                t += 1;
            }
            assert(buf@ =~= xor_bytes(old(buf)@, ks@));
        } else {
            self.chacha(&mut machine, buf, false);
        }
        self.increment();
    }

    /// Four blocks from the lanes of `machine` into `buf`. With `increment`,
    /// the machine and the stream both move on four blocks.
    fn chacha(&mut self, machine: &mut M, buf: &mut [u8; BUF_LEN_U8], increment: bool)
        requires
            old(machine).lanes() == lanes_from(V::var(), old(self).matrix()),
        ensures
            final(buf)@ == keystream(V::var(), R::count_spec(), old(self).matrix(), 256),
            increment ==> final(self).matrix() == advance(V::var(), old(self).matrix(), 4),
            !increment ==> final(self).matrix() == old(self).matrix(),
            final(machine).lanes() == lanes_from(V::var(), final(self).matrix()),
    {
        let ghost start = machine.lanes();
        let ghost m = self.matrix();
        proof {
            self.lemma_matrix_wf();
        }
        let mut cur = machine.duplicate();
        let count = R::count();
        let mut i: usize = 0;
        while i < count
            invariant
                i <= count,
                count == R::count_spec(),
                cur.lanes() == Seq::new(4, |l: int| rounds(start[l], i as nat)),
            decreases count - i,
        {
            cur.double_round();
            i += 1;
            assert(cur.lanes() =~= Seq::new(4, |l: int| rounds(start[l], i as nat)));
        }
        let result = cur.add(machine.duplicate());
        result.fetch_result(buf);
        assert(buf@ =~= keystream(V::var(), R::count_spec(), m, 256));
        if increment {
            machine.increment::<V>();
            self.increment();
            assert forall|l: int| 0 <= l < 4 implies #[trigger] machine.lanes()[l] == lanes_from(V::var(), self.matrix())[l] by {
                lemma_advance_add(V::var(), m, l as nat, 4);
                lemma_advance_add(V::var(), m, 4, l as nat);
            }
            assert(machine.lanes() =~= lanes_from(V::var(), self.matrix()));
        }
    }

    /// The three rows, as handed to a machine.
    fn get_naked(&self) -> (r: ChaChaNaked)
        ensures
            r.matrix() == self.matrix(),
    {
        ChaChaNaked { row_b: self.row_b, row_c: self.row_c, row_d: self.row_d }
    }
}

/// Byte `j` of what a call leaves in a buffer that held `d0`: the keystream
/// byte, xored into `d0[j]` with `xor`.
pub open spec fn stream_out(xor: bool, d0: Seq<u8>, v: Variants, r: nat, m: Seq<u32>, j: int) -> u8 {
    if xor {
        d0[j] ^ keystream_byte(v, r, m, j)
    } else {
        keystream_byte(v, r, m, j)
    }
}

/// Writes (or, with `xor`, xors) the first `n` bytes of `buf` over
/// `dst[base..base + n]`, leaving the rest of `dst` as it was.
fn splice(dst: &mut [u8], base: usize, buf: &[u8; BUF_LEN_U8], n: usize, xor: bool)
    requires
        n <= 256,
        base + n <= old(dst)@.len(),
    ensures
        final(dst)@.len() == old(dst)@.len(),
        forall|j: int|
            0 <= j < old(dst)@.len() && !(base <= j < base + n) ==> #[trigger] final(dst)@[j] == old(dst)@[j],
        forall|t: int|
            0 <= t < n ==> #[trigger] final(dst)@[base + t] == if xor {
                old(dst)@[base + t] ^ buf[t]
            } else {
                buf[t]
            },
{
    let len = dst.len();
    let mut t: usize = 0;
    while t < n
        invariant
            t <= n,
            n <= 256,
            len == old(dst)@.len(),
            base + n <= old(dst)@.len(),
            dst@.len() == old(dst)@.len(),
            forall|j: int|
                0 <= j < old(dst)@.len() && !(base <= j < base + t) ==> #[trigger] dst@[j] == old(dst)@[j],
            forall|k: int|
                0 <= k < t ==> #[trigger] dst@[base + k] == if xor {
                    old(dst)@[base + k] ^ buf[k]
                } else {
                    buf[k]
                },
        decreases n - t,
    {
        if xor {
            dst[base + t] = dst[base + t] ^ buf[t];
        } else {
            dst[base + t] = buf[t];
        }
        t += 1;
    }
}

/// Two streams built by [`ChaChaCore::new`] from the same key, counter and
/// nonce, with the same round count and layout, yield the same bytes for any
/// length, whatever machine each runs on: `new` fixes the matrix, and what
/// [`ChaChaCore::fill`] and [`ChaChaCore::get_block`] yield is a function of
/// the matrix alone.
pub proof fn lemma_streams_agree<M1, M2, R: DoubleRounds, V: Variant>(
    a: &ChaChaCore<M1, R, V>,
    b: &ChaChaCore<M2, R, V>,
    key: [u32; 8],
    counter: u64,
    nonce: [u32; 3],
    n: nat,
)
    requires
        a.matrix() == initial(V::var(), key@, counter, nonce@),
        b.matrix() == initial(V::var(), key@, counter, nonce@),
    ensures
        a.matrix() == b.matrix(),
        keystream(V::var(), R::count_spec(), a.matrix(), n) == keystream(V::var(), R::count_spec(), b.matrix(), n),
{
}

} // verus!
