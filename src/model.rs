//! Mathematical model of ChaCha: the quarter round, the double round, the
//! block function, the counter arithmetic of each layout, and the keystream
//! that a matrix and its successors produce.
//!
//! A matrix is a `Seq<u32>` of sixteen words, row-major: the constant row,
//! two key rows, and the counter/nonce row.
use crate::variations::Variants;
use vstd::arithmetic::div_mod::{lemma_add_mod_noop_right, lemma_small_mod};
use vstd::prelude::*;

verus! {

/// The words of "expand 32-byte k", read little-endian.
pub open spec fn sigma() -> Seq<u32> {
    seq![0x6170_7865u32, 0x3320_646eu32, 0x7962_2d32u32, 0x6b20_6574u32]
}

/// Rotation of a 32-bit word to the left by `n` bits (`0 < n < 32`).
pub open spec fn rotl(x: u32, n: u32) -> u32 {
    (x << n) | (x >> ((32 - n) as u32))
}

/// The quarter round on four words.
pub open spec fn quarter(a: u32, b: u32, c: u32, d: u32) -> (u32, u32, u32, u32) {
    let a = a.wrapping_add(b);
    let d = rotl(d ^ a, 16);
    let c = c.wrapping_add(d);
    let b = rotl(b ^ c, 12);
    let a = a.wrapping_add(b);
    let d = rotl(d ^ a, 8);
    let c = c.wrapping_add(d);
    let b = rotl(b ^ c, 7);
    (a, b, c, d)
}

/// The quarter round over the words at indices `a`, `b`, `c`, `d` of `m`.
pub open spec fn quarter_round(m: Seq<u32>, a: int, b: int, c: int, d: int) -> Seq<u32> {
    let q = quarter(m[a], m[b], m[c], m[d]);
    m.update(a, q.0).update(b, q.1).update(c, q.2).update(d, q.3)
}

/// Four quarter rounds down the columns.
pub open spec fn column_round(m: Seq<u32>) -> Seq<u32> {
    let m = quarter_round(m, 0, 4, 8, 12);
    let m = quarter_round(m, 1, 5, 9, 13);
    let m = quarter_round(m, 2, 6, 10, 14);
    quarter_round(m, 3, 7, 11, 15)
}

/// Four quarter rounds along the diagonals.
pub open spec fn diagonal_round(m: Seq<u32>) -> Seq<u32> {
    let m = quarter_round(m, 0, 5, 10, 15);
    let m = quarter_round(m, 1, 6, 11, 12);
    let m = quarter_round(m, 2, 7, 8, 13);
    quarter_round(m, 3, 4, 9, 14)
}

/// A column round followed by a diagonal round.
pub open spec fn double_round(m: Seq<u32>) -> Seq<u32> {
    diagonal_round(column_round(m))
}

/// `n` double rounds.
pub open spec fn rounds(m: Seq<u32>, n: nat) -> Seq<u32>
    decreases n,
{
    if n == 0 {
        m
    } else {
        double_round(rounds(m, (n - 1) as nat))
    }
}

/// Word-by-word sum modulo 2^32 of two matrices.
pub open spec fn add_words(x: Seq<u32>, y: Seq<u32>) -> Seq<u32> {
    Seq::new(16, |i: int| x[i].wrapping_add(y[i]))
}

/// The block function: `r` double rounds, then the input added back.
pub open spec fn block_words(m: Seq<u32>, r: nat) -> Seq<u32> {
    add_words(rounds(m, r), m)
}

/// Byte `j` (0 to 3) of `w` in little-endian order.
pub open spec fn le_byte(w: u32, j: int) -> u8 {
    if j == 0 {
        w as u8
    } else if j == 1 {
        (w >> 8u32) as u8
    } else if j == 2 {
        (w >> 16u32) as u8
    } else {
        (w >> 24u32) as u8
    }
}

/// The little-endian bytes of a sequence of words.
pub open spec fn le_bytes(ws: Seq<u32>) -> Seq<u8> {
    Seq::new(4 * ws.len(), |i: int| le_byte(ws[i / 4], i % 4))
}

/// The word whose little-endian bytes are `b0` to `b3`.
pub open spec fn le_word(b0: u8, b1: u8, b2: u8, b3: u8) -> u32 {
    (b0 as u32) | ((b1 as u32) << 8u32) | ((b2 as u32) << 16u32) | ((b3 as u32) << 24u32)
}

/// The 64-bit integer whose low half is `lo` and high half is `hi`.
pub open spec fn join(lo: u32, hi: u32) -> u64 {
    (lo as u64) | ((hi as u64) << 32u64)
}

/// The low half of `x`.
pub open spec fn low(x: u64) -> u32 {
    x as u32
}

/// The high half of `x`.
pub open spec fn high(x: u64) -> u32 {
    (x >> 32u64) as u32
}

/// The 64-bit integer whose little-endian bytes are `b[0]` to `b[7]`.
pub open spec fn le_u64(b: Seq<u8>) -> u64 {
    join(le_word(b[0], b[1], b[2], b[3]), le_word(b[4], b[5], b[6], b[7]))
}

/// The block counter of matrix `m` under layout `v`.
pub open spec fn counter_of(v: Variants, m: Seq<u32>) -> u64 {
    match v {
        Variants::Djb => join(m[12], m[13]),
        Variants::Ietf => m[12] as u64,
    }
}

/// `m` with its block counter replaced by `c` (truncated to 32 bits under
/// [`Variants::Ietf`]).
pub open spec fn with_counter(v: Variants, m: Seq<u32>, c: u64) -> Seq<u32> {
    match v {
        Variants::Djb => m.update(12, low(c)).update(13, high(c)),
        Variants::Ietf => m.update(12, c as u32),
    }
}

/// The number of distinct counter values under layout `v`.
pub open spec fn counter_modulus(v: Variants) -> nat {
    match v {
        Variants::Djb => 0x1_0000_0000_0000_0000,
        Variants::Ietf => 0x1_0000_0000,
    }
}

/// `m` with its block counter moved `k` blocks on, wrapping around.
pub open spec fn advance(v: Variants, m: Seq<u32>, k: nat) -> Seq<u32> {
    with_counter(v, m, ((counter_of(v, m) as nat + k) % counter_modulus(v)) as u64)
}

/// The starting matrix of a stream from a key, a counter and a nonce.
/// [`Variants::Djb`] keeps all of `counter` and the first two nonce words;
/// [`Variants::Ietf`] keeps the low 32 bits of `counter` and all three.
pub open spec fn initial(v: Variants, key: Seq<u32>, counter: u64, nonce: Seq<u32>) -> Seq<u32> {
    match v {
        Variants::Djb => sigma() + key + seq![low(counter), high(counter), nonce[0], nonce[1]],
        Variants::Ietf => sigma() + key + seq![counter as u32, nonce[0], nonce[1], nonce[2]],
    }
}

/// The four lanes that one machine computes from `m`: the matrix itself and
/// its next three successors.
pub open spec fn lanes_from(v: Variants, m: Seq<u32>) -> Seq<Seq<u32>> {
    Seq::new(4, |l: int| advance(v, m, l as nat))
}

/// The 256 output bytes of four lanes, lane after lane, each lane's words in
/// little-endian order.
pub open spec fn lanes_bytes(ls: Seq<Seq<u32>>) -> Seq<u8> {
    Seq::new(256, |j: int| le_byte(ls[j / 64][(j % 64) / 4], j % 4))
}

/// Byte `k` of the keystream from matrix `m`: byte `k % 64` of the block
/// whose counter is `k / 64` past that of `m`.
pub open spec fn keystream_byte(v: Variants, r: nat, m: Seq<u32>, k: int) -> u8 {
    le_byte(block_words(advance(v, m, (k / 64) as nat), r)[(k % 64) / 4], k % 4)
}

/// The first `n` bytes of the keystream from matrix `m`.
pub open spec fn keystream(v: Variants, r: nat, m: Seq<u32>, n: nat) -> Seq<u8> {
    Seq::new(n, |k: int| keystream_byte(v, r, m, k))
}

/// Byte-by-byte exclusive or of `a` with the first `a.len()` bytes of `b`.
pub open spec fn xor_bytes(a: Seq<u8>, b: Seq<u8>) -> Seq<u8> {
    Seq::new(a.len(), |i: int| a[i] ^ b[i])
}

/// The number of 64-byte blocks that `n` bytes touch.
pub open spec fn blocks_for(n: nat) -> nat {
    (n + 63) / 64
}

/// Splitting a 64-bit integer into halves and joining them back are inverse.
pub proof fn lemma_join_split(lo: u32, hi: u32, x: u64)
    by (bit_vector)
    ensures
        low(join(lo, hi)) == lo,
        high(join(lo, hi)) == hi,
        join(low(x), high(x)) == x,
{
}

/// `wrapping_add` on 64-bit words is addition modulo 2^64.
pub proof fn lemma_wrapping_add_u64(x: u64, y: u64)
    ensures
        x.wrapping_add(y) as nat == (x as nat + y as nat) % 0x1_0000_0000_0000_0000,
{
    let s = x as nat + y as nat;
    if s < 0x1_0000_0000_0000_0000 {
        lemma_small_mod(s, 0x1_0000_0000_0000_0000);
    } else {
        lemma_small_mod((s - 0x1_0000_0000_0000_0000) as nat, 0x1_0000_0000_0000_0000);
    }
}

/// `wrapping_add` on 32-bit words is addition modulo 2^32.
pub proof fn lemma_wrapping_add_u32(x: u32, y: u32)
    ensures
        x.wrapping_add(y) as nat == (x as nat + y as nat) % 0x1_0000_0000,
{
    let s = x as nat + y as nat;
    if s < 0x1_0000_0000 {
        lemma_small_mod(s, 0x1_0000_0000);
    } else {
        lemma_small_mod((s - 0x1_0000_0000) as nat, 0x1_0000_0000);
    }
}

/// The counter of a matrix with a given counter.
pub proof fn lemma_counter_of_with(v: Variants, m: Seq<u32>, c: u64)
    requires
        m.len() == 16,
        c < counter_modulus(v),
    ensures
        counter_of(v, with_counter(v, m, c)) == c,
        with_counter(v, m, c).len() == 16,
{
    lemma_join_split(low(c), high(c), c);
}

/// Moving on `a` blocks and then `b` blocks is moving on `a + b` blocks.
pub proof fn lemma_advance_add(v: Variants, m: Seq<u32>, a: nat, b: nat)
    requires
        m.len() == 16,
    ensures
        advance(v, advance(v, m, a), b) == advance(v, m, a + b),
        advance(v, m, a).len() == 16,
{
    let md = counter_modulus(v) as int;
    let c0 = counter_of(v, m) as int;
    let c1 = ((c0 + a) % md) as u64;
    lemma_counter_of_with(v, m, c1);
    lemma_add_mod_noop_right(b as int, c0 + a, md);
    assert((c1 as int + b) % md == (c0 + a + b) % md);
    let c2 = ((c0 + a + b) % md) as u64;
    match v {
        Variants::Djb => {
            assert(advance(v, advance(v, m, a), b) =~= advance(v, m, a + b));
        },
        Variants::Ietf => {
            assert(advance(v, advance(v, m, a), b) =~= advance(v, m, a + b));
        },
    }
}

/// The keystream of a matrix moved on `a` blocks is the keystream of the
/// matrix from byte `64 * a` on.
pub proof fn lemma_keystream_shift(v: Variants, r: nat, m: Seq<u32>, a: nat, t: int)
    requires
        m.len() == 16,
        0 <= t,
    ensures
        keystream_byte(v, r, advance(v, m, a), t) == keystream_byte(v, r, m, 64 * a + t),
{
    lemma_advance_add(v, m, a, (t / 64) as nat);
    assert((64 * a + t) / 64 == a + t / 64 && (64 * a + t) % 64 == t % 64 && (64 * a + t) % 4 == t % 4) by (nonlinear_arith)
        requires
            0 <= t,
    ;
}

/// Moving on no blocks leaves a matrix as it is.
pub proof fn lemma_advance_zero(v: Variants, m: Seq<u32>)
    requires
        m.len() == 16,
    ensures
        advance(v, m, 0) == m,
{
    let c = counter_of(v, m);
    lemma_small_mod(c as nat, counter_modulus(v));
    lemma_join_split(m[12], m[13], c);
    assert(advance(v, m, 0) =~= m);
}

/// The counter after a run of calls that generate `lens[0]`, `lens[1]`, ...
/// bytes in turn, each call moving the counter on by the blocks it touched.
pub open spec fn advance_calls(v: Variants, m: Seq<u32>, lens: Seq<nat>) -> Seq<u32>
    decreases lens.len(),
{
    if lens.len() == 0 {
        m
    } else {
        advance_calls(v, advance(v, m, blocks_for(lens[0])), lens.drop_first())
    }
}

/// The bytes that a run of calls generating `lens[0]`, `lens[1]`, ... bytes
/// in turn yields, laid end to end.
pub open spec fn keystream_calls(v: Variants, r: nat, m: Seq<u32>, lens: Seq<nat>) -> Seq<u8>
    decreases lens.len(),
{
    if lens.len() == 0 {
        seq![]
    } else {
        keystream(v, r, m, lens[0]) + keystream_calls(v, r, advance(v, m, blocks_for(lens[0])), lens.drop_first())
    }
}

/// The sum of `lens`.
pub open spec fn total(lens: Seq<nat>) -> nat
    decreases lens.len(),
{
    if lens.len() == 0 {
        0
    } else {
        lens[0] + total(lens.drop_first())
    }
}

/// Counter bookkeeping across calls: after a run of calls that generate `N`
/// bytes in all, where every call but the last asks for a whole number of
/// 64-byte blocks, the counter stands `ceil(N / 64)` blocks (wrapping) past
/// where it started, as after one call for all `N` bytes; and the bytes are
/// those of that one call.
pub proof fn lemma_counter_across_calls(v: Variants, r: nat, m: Seq<u32>, lens: Seq<nat>)
    requires
        m.len() == 16,
        forall|i: int| 0 <= i < lens.len() - 1 ==> #[trigger] lens[i] % 64 == 0,
    ensures
        advance_calls(v, m, lens) == advance(v, m, blocks_for(total(lens))),
        counter_of(v, advance_calls(v, m, lens)) as int == (counter_of(v, m) + blocks_for(total(lens))) % (counter_modulus(v) as int),
        keystream_calls(v, r, m, lens) == keystream(v, r, m, total(lens)),
    decreases lens.len(),
{
    let md = counter_modulus(v);
    lemma_counter_of_with(v, m, ((counter_of(v, m) as nat + blocks_for(total(lens))) % md) as u64);
    if lens.len() == 0 {
        lemma_advance_zero(v, m);
        assert(keystream(v, r, m, 0) =~= seq![]);
    } else {
        let rest = lens.drop_first();
        let k = blocks_for(lens[0]);
        let m1 = advance(v, m, k);
        lemma_advance_add(v, m, 0, 0);
        lemma_advance_add(v, m, k, blocks_for(total(rest)));
        assert forall|i: int| 0 <= i < rest.len() - 1 implies #[trigger] rest[i] % 64 == 0 by {
            assert(rest[i] == lens[i + 1]);
        }
        lemma_counter_across_calls(v, r, m1, rest);
        if rest.len() == 0 {
            assert(total(rest) == 0);
            lemma_advance_zero(v, m1);
            assert(keystream(v, r, m, lens[0]) + seq![] =~= keystream(v, r, m, lens[0]));
        } else {
            assert(lens[0] % 64 == 0);
            assert(blocks_for(lens[0] + total(rest)) == k + blocks_for(total(rest))) by (nonlinear_arith)
                requires
                    lens[0] % 64 == 0,
                    k == (lens[0] + 63) / 64,
            ;
            assert forall|t: int| 0 <= t < total(rest) implies #[trigger] keystream_byte(v, r, m1, t) == keystream_byte(
                v,
                r,
                m,
                lens[0] + t,
            ) by {
                lemma_keystream_shift(v, r, m, k, t);
                assert(64 * k == lens[0]) by (nonlinear_arith)
                    requires
                        lens[0] % 64 == 0,
                        k == (lens[0] + 63) / 64,
                ;
            }
            assert(keystream(v, r, m, lens[0]) + keystream(v, r, m1, total(rest)) =~= keystream(
                v,
                r,
                m,
                lens[0] + total(rest),
            ));
        }
    }
}

/// A shorter call yields a prefix of what a longer one from the same state
/// yields: in particular a call for `k < 256` bytes yields the first `k`
/// bytes of a whole machine computation.
pub proof fn lemma_keystream_prefix(v: Variants, r: nat, m: Seq<u32>, k: nat, n: nat)
    requires
        k <= n,
    ensures
        keystream(v, r, m, k) == keystream(v, r, m, n).subrange(0, k as int),
{
    assert(keystream(v, r, m, k) =~= keystream(v, r, m, n).subrange(0, k as int));
}

/// Where the two layouts part: with word 12 at `u32::MAX - 3`, the four
/// blocks of one machine computation have the same matrices under both
/// layouts, while for the next four [`Variants::Ietf`] wraps word 12 to 0, 1,
/// 2, 3 and leaves word 13 as it was, and [`Variants::Djb`] carries into
/// word 13.
pub proof fn lemma_layout_boundary(m: Seq<u32>)
    requires
        m.len() == 16,
        m[12] == u32::MAX - 3,
    ensures
        forall|l: nat| l < 4 ==> #[trigger] advance(Variants::Ietf, m, l) == advance(Variants::Djb, m, l),
        forall|l: nat|
            l < 4 ==> #[trigger] advance(Variants::Ietf, m, 4 + l)[12] == l && advance(Variants::Ietf, m, 4 + l)[13] == m[13],
        forall|l: nat|
            l < 4 ==> #[trigger] advance(Variants::Djb, m, 4 + l)[12] == l && advance(Variants::Djb, m, 4 + l)[13] == (m[13]
                + 1) % 0x1_0000_0000,
        forall|l: nat|
            l < 4 ==> #[trigger] advance(Variants::Ietf, m, 4 + l) != advance(Variants::Djb, m, 4 + l),
{
    let (w12, w13) = (m[12], m[13]);
    lemma_join_value(w12, w13);
    assert forall|l: nat| l < 4 implies #[trigger] advance(Variants::Ietf, m, l) == advance(Variants::Djb, m, l) by {
        let s = ((join(w12, w13) as nat + l) % 0x1_0000_0000_0000_0000) as u64;
        lemma_halves_value(s);
        assert(advance(Variants::Ietf, m, l) =~= advance(Variants::Djb, m, l));
    }
    assert forall|l: nat|
        l < 4 implies #[trigger] advance(Variants::Djb, m, 4 + l)[12] == l && advance(Variants::Djb, m, 4 + l)[13] == (m[13] + 1)
        % 0x1_0000_0000 by {
        let s = ((join(w12, w13) as nat + 4 + l) % 0x1_0000_0000_0000_0000) as u64;
        lemma_halves_value(s);
    }
    assert forall|l: nat| l < 4 implies #[trigger] advance(Variants::Ietf, m, 4 + l) != advance(Variants::Djb, m, 4 + l) by {
        let s = ((join(w12, w13) as nat + 4 + l) % 0x1_0000_0000_0000_0000) as u64;
        lemma_halves_value(s);
        assert(advance(Variants::Ietf, m, 4 + l)[13] != advance(Variants::Djb, m, 4 + l)[13]);
    }
}

/// A pair of words read as one 64-bit integer.
pub proof fn lemma_join_value(lo: u32, hi: u32)
    by (bit_vector)
    ensures
        join(lo, hi) == lo as u64 + hi as u64 * 0x1_0000_0000u64,
{
}

/// The halves of a 64-bit integer.
pub proof fn lemma_halves_value(x: u64)
    by (bit_vector)
    ensures
        low(x) == x % 0x1_0000_0000u64,
        high(x) == x / 0x1_0000_0000u64,
{
}

} // verus!
