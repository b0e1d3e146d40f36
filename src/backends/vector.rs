//! Portable register operations: a register of `N` 32-bit elements is an
//! array `[u32; N]`, and its 128-bit groups are runs of four elements.
//!
//! Also here: the row-wise view of the column and diagonal rounds that the
//! packed backends rely on. A matrix is four rows of four words; a column
//! round is a quarter round on the rows, element by element, and a diagonal
//! round is the same after rotating three rows within themselves.
use crate::model::{
    add_words, advance, column_round, diagonal_round, high, join, lanes_bytes, lemma_join_split, lemma_wrapping_add_u32,
    lemma_wrapping_add_u64, low, quarter, rotl,
};
use crate::variations::Variants;
use vstd::prelude::*;

verus! {

/// Component `i` of a quarter round's result.
pub open spec fn pick(q: (u32, u32, u32, u32), i: int) -> u32 {
    if i == 0 {
        q.0
    } else if i == 1 {
        q.1
    } else if i == 2 {
        q.2
    } else {
        q.3
    }
}

/// Row `i` of the result of a quarter round applied element by element to
/// the rows `a`, `b`, `c`, `d`.
pub open spec fn quarter_row(a: Seq<u32>, b: Seq<u32>, c: Seq<u32>, d: Seq<u32>, i: int) -> Seq<u32> {
    Seq::new(4, |k: int| pick(quarter(a[k], b[k], c[k], d[k]), i))
}

/// The 128-bit group `g` of a register: elements `4g` to `4g + 3`.
pub open spec fn group(x: Seq<u32>, g: int) -> Seq<u32> {
    x.subrange(4 * g, 4 * g + 4)
}

/// The row `s` rotated by `n` elements: element `j` is `s[(j + n) % 4]`.
pub open spec fn rot(s: Seq<u32>, n: int) -> Seq<u32> {
    Seq::new(4, |j: int| s[(j + n) % 4])
}

/// A column round is a quarter round on whole rows.
pub proof fn lemma_column_rows(a: Seq<u32>, b: Seq<u32>, c: Seq<u32>, d: Seq<u32>)
    requires
        a.len() == 4,
        b.len() == 4,
        c.len() == 4,
        d.len() == 4,
    ensures
        column_round(a + b + c + d) == quarter_row(a, b, c, d, 0) + quarter_row(a, b, c, d, 1) + quarter_row(
            a,
            b,
            c,
            d,
            2,
        ) + quarter_row(a, b, c, d, 3),
{
    let m = a + b + c + d;
    assert(m[0] == a[0] && m[1] == a[1] && m[2] == a[2] && m[3] == a[3]);
    assert(m[4] == b[0] && m[5] == b[1] && m[6] == b[2] && m[7] == b[3]);
    assert(m[8] == c[0] && m[9] == c[1] && m[10] == c[2] && m[11] == c[3]);
    assert(m[12] == d[0] && m[13] == d[1] && m[14] == d[2] && m[15] == d[3]);
    assert(column_round(m) =~= quarter_row(a, b, c, d, 0) + quarter_row(a, b, c, d, 1) + quarter_row(a, b, c, d, 2)
        + quarter_row(a, b, c, d, 3));
}

/// A diagonal round is a column round between rotating rows `a`, `c`, `d`
/// by 3, 1 and 2 elements and rotating them back.
pub proof fn lemma_diagonal_rows(a: Seq<u32>, b: Seq<u32>, c: Seq<u32>, d: Seq<u32>)
    requires
        a.len() == 4,
        b.len() == 4,
        c.len() == 4,
        d.len() == 4,
    ensures
        ({
            let (a2, c2, d2) = (rot(a, 3), rot(c, 1), rot(d, 2));
            diagonal_round(a + b + c + d) == rot(quarter_row(a2, b, c2, d2, 0), 1) + quarter_row(a2, b, c2, d2, 1)
                + rot(quarter_row(a2, b, c2, d2, 2), 3) + rot(quarter_row(a2, b, c2, d2, 3), 2)
        }),
{
    let m = a + b + c + d;
    let (a2, c2, d2) = (rot(a, 3), rot(c, 1), rot(d, 2));
    assert(m[0] == a[0] && m[1] == a[1] && m[2] == a[2] && m[3] == a[3]);
    assert(m[4] == b[0] && m[5] == b[1] && m[6] == b[2] && m[7] == b[3]);
    assert(m[8] == c[0] && m[9] == c[1] && m[10] == c[2] && m[11] == c[3]);
    assert(m[12] == d[0] && m[13] == d[1] && m[14] == d[2] && m[15] == d[3]);
    assert(a2[0] == a[3] && a2[1] == a[0] && a2[2] == a[1] && a2[3] == a[2]);
    assert(c2[0] == c[1] && c2[1] == c[2] && c2[2] == c[3] && c2[3] == c[0]);
    assert(d2[0] == d[2] && d2[1] == d[3] && d2[2] == d[0] && d2[3] == d[1]);
    assert(diagonal_round(m) =~= rot(quarter_row(a2, b, c2, d2, 0), 1) + quarter_row(a2, b, c2, d2, 1) + rot(
        quarter_row(a2, b, c2, d2, 2),
        3,
    ) + rot(quarter_row(a2, b, c2, d2, 3), 2));
}

/// Under [`Variants::Djb`], a counter row whose low pair is that of `d`
/// plus `k` as one 64-bit sum, and whose high pair is that of `d` plus 0, is
/// the counter row of the matrix moved on `k` blocks.
pub proof fn lemma_counter_row_djb(a: Seq<u32>, b: Seq<u32>, c: Seq<u32>, d: Seq<u32>, d2: Seq<u32>, k: u32)
    requires
        a.len() == 4,
        b.len() == 4,
        c.len() == 4,
        d.len() == 4,
        d2.len() == 4,
        d2[0] == low(join(d[0], d[1]).wrapping_add(join(k, 0))),
        d2[1] == high(join(d[0], d[1]).wrapping_add(join(k, 0))),
        d2[2] == low(join(d[2], d[3]).wrapping_add(join(0, 0))),
        d2[3] == high(join(d[2], d[3]).wrapping_add(join(0, 0))),
    ensures
        a + b + c + d2 == advance(Variants::Djb, a + b + c + d, k as nat),
{
    let m = a + b + c + d;
    assert(m[12] == d[0] && m[13] == d[1]);
    lemma_add_small(d[2], d[3], k);
    lemma_wrapping_add_u64(join(d[0], d[1]), k as u64);
    assert(a + b + c + d2 =~= advance(Variants::Djb, m, k as nat));
}

/// Under [`Variants::Ietf`], a counter row whose first word is that of `d`
/// plus `k` and whose other words are those of `d` plus 0, is the counter row
/// of the matrix moved on `k` blocks.
pub proof fn lemma_counter_row_ietf(a: Seq<u32>, b: Seq<u32>, c: Seq<u32>, d: Seq<u32>, d2: Seq<u32>, k: u32)
    requires
        a.len() == 4,
        b.len() == 4,
        c.len() == 4,
        d.len() == 4,
        d2.len() == 4,
        d2[0] == d[0].wrapping_add(k),
        d2[1] == d[1].wrapping_add(0),
        d2[2] == d[2].wrapping_add(0),
        d2[3] == d[3].wrapping_add(0),
    ensures
        a + b + c + d2 == advance(Variants::Ietf, a + b + c + d, k as nat),
{
    let m = a + b + c + d;
    assert(m[12] == d[0]);
    lemma_wrapping_add_u32(d[0], k);
    assert(a + b + c + d2 =~= advance(Variants::Ietf, m, k as nat));
}

/// [`lemma_counter_row_djb`] for group `g` of a register `x` that is `src`
/// plus `inc` pair by pair, where group `g` of `inc` is `k` in its low word.
pub proof fn lemma_counter_group_djb(
    a: Seq<u32>,
    b: Seq<u32>,
    c: Seq<u32>,
    src: Seq<u32>,
    inc: Seq<u32>,
    x: Seq<u32>,
    g: int,
    k: u32,
)
    requires
        a.len() == 4,
        b.len() == 4,
        c.len() == 4,
        0 <= g,
        4 * g + 4 <= x.len(),
        src.len() == x.len(),
        inc.len() == x.len(),
        inc[4 * g] == k,
        inc[4 * g + 1] == 0,
        inc[4 * g + 2] == 0,
        inc[4 * g + 3] == 0,
        forall|j: int|
            0 <= j < x.len() ==> #[trigger] x[j] == if j % 2 == 0 {
                low(pair_sum(src, inc, j / 2))
            } else {
                high(pair_sum(src, inc, j / 2))
            },
    ensures
        a + b + c + group(x, g) == advance(Variants::Djb, a + b + c + group(src, g), k as nat),
{
    let (d, d2) = (group(src, g), group(x, g));
    assert(d2[0] == x[4 * g] && d2[1] == x[4 * g + 1] && d2[2] == x[4 * g + 2] && d2[3] == x[4 * g + 3]);
    assert(d[0] == src[4 * g] && d[1] == src[4 * g + 1] && d[2] == src[4 * g + 2] && d[3] == src[4 * g + 3]);
    assert((4 * g) % 2 == 0 && (4 * g + 1) % 2 == 1 && (4 * g + 2) % 2 == 0 && (4 * g + 3) % 2 == 1);
    assert((4 * g) / 2 == 2 * g && (4 * g + 1) / 2 == 2 * g && (4 * g + 2) / 2 == 2 * g + 1 && (4 * g + 3) / 2 == 2 * g + 1);
    lemma_counter_row_djb(a, b, c, d, d2, k);
}

/// [`lemma_counter_row_ietf`] for group `g` of a register `x` that is `src`
/// plus `inc` element by element, where group `g` of `inc` is `k` in its
/// first word.
pub proof fn lemma_counter_group_ietf(
    a: Seq<u32>,
    b: Seq<u32>,
    c: Seq<u32>,
    src: Seq<u32>,
    inc: Seq<u32>,
    x: Seq<u32>,
    g: int,
    k: u32,
)
    requires
        a.len() == 4,
        b.len() == 4,
        c.len() == 4,
        0 <= g,
        4 * g + 4 <= x.len(),
        src.len() == x.len(),
        inc.len() == x.len(),
        inc[4 * g] == k,
        inc[4 * g + 1] == 0,
        inc[4 * g + 2] == 0,
        inc[4 * g + 3] == 0,
        forall|j: int| 0 <= j < x.len() ==> #[trigger] x[j] == src[j].wrapping_add(inc[j]),
    ensures
        a + b + c + group(x, g) == advance(Variants::Ietf, a + b + c + group(src, g), k as nat),
{
    let (d, d2) = (group(src, g), group(x, g));
    assert(d2[0] == x[4 * g] && d2[1] == x[4 * g + 1] && d2[2] == x[4 * g + 2] && d2[3] == x[4 * g + 3]);
    assert(d[0] == src[4 * g] && d[1] == src[4 * g + 1] && d[2] == src[4 * g + 2] && d[3] == src[4 * g + 3]);
    lemma_counter_row_ietf(a, b, c, d, d2, k);
}

/// Word-by-word sums of matrices are row-by-row sums.
pub proof fn lemma_add_rows(
    a: Seq<u32>,
    b: Seq<u32>,
    c: Seq<u32>,
    d: Seq<u32>,
    e: Seq<u32>,
    f: Seq<u32>,
    g: Seq<u32>,
    h: Seq<u32>,
)
    requires
        a.len() == 4,
        b.len() == 4,
        c.len() == 4,
        d.len() == 4,
        e.len() == 4,
        f.len() == 4,
        g.len() == 4,
        h.len() == 4,
    ensures
        add_words(a + b + c + d, e + f + g + h) == add_row(a, e) + add_row(b, f) + add_row(c, g) + add_row(d, h),
{
    assert(add_words(a + b + c + d, e + f + g + h) =~= add_row(a, e) + add_row(b, f) + add_row(c, g) + add_row(d, h));
}

/// Element-wise sum modulo 2^32 of two rows.
pub open spec fn add_row(x: Seq<u32>, y: Seq<u32>) -> Seq<u32> {
    Seq::new(4, |k: int| x[k].wrapping_add(y[k]))
}

/// Rotates `x` left by `n` bits.
pub fn rotate_left(x: u32, n: u32) -> (r: u32)
    requires
        0 < n < 32,
    ensures
        r == rotl(x, n),
{
    (x << n) | (x >> (32 - n))
}

/// Element-wise sum modulo 2^32.
pub fn add_epi32<const N: usize>(x: [u32; N], y: [u32; N]) -> (r: [u32; N])
    ensures
        forall|k: int| 0 <= k < N ==> #[trigger] r[k] == x[k].wrapping_add(y[k]),
{
    let mut r = x;
    let mut k: usize = 0;
    while k < N
        invariant
            k <= N,
            forall|j: int| 0 <= j < k ==> #[trigger] r[j] == x[j].wrapping_add(y[j]),
            forall|j: int| k <= j < N ==> #[trigger] r[j] == x[j],
        decreases N - k,
    {
        r[k] = r[k].wrapping_add(y[k]);
        k += 1;
    }
    r
}

/// Element-wise exclusive or.
pub fn xor_si<const N: usize>(x: [u32; N], y: [u32; N]) -> (r: [u32; N])
    ensures
        forall|k: int| 0 <= k < N ==> #[trigger] r[k] == x[k] ^ y[k],
{
    let mut r = x;
    let mut k: usize = 0;
    while k < N
        invariant
            k <= N,
            forall|j: int| 0 <= j < k ==> #[trigger] r[j] == x[j] ^ y[j],
            forall|j: int| k <= j < N ==> #[trigger] r[j] == x[j],
        decreases N - k,
    {
        r[k] = r[k] ^ y[k];
        k += 1;
    }
    r
}

/// Element-wise rotation left by `n` bits.
pub fn rol_epi32<const N: usize>(x: [u32; N], n: u32) -> (r: [u32; N])
    requires
        0 < n < 32,
    ensures
        forall|k: int| 0 <= k < N ==> #[trigger] r[k] == rotl(x[k], n),
{
    let mut r = x;
    let mut k: usize = 0;
    while k < N
        invariant
            k <= N,
            0 < n < 32,
            forall|j: int| 0 <= j < k ==> #[trigger] r[j] == rotl(x[j], n),
            forall|j: int| k <= j < N ==> #[trigger] r[j] == x[j],
        decreases N - k,
    {
        r[k] = rotate_left(r[k], n);
        k += 1;
    }
    r
}

/// The source element that a shuffle control `imm` picks for position `j`
/// (0 to 3) of each 128-bit group: bits `2j` and `2j + 1` of `imm`.
pub open spec fn shuffle_pick(imm: u8, j: int) -> int {
    if j == 0 {
        (imm & 3u8) as int
    } else if j == 1 {
        ((imm >> 2u8) & 3u8) as int
    } else if j == 2 {
        ((imm >> 4u8) & 3u8) as int
    } else {
        ((imm >> 6u8) & 3u8) as int
    }
}

/// Shuffles the elements of each 128-bit group as the control `imm` says.
pub fn shuffle_epi32<const N: usize>(x: [u32; N], imm: u8) -> (r: [u32; N])
    requires
        N % 4 == 0,
    ensures
        forall|k: int| 0 <= k < N ==> #[trigger] r[k] == x[k - k % 4 + shuffle_pick(imm, k % 4)],
{
    let sel: [usize; 4] = [(imm & 3) as usize, ((imm >> 2) & 3) as usize, ((imm >> 4) & 3) as usize, ((imm >> 6) & 3) as usize];
    assert forall|j: int| 0 <= j < 4 implies #[trigger] sel[j] == shuffle_pick(imm, j) && sel[j] < 4 by {
        assert(imm & 3u8 < 4 && (imm >> 2u8) & 3u8 < 4 && (imm >> 4u8) & 3u8 < 4 && (imm >> 6u8) & 3u8 < 4) by (bit_vector);
    }
    let mut r = x;
    let mut k: usize = 0;
    while k < N
        invariant
            k <= N,
            N % 4 == 0,
            forall|j: int| 0 <= j < 4 ==> #[trigger] sel[j] == shuffle_pick(imm, j) && sel[j] < 4,
            forall|j: int| 0 <= j < k ==> #[trigger] r[j] == x[j - j % 4 + shuffle_pick(imm, j % 4)],
        decreases N - k,
    {
        let base = k - k % 4;
        r[k] = x[base + sel[k % 4]];
        k += 1;
    }
    r
}

/// Four consecutive elements of `a` followed by `b`, from element `n` on.
pub fn ext_u32(a: [u32; 4], b: [u32; 4], n: usize) -> (r: [u32; 4])
    requires
        n < 4,
    ensures
        r@ == (a@ + b@).subrange(n as int, n + 4),
{
    let mut r: [u32; 4] = [0; 4];
    let mut j: usize = 0;
    while j < 4
        invariant
            j <= 4,
            n < 4,
            forall|k: int| 0 <= k < j ==> #[trigger] r[k] == (a@ + b@)[n + k],
        decreases 4 - j,
    {
        let i = n + j;
        r[j] = if i < 4 {
            a[i]
        } else {
            b[i - 4]
        };
        j += 1;
    }
    assert(r@ =~= (a@ + b@).subrange(n as int, n + 4));
    r
}

/// Extracting from a row followed by itself rotates the row.
pub proof fn lemma_ext_rot(a: Seq<u32>, n: int)
    requires
        a.len() == 4,
        0 <= n < 4,
    ensures
        (a + a).subrange(n, n + 4) == rot(a, n),
{
    assert((a + a).subrange(n, n + 4) =~= rot(a, n));
}

/// The quarter round on four registers, element by element.
pub fn quarter_round_rows<const N: usize>(rows: [[u32; N]; 4]) -> (r: [[u32; N]; 4])
    ensures
        forall|k: int|
            0 <= k < N ==> (#[trigger] r[0][k], r[1][k], r[2][k], r[3][k]) == quarter(rows[0][k], rows[1][k], rows[2][k], rows[3][k]),
{
    let mut a = rows[0];
    let mut b = rows[1];
    let mut c = rows[2];
    let mut d = rows[3];

    a = add_epi32(a, b);
    d = xor_si(d, a);
    d = rol_epi32(d, 16);

    c = add_epi32(c, d);
    b = xor_si(b, c);
    b = rol_epi32(b, 12);

    a = add_epi32(a, b);
    d = xor_si(d, a);
    d = rol_epi32(d, 8);

    c = add_epi32(c, d);
    b = xor_si(b, c);
    b = rol_epi32(b, 7);

    [a, b, c, d]
}

/// What [`quarter_round_rows`] does, seen group by group.
pub proof fn lemma_quarter_groups<const N: usize>(rows: [[u32; N]; 4], r: [[u32; N]; 4], g: int)
    requires
        0 <= g,
        4 * g + 4 <= N,
        forall|k: int|
            0 <= k < N ==> (#[trigger] r[0][k], r[1][k], r[2][k], r[3][k]) == quarter(rows[0][k], rows[1][k], rows[2][k], rows[3][k]),
    ensures
        forall|i: int|
            0 <= i < 4 ==> #[trigger] group(r[i]@, g) == quarter_row(group(rows[0]@, g), group(rows[1]@, g), group(rows[2]@, g), group(rows[3]@, g), i),
{
    let (a, b, c, d) = (group(rows[0]@, g), group(rows[1]@, g), group(rows[2]@, g), group(rows[3]@, g));
    assert forall|k: int| 0 <= k < 4 implies (group(r[0]@, g)[k], group(r[1]@, g)[k], group(r[2]@, g)[k], group(r[3]@, g)[k])
        == #[trigger] quarter(a[k], b[k], c[k], d[k]) by {
        assert(r[0][4 * g + k] == r[0][4 * g + k]);
    }
    assert(group(r[0]@, g) =~= quarter_row(a, b, c, d, 0));
    assert(group(r[1]@, g) =~= quarter_row(a, b, c, d, 1));
    assert(group(r[2]@, g) =~= quarter_row(a, b, c, d, 2));
    assert(group(r[3]@, g) =~= quarter_row(a, b, c, d, 3));
}

/// A shuffle whose control picks, for each position, the element `n`
/// places on, rotates every group by `n`.
pub proof fn lemma_shuffle_group<const N: usize>(x: [u32; N], r: [u32; N], imm: u8, n: int, g: int)
    requires
        0 <= g,
        4 * g + 4 <= N,
        forall|j: int| 0 <= j < 4 ==> #[trigger] shuffle_pick(imm, j) == (j + n) % 4,
        forall|k: int| 0 <= k < N ==> #[trigger] r[k] == x[k - k % 4 + shuffle_pick(imm, k % 4)],
    ensures
        group(r@, g) == rot(group(x@, g), n),
{
    assert forall|j: int| 0 <= j < 4 implies #[trigger] group(r@, g)[j] == rot(group(x@, g), n)[j] by {
        let k = 4 * g + j;
        assert(k % 4 == j && k - k % 4 == 4 * g);
        assert(r[k] == x[k - k % 4 + shuffle_pick(imm, k % 4)]);
    }
    assert(group(r@, g) =~= rot(group(x@, g), n));
}

/// Rotates rows 0, 2 and 3 within each group by 3, 1 and 2 elements, so
/// that the diagonals stand in the columns.
pub fn diagonalize_rows<const N: usize>(rows: [[u32; N]; 4]) -> (r: [[u32; N]; 4])
    requires
        N % 4 == 0,
    ensures
        r[1] == rows[1],
        forall|g: int|
            0 <= g && 4 * g + 4 <= N ==> #[trigger] group(r[0]@, g) == rot(group(rows[0]@, g), 3) && group(r[2]@, g) == rot(
                group(rows[2]@, g),
                1,
            ) && group(r[3]@, g) == rot(group(rows[3]@, g), 2),
{
    proof {
        lemma_shuffle_rotations();
    }
    let a = shuffle_epi32(rows[0], 0b_10_01_00_11);
    let c = shuffle_epi32(rows[2], 0b_00_11_10_01);
    let d = shuffle_epi32(rows[3], 0b_01_00_11_10);
    assert forall|g: int| 0 <= g && 4 * g + 4 <= N implies #[trigger] group(a@, g) == rot(group(rows[0]@, g), 3) && group(c@, g)
        == rot(group(rows[2]@, g), 1) && group(d@, g) == rot(group(rows[3]@, g), 2) by {
        lemma_shuffle_group(rows[0], a, 0b_10_01_00_11, 3, g);
        lemma_shuffle_group(rows[2], c, 0b_00_11_10_01, 1, g);
        lemma_shuffle_group(rows[3], d, 0b_01_00_11_10, 2, g);
    }
    [a, rows[1], c, d]
}

/// Rotates rows 0, 2 and 3 within each group back by 1, 3 and 2 elements.
pub fn undiagonalize_rows<const N: usize>(rows: [[u32; N]; 4]) -> (r: [[u32; N]; 4])
    requires
        N % 4 == 0,
    ensures
        r[1] == rows[1],
        forall|g: int|
            0 <= g && 4 * g + 4 <= N ==> #[trigger] group(r[0]@, g) == rot(group(rows[0]@, g), 1) && group(r[2]@, g) == rot(
                group(rows[2]@, g),
                3,
            ) && group(r[3]@, g) == rot(group(rows[3]@, g), 2),
{
    proof {
        lemma_shuffle_rotations();
    }
    let c = shuffle_epi32(rows[2], 0b_10_01_00_11);
    let d = shuffle_epi32(rows[3], 0b_01_00_11_10);
    let a = shuffle_epi32(rows[0], 0b_00_11_10_01);
    assert forall|g: int| 0 <= g && 4 * g + 4 <= N implies #[trigger] group(a@, g) == rot(group(rows[0]@, g), 1) && group(c@, g)
        == rot(group(rows[2]@, g), 3) && group(d@, g) == rot(group(rows[3]@, g), 2) by {
        lemma_shuffle_group(rows[0], a, 0b_00_11_10_01, 1, g);
        lemma_shuffle_group(rows[2], c, 0b_10_01_00_11, 3, g);
        lemma_shuffle_group(rows[3], d, 0b_01_00_11_10, 2, g);
    }
    [a, rows[1], c, d]
}

/// The shuffle controls used for diagonalization pick, for each position,
/// the element 1, 2 or 3 places on.
pub proof fn lemma_shuffle_rotations()
    ensures
        forall|j: int| 0 <= j < 4 ==> #[trigger] shuffle_pick(0b_10_01_00_11, j) == (j + 3) % 4,
        forall|j: int| 0 <= j < 4 ==> #[trigger] shuffle_pick(0b_00_11_10_01, j) == (j + 1) % 4,
        forall|j: int| 0 <= j < 4 ==> #[trigger] shuffle_pick(0b_01_00_11_10, j) == (j + 2) % 4,
{
    assert(0b_10_01_00_11u8 & 3u8 == 3 && (0b_10_01_00_11u8 >> 2u8) & 3u8 == 0 && (0b_10_01_00_11u8 >> 4u8) & 3u8 == 1
        && (0b_10_01_00_11u8 >> 6u8) & 3u8 == 2) by (bit_vector);
    assert(0b_00_11_10_01u8 & 3u8 == 1 && (0b_00_11_10_01u8 >> 2u8) & 3u8 == 2 && (0b_00_11_10_01u8 >> 4u8) & 3u8 == 3
        && (0b_00_11_10_01u8 >> 6u8) & 3u8 == 0) by (bit_vector);
    assert(0b_01_00_11_10u8 & 3u8 == 2 && (0b_01_00_11_10u8 >> 2u8) & 3u8 == 3 && (0b_01_00_11_10u8 >> 4u8) & 3u8 == 0
        && (0b_01_00_11_10u8 >> 6u8) & 3u8 == 1) by (bit_vector);
}

/// The sum modulo 2^64 of pair `p` of `x` and pair `p` of `y`, each read as a
/// little-endian 64-bit integer.
pub open spec fn pair_sum(x: Seq<u32>, y: Seq<u32>, p: int) -> u64 {
    join(x[2 * p], x[2 * p + 1]).wrapping_add(join(y[2 * p], y[2 * p + 1]))
}

/// Element-wise sum modulo 2^64 of pairs of elements read as little-endian
/// 64-bit integers.
pub fn add_epi64<const N: usize>(x: [u32; N], y: [u32; N]) -> (r: [u32; N])
    requires
        N % 2 == 0,
    ensures
        forall|k: int|
            0 <= k < N ==> #[trigger] r[k] == if k % 2 == 0 {
                low(pair_sum(x@, y@, k / 2))
            } else {
                high(pair_sum(x@, y@, k / 2))
            },
{
    let mut r = x;
    let mut p: usize = 0;
    while p < N / 2
        invariant
            p <= N / 2,
            N % 2 == 0,
            forall|k: int|
                0 <= k < 2 * p ==> #[trigger] r[k] == if k % 2 == 0 {
                    low(pair_sum(x@, y@, k / 2))
                } else {
                    high(pair_sum(x@, y@, k / 2))
                },
        decreases N / 2 - p,
    {
        let i = 2 * p;
        let a = (x[i] as u64) | ((x[i + 1] as u64) << 32);
        let b = (y[i] as u64) | ((y[i + 1] as u64) << 32);
        let s = a.wrapping_add(b);
        r[i] = s as u32;
        r[i + 1] = (s >> 32) as u32;
        assert(i / 2 == p && (i + 1) / 2 == p && i % 2 == 0 && (i + 1) % 2 == 1);
        p += 1;
    }
    r
}

/// Adding 0 or a small value in the low word of a pair.
pub proof fn lemma_add_small(lo: u32, hi: u32, k: u32)
    ensures
        join(k, 0) == k as u64,
        low(join(lo, hi).wrapping_add(join(0, 0))) == lo,
        high(join(lo, hi).wrapping_add(join(0, 0))) == hi,
{
    assert(join(k, 0) == k as u64) by (bit_vector);
    assert(join(0, 0) == 0) by (bit_vector);
    crate::model::lemma_join_split(lo, hi, 0);
}

/// A register of `N` elements holding `x` in each 128-bit group.
pub fn broadcast_128<const N: usize>(x: [u32; 4]) -> (r: [u32; N])
    requires
        N % 4 == 0,
    ensures
        forall|k: int| 0 <= k < N ==> #[trigger] r[k] == x[k % 4],
{
    let mut r: [u32; N] = [0; N];
    let mut k: usize = 0;
    while k < N
        invariant
            k <= N,
            forall|j: int| 0 <= j < k ==> #[trigger] r[j] == x[j % 4],
        decreases N - k,
    {
        r[k] = x[k % 4];
        k += 1;
    }
    r
}

/// Each 128-bit group of a broadcast register is the broadcast row.
pub proof fn lemma_broadcast_group(x: Seq<u32>, r: Seq<u32>, g: int)
    requires
        x.len() == 4,
        0 <= g,
        4 * g + 4 <= r.len(),
        forall|k: int| 0 <= k < r.len() ==> #[trigger] r[k] == x[k % 4],
    ensures
        group(r, g) == x,
{
    assert(r[4 * g] == x[0] && r[4 * g + 1] == x[1] && r[4 * g + 2] == x[2] && r[4 * g + 3] == x[3]);
    assert(group(r, g) =~= x);
}

/// The 128-bit group `g` of `x`.
pub fn extract_128<const N: usize>(x: [u32; N], g: usize) -> (r: [u32; 4])
    requires
        4 * g + 4 <= N,
    ensures
        r@ == x@.subrange(4 * g as int, 4 * g + 4),
{
    let b = 4 * g;
    let r = [x[b], x[b + 1], x[b + 2], x[b + 3]];
    assert(r@ =~= x@.subrange(4 * g as int, 4 * g + 4));
    r
}

/// Four rows laid end to end as one matrix.
pub fn concat_rows(a: [u32; 4], b: [u32; 4], c: [u32; 4], d: [u32; 4]) -> (r: [u32; 16])
    ensures
        r@ == a@ + b@ + c@ + d@,
{
    let r = [a[0], a[1], a[2], a[3], b[0], b[1], b[2], b[3], c[0], c[1], c[2], c[3], d[0], d[1], d[2], d[3]];
    assert(r@ =~= a@ + b@ + c@ + d@);
    r
}

/// Writes four matrices to `buf` as little-endian bytes, matrix after
/// matrix.
pub fn store_lanes(lanes: &[[u32; 16]; 4], buf: &mut [u8; 256])
    ensures
        final(buf)@ == lanes_bytes(Seq::new(4, |l: int| lanes[l]@)),
{
    let ghost ls = Seq::new(4, |l: int| lanes[l]@);
    let mut l: usize = 0;
    while l < 4
        invariant
            l <= 4,
            ls == Seq::new(4, |l: int| lanes[l]@),
            forall|j: int| 0 <= j < 64 * l ==> #[trigger] buf[j] == lanes_bytes(ls)[j],
        decreases 4 - l,
    {
        let mut w: usize = 0;
        while w < 16
            invariant
                l < 4,
                w <= 16,
                ls == Seq::new(4, |l: int| lanes[l]@),
                forall|j: int| 0 <= j < 64 * l + 4 * w ==> #[trigger] buf[j] == lanes_bytes(ls)[j],
            decreases 16 - w,
        {
            let x = lanes[l][w];
            let base = 64 * l + 4 * w;
            buf[base] = x as u8;
            buf[base + 1] = (x >> 8) as u8;
            buf[base + 2] = (x >> 16) as u8;
            buf[base + 3] = (x >> 24) as u8;
            assert forall|t: int| 0 <= t < 4 implies #[trigger] buf[base + t] == lanes_bytes(ls)[base + t] by {
                assert((base + t) / 64 == l as int && ((base + t) % 64) / 4 == w as int && (base + t) % 4 == t) by (nonlinear_arith)
                    requires
                        base == 64 * l + 4 * w,
                        0 <= t < 4,
                        w < 16,
                ;
            }
            w += 1;
        }
        l += 1;
    }
    assert(buf@ =~= lanes_bytes(ls));
}

} // verus!
