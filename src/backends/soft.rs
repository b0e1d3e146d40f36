//! The portable machine: four flat arrays of sixteen words, one per lane,
//! with the quarter round done by indexing.
use crate::backends::vector::{rotate_left, store_lanes};
use crate::model::{
    add_words, advance, lanes_from, lemma_advance_zero, lemma_wrapping_add_u32,
    lemma_wrapping_add_u64, quarter_round,
};
use crate::util::{ChaChaNaked, Machine, BUF_LEN_U8};
use crate::variations::Variants;
use vstd::prelude::*;

verus! {

/// Four ChaCha matrices, each a flat array of sixteen words.
pub struct Matrix {
    state: [[u32; 16]; 4],
}

/// The matrix of `state` as sixteen words.
fn lane_of(state: &ChaChaNaked) -> (r: [u32; 16])
    ensures
        r@ == state.matrix(),
{
    let a = crate::util::row_a().u32x4;
    let b = state.row_b.u32x4;
    let c = state.row_c.u32x4;
    let d = state.row_d.u32x4;
    let r = [a[0], a[1], a[2], a[3], b[0], b[1], b[2], b[3], c[0], c[1], c[2], c[3], d[0], d[1], d[2], d[3]];
    assert(r@ =~= state.matrix());
    r
}

/// Moves the 64-bit counter in words 12 and 13 on by `k`.
fn add_counter_djb(m: &mut [u32; 16], k: u64)
    ensures
        final(m)@ == advance(Variants::Djb, old(m)@, k as nat),
{
    let c = (m[12] as u64) | ((m[13] as u64) << 32);
    let c2 = c.wrapping_add(k);
    proof {
        lemma_wrapping_add_u64(c, k);
    }
    m[12] = c2 as u32;
    m[13] = (c2 >> 32) as u32;
    assert(m@ =~= advance(Variants::Djb, old(m)@, k as nat));
}

/// Moves the 32-bit counter in word 12 on by `k`.
fn add_counter_ietf(m: &mut [u32; 16], k: u32)
    ensures
        final(m)@ == advance(Variants::Ietf, old(m)@, k as nat),
{
    let c2 = m[12].wrapping_add(k);
    proof {
        lemma_wrapping_add_u32(m[12], k);
    }
    m[12] = c2;
    assert(m@ =~= advance(Variants::Ietf, old(m)@, k as nat));
}

impl Matrix {
    /// The quarter round over words `a`, `b`, `c`, `d` of every lane.
    fn quarter_round(&mut self, a: usize, b: usize, c: usize, d: usize)
        requires
            a < 16,
            b < 16,
            c < 16,
            d < 16,
            a != b,
            a != c,
            a != d,
            b != c,
            b != d,
            c != d,
        ensures
            final(self).lanes() == Seq::new(4, |l: int| quarter_round(old(self).lanes()[l], a as int, b as int, c as int, d as int)),
    {
        let ghost start = self.lanes();
        let mut i: usize = 0;
        while i < 4
            invariant
                i <= 4,
                a < 16 && b < 16 && c < 16 && d < 16,
                a != b && a != c && a != d && b != c && b != d && c != d,
                start == old(self).lanes(),
                forall|l: int| 0 <= l < i ==> self.state[l]@ == quarter_round(start[l], a as int, b as int, c as int, d as int),
                forall|l: int| i <= l < 4 ==> self.state[l]@ == start[l],
            decreases 4 - i,
        {
            let mut m = self.state[i];
            let mut xa = m[a];
            let mut xb = m[b];
            let mut xc = m[c];
            let mut xd = m[d];

            xa = xa.wrapping_add(xb);
            xd = rotate_left(xd ^ xa, 16);

            xc = xc.wrapping_add(xd);
            xb = rotate_left(xb ^ xc, 12);

            xa = xa.wrapping_add(xb);
            xd = rotate_left(xd ^ xa, 8);

            xc = xc.wrapping_add(xd);
            xb = rotate_left(xb ^ xc, 7);

            m[a] = xa;
            m[b] = xb;
            m[c] = xc;
            m[d] = xd;
            assert(m@ =~= quarter_round(start[i as int], a as int, b as int, c as int, d as int));
            self.state[i] = m;
            i += 1;
        }
        assert(self.lanes() =~= Seq::new(4, |l: int| quarter_round(start[l], a as int, b as int, c as int, d as int)));
    }
}

impl Machine for Matrix {
    closed spec fn lanes(&self) -> Seq<Seq<u32>> {
        Seq::new(4, |l: int| self.state[l]@)
    }

    fn new_djb(state: &ChaChaNaked) -> (r: Self) {
        let base = lane_of(state);
        let mut result = Matrix { state: [base, base, base, base] };
        add_counter_djb(&mut result.state[1], 1);
        add_counter_djb(&mut result.state[2], 2);
        add_counter_djb(&mut result.state[3], 3);
        proof {
            lemma_advance_zero(Variants::Djb, base@);
        }
        assert(result.lanes() =~= lanes_from(Variants::Djb, state.matrix()));
        result
    }

    fn new_ietf(state: &ChaChaNaked) -> (r: Self) {
        let base = lane_of(state);
        let mut result = Matrix { state: [base, base, base, base] };
        add_counter_ietf(&mut result.state[1], 1);
        add_counter_ietf(&mut result.state[2], 2);
        add_counter_ietf(&mut result.state[3], 3);
        proof {
            lemma_advance_zero(Variants::Ietf, base@);
        }
        assert(result.lanes() =~= lanes_from(Variants::Ietf, state.matrix()));
        result
    }

    fn increment_djb(&mut self) {
        add_counter_djb(&mut self.state[0], 4);
        add_counter_djb(&mut self.state[1], 4);
        add_counter_djb(&mut self.state[2], 4);
        add_counter_djb(&mut self.state[3], 4);
        assert(self.lanes() =~= Seq::new(4, |l: int| advance(Variants::Djb, old(self).lanes()[l], 4)));
    }

    fn increment_ietf(&mut self) {
        add_counter_ietf(&mut self.state[0], 4);
        add_counter_ietf(&mut self.state[1], 4);
        add_counter_ietf(&mut self.state[2], 4);
        add_counter_ietf(&mut self.state[3], 4);
        assert(self.lanes() =~= Seq::new(4, |l: int| advance(Variants::Ietf, old(self).lanes()[l], 4)));
    }

    fn double_round(&mut self) {
        // Column rounds
        self.quarter_round(0, 4, 8, 12);
        self.quarter_round(1, 5, 9, 13);
        self.quarter_round(2, 6, 10, 14);
        self.quarter_round(3, 7, 11, 15);
        // Diagonal rounds
        self.quarter_round(0, 5, 10, 15);
        self.quarter_round(1, 6, 11, 12);
        self.quarter_round(2, 7, 8, 13);
        self.quarter_round(3, 4, 9, 14);
        assert(self.lanes() =~= Seq::new(4, |l: int| crate::model::double_round(old(self).lanes()[l])));
    }

    fn add(self, rhs: Self) -> (r: Self) {
        let mut out = self;
        let mut i: usize = 0;
        while i < 4
            invariant
                i <= 4,
                forall|l: int| 0 <= l < i ==> out.state[l]@ == add_words(self.state[l]@, rhs.state[l]@),
                forall|l: int| i <= l < 4 ==> out.state[l] == self.state[l],
            decreases 4 - i,
        {
            let mut m = out.state[i];
            let mut j: usize = 0;
            while j < 16
                invariant
                    i < 4,
                    j <= 16,
                    forall|w: int| 0 <= w < j ==> m[w] == self.state[i as int][w].wrapping_add(rhs.state[i as int][w]),
                    forall|w: int| j <= w < 16 ==> m[w] == self.state[i as int][w],
                decreases 16 - j,
            {
                m[j] = m[j].wrapping_add(rhs.state[i][j]);
                j += 1;
            }
            assert(m@ =~= add_words(self.state[i as int]@, rhs.state[i as int]@));
            out.state[i] = m;
            i += 1;
        }
        assert(out.lanes() =~= Seq::new(4, |l: int| add_words(self.lanes()[l], rhs.lanes()[l])));
        out
    }

    fn duplicate(&self) -> (r: Self) {
        Matrix { state: self.state }
    }

    fn fetch_result(self, buf: &mut [u8; BUF_LEN_U8]) {
        store_lanes(&self.state, buf);
    }
}

} // verus!
