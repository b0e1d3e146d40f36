//! The NEON machine: per lane, four 128-bit registers, one per row. The
//! diagonal round rotates three rows by element extraction from the row
//! followed by itself, and back.
use crate::backends::vector::{
    add_epi32, add_epi64, add_row, concat_rows, lemma_add_rows, lemma_column_rows, lemma_counter_row_djb,
    lemma_counter_row_ietf, lemma_diagonal_rows, lemma_ext_rot, quarter_row, rol_epi32, rot, ext_u32, store_lanes,
    xor_si,
};
use crate::model::{add_words, advance, column_round, lanes_from, lemma_advance_zero};
use crate::util::{row_a, ChaChaNaked, Machine, BUF_LEN_U8};
use crate::variations::Variants;
use vstd::prelude::*;

verus! {

/// Four ChaCha matrices, each four 128-bit rows.
pub struct Matrix {
    state: [[[u32; 4]; 4]; 4],
}

/// The matrix held by the four rows of a lane.
pub open spec fn lane_view(rows: [[u32; 4]; 4]) -> Seq<u32> {
    rows[0]@ + rows[1]@ + rows[2]@ + rows[3]@
}

impl Matrix {
    /// The quarter round on the rows of every lane, element by element:
    /// four column quarter rounds at once.
    fn quarter_round(&mut self)
        ensures
            forall|l: int, i: int|
                0 <= l < 4 && 0 <= i < 4 ==> (#[trigger] final(self).state[l][i])@ == quarter_row(
                    old(self).state[l][0]@,
                    old(self).state[l][1]@,
                    old(self).state[l][2]@,
                    old(self).state[l][3]@,
                    i,
                ),
    {
        let ghost s0 = self.state;
        let mut l: usize = 0;
        while l < 4
            invariant
                l <= 4,
                s0 == old(self).state,
                forall|j: int, i: int|
                    0 <= j < l && 0 <= i < 4 ==> (#[trigger] self.state[j][i])@ == quarter_row(
                        s0[j][0]@,
                        s0[j][1]@,
                        s0[j][2]@,
                        s0[j][3]@,
                        i,
                    ),
                forall|j: int| l <= j < 4 ==> #[trigger] self.state[j] == s0[j],
            decreases 4 - l,
        {
            let mut a = self.state[l][0];
            let mut b = self.state[l][1];
            let mut c = self.state[l][2];
            let mut d = self.state[l][3];

            a = add_epi32(a, b);
            d = xor_si(d, a);
            d = rol_epi32(d, 16);

            c = add_epi32(c, d);
            b = xor_si(b, c);
            b = rol_epi32(b, 12);

            a = add_epi32(a, b);
            d = xor_si(d, a);
            d = rol_epi32(d, 8);

            c = add_epi32(c, d);
            b = xor_si(b, c);
            b = rol_epi32(b, 7);

            let ghost r = s0[l as int];
            assert(a@ =~= quarter_row(r[0]@, r[1]@, r[2]@, r[3]@, 0));
            assert(b@ =~= quarter_row(r[0]@, r[1]@, r[2]@, r[3]@, 1));
            assert(c@ =~= quarter_row(r[0]@, r[1]@, r[2]@, r[3]@, 2));
            assert(d@ =~= quarter_row(r[0]@, r[1]@, r[2]@, r[3]@, 3));
            self.state[l] = [a, b, c, d];
            l += 1;
        }
    }

    /// Rotates rows 0, 2 and 3 of every lane so that the diagonals stand in
    /// the columns.
    fn make_diagonal(&mut self)
        ensures
            forall|l: int|
                0 <= l < 4 ==> (#[trigger] final(self).state[l])[0]@ == rot(old(self).state[l][0]@, 3)
                    && final(self).state[l][1] == old(self).state[l][1]
                    && final(self).state[l][2]@ == rot(old(self).state[l][2]@, 1)
                    && final(self).state[l][3]@ == rot(old(self).state[l][3]@, 2),
    {
        let ghost s0 = self.state;
        let mut l: usize = 0;
        while l < 4
            invariant
                l <= 4,
                s0 == old(self).state,
                forall|j: int|
                    0 <= j < l ==> (#[trigger] self.state[j])[0]@ == rot(s0[j][0]@, 3) && self.state[j][1] == s0[j][1]
                        && self.state[j][2]@ == rot(s0[j][2]@, 1) && self.state[j][3]@ == rot(s0[j][3]@, 2),
                forall|j: int| l <= j < 4 ==> #[trigger] self.state[j] == s0[j],
            decreases 4 - l,
        {
            proof {
                lemma_ext_rot(self.state[l as int][0]@, 3);
                lemma_ext_rot(self.state[l as int][2]@, 1);
                lemma_ext_rot(self.state[l as int][3]@, 2);
            }
            let a = ext_u32(self.state[l][0], self.state[l][0], 3);
            let c = ext_u32(self.state[l][2], self.state[l][2], 1);
            let d = ext_u32(self.state[l][3], self.state[l][3], 2);
            assert(a@ =~= rot(s0[l as int][0]@, 3));
            assert(c@ =~= rot(s0[l as int][2]@, 1));
            assert(d@ =~= rot(s0[l as int][3]@, 2));
            let mut rows = self.state[l];
            rows[0] = a;
            rows[2] = c;
            rows[3] = d;
            self.state[l] = rows;
            l += 1;
        }
    }

    /// Rotates rows 0, 2 and 3 of every lane back into place.
    fn unmake_diagonal(&mut self)
        ensures
            forall|l: int|
                0 <= l < 4 ==> (#[trigger] final(self).state[l])[0]@ == rot(old(self).state[l][0]@, 1)
                    && final(self).state[l][1] == old(self).state[l][1]
                    && final(self).state[l][2]@ == rot(old(self).state[l][2]@, 3)
                    && final(self).state[l][3]@ == rot(old(self).state[l][3]@, 2),
    {
        let ghost s0 = self.state;
        let mut l: usize = 0;
        while l < 4
            invariant
                l <= 4,
                s0 == old(self).state,
                forall|j: int|
                    0 <= j < l ==> (#[trigger] self.state[j])[0]@ == rot(s0[j][0]@, 1) && self.state[j][1] == s0[j][1]
                        && self.state[j][2]@ == rot(s0[j][2]@, 3) && self.state[j][3]@ == rot(s0[j][3]@, 2),
                forall|j: int| l <= j < 4 ==> #[trigger] self.state[j] == s0[j],
            decreases 4 - l,
        {
            proof {
                lemma_ext_rot(self.state[l as int][0]@, 1);
                lemma_ext_rot(self.state[l as int][2]@, 3);
                lemma_ext_rot(self.state[l as int][3]@, 2);
            }
            let c = ext_u32(self.state[l][2], self.state[l][2], 3);
            let d = ext_u32(self.state[l][3], self.state[l][3], 2);
            let a = ext_u32(self.state[l][0], self.state[l][0], 1);
            assert(a@ =~= rot(s0[l as int][0]@, 1));
            assert(c@ =~= rot(s0[l as int][2]@, 3));
            assert(d@ =~= rot(s0[l as int][3]@, 2));
            let mut rows = self.state[l];
            rows[0] = a;
            rows[2] = c;
            rows[3] = d;
            self.state[l] = rows;
            l += 1;
        }
    }
}

impl Machine for Matrix {
    closed spec fn lanes(&self) -> Seq<Seq<u32>> {
        Seq::new(4, |l: int| lane_view(self.state[l]))
    }

    fn new_djb(state: &ChaChaNaked) -> (r: Self) {
        let rows = [row_a().u32x4, state.row_b.u32x4, state.row_c.u32x4, state.row_d.u32x4];
        let mut result = Matrix { state: [rows, rows, rows, rows] };
        result.state[1][3] = add_epi64(result.state[1][3], [1, 0, 0, 0]);
        result.state[2][3] = add_epi64(result.state[2][3], [2, 0, 0, 0]);
        result.state[3][3] = add_epi64(result.state[3][3], [3, 0, 0, 0]);
        proof {
            let (a, b, c, d) = (rows[0]@, rows[1]@, rows[2]@, rows[3]@);
            assert(lane_view(rows) == state.matrix());
            lemma_advance_zero(Variants::Djb, state.matrix());
            lemma_counter_row_djb(a, b, c, d, result.state[1][3]@, 1);
            lemma_counter_row_djb(a, b, c, d, result.state[2][3]@, 2);
            lemma_counter_row_djb(a, b, c, d, result.state[3][3]@, 3);
        }
        assert(result.lanes() =~= lanes_from(Variants::Djb, state.matrix()));
        result
    }

    fn new_ietf(state: &ChaChaNaked) -> (r: Self) {
        let rows = [row_a().u32x4, state.row_b.u32x4, state.row_c.u32x4, state.row_d.u32x4];
        let mut result = Matrix { state: [rows, rows, rows, rows] };
        result.state[1][3] = add_epi32(result.state[1][3], [1, 0, 0, 0]);
        result.state[2][3] = add_epi32(result.state[2][3], [2, 0, 0, 0]);
        result.state[3][3] = add_epi32(result.state[3][3], [3, 0, 0, 0]);
        proof {
            let (a, b, c, d) = (rows[0]@, rows[1]@, rows[2]@, rows[3]@);
            assert(lane_view(rows) == state.matrix());
            lemma_advance_zero(Variants::Ietf, state.matrix());
            lemma_counter_row_ietf(a, b, c, d, result.state[1][3]@, 1);
            lemma_counter_row_ietf(a, b, c, d, result.state[2][3]@, 2);
            lemma_counter_row_ietf(a, b, c, d, result.state[3][3]@, 3);
        }
        assert(result.lanes() =~= lanes_from(Variants::Ietf, state.matrix()));
        result
    }

    fn increment_djb(&mut self) {
        let increment: [u32; 4] = [4, 0, 0, 0];
        self.state[0][3] = add_epi64(self.state[0][3], increment);
        self.state[1][3] = add_epi64(self.state[1][3], increment);
        self.state[2][3] = add_epi64(self.state[2][3], increment);
        self.state[3][3] = add_epi64(self.state[3][3], increment);
        proof {
            let o = old(self).state;
            assert forall|l: int| 0 <= l < 4 implies #[trigger] self.lanes()[l] == advance(Variants::Djb, old(self).lanes()[l], 4) by {
                lemma_counter_row_djb(o[l][0]@, o[l][1]@, o[l][2]@, o[l][3]@, self.state[l][3]@, 4);
            }
        }
        assert(self.lanes() =~= Seq::new(4, |l: int| advance(Variants::Djb, old(self).lanes()[l], 4)));
    }

    fn increment_ietf(&mut self) {
        let increment: [u32; 4] = [4, 0, 0, 0];
        self.state[0][3] = add_epi32(self.state[0][3], increment);
        self.state[1][3] = add_epi32(self.state[1][3], increment);
        self.state[2][3] = add_epi32(self.state[2][3], increment);
        self.state[3][3] = add_epi32(self.state[3][3], increment);
        proof {
            let o = old(self).state;
            assert forall|l: int| 0 <= l < 4 implies #[trigger] self.lanes()[l] == advance(Variants::Ietf, old(self).lanes()[l], 4) by {
                lemma_counter_row_ietf(o[l][0]@, o[l][1]@, o[l][2]@, o[l][3]@, self.state[l][3]@, 4);
            }
        }
        assert(self.lanes() =~= Seq::new(4, |l: int| advance(Variants::Ietf, old(self).lanes()[l], 4)));
    }

    fn double_round(&mut self) {
        let ghost s0 = self.state;
        // Column rounds
        self.quarter_round();
        let ghost s1 = self.state;
        // Diagonal rounds
        self.make_diagonal();
        self.quarter_round();
        self.unmake_diagonal();
        proof {
            assert forall|l: int| 0 <= l < 4 implies #[trigger] self.lanes()[l] == crate::model::double_round(old(self).lanes()[l]) by {
                lemma_column_rows(s0[l][0]@, s0[l][1]@, s0[l][2]@, s0[l][3]@);
                assert(lane_view(s1[l]) == column_round(lane_view(s0[l])));
                lemma_diagonal_rows(s1[l][0]@, s1[l][1]@, s1[l][2]@, s1[l][3]@);
            }
        }
        assert(self.lanes() =~= Seq::new(4, |l: int| crate::model::double_round(old(self).lanes()[l])));
    }

    fn add(self, rhs: Self) -> (r: Self) {
        let mut out = self;
        let mut l: usize = 0;
        while l < 4
            invariant
                l <= 4,
                forall|j: int, i: int|
                    0 <= j < l && 0 <= i < 4 ==> (#[trigger] out.state[j][i])@ == add_row(self.state[j][i]@, rhs.state[j][i]@),
                forall|j: int| l <= j < 4 ==> #[trigger] out.state[j] == self.state[j],
            decreases 4 - l,
        {
            let mut i: usize = 0;
            while i < 4
                invariant
                    l < 4,
                    i <= 4,
                    forall|j: int, k: int|
                        0 <= j < l && 0 <= k < 4 ==> (#[trigger] out.state[j][k])@ == add_row(self.state[j][k]@, rhs.state[j][k]@),
                    forall|k: int| 0 <= k < i ==> (#[trigger] out.state[l as int][k])@ == add_row(self.state[l as int][k]@, rhs.state[l as int][k]@),
                    forall|k: int| i <= k < 4 ==> #[trigger] out.state[l as int][k] == self.state[l as int][k],
                    forall|j: int| l < j < 4 ==> #[trigger] out.state[j] == self.state[j],
                decreases 4 - i,
            {
                let x = add_epi32(out.state[l][i], rhs.state[l][i]);
                assert(x@ =~= add_row(self.state[l as int][i as int]@, rhs.state[l as int][i as int]@));
                out.state[l][i] = x;
                i += 1;
            }
            l += 1;
        }
        proof {
            assert forall|l: int| 0 <= l < 4 implies #[trigger] out.lanes()[l] == add_words(self.lanes()[l], rhs.lanes()[l]) by {
                let (x, y) = (self.state[l], rhs.state[l]);
                lemma_add_rows(x[0]@, x[1]@, x[2]@, x[3]@, y[0]@, y[1]@, y[2]@, y[3]@);
            }
        }
        assert(out.lanes() =~= Seq::new(4, |l: int| add_words(self.lanes()[l], rhs.lanes()[l])));
        out
    }

    fn duplicate(&self) -> (r: Self) {
        Matrix { state: self.state }
    }

    fn fetch_result(self, buf: &mut [u8; BUF_LEN_U8]) {
        let s = self.state;
        let lanes = [
            concat_rows(s[0][0], s[0][1], s[0][2], s[0][3]),
            concat_rows(s[1][0], s[1][1], s[1][2], s[1][3]),
            concat_rows(s[2][0], s[2][1], s[2][2], s[2][3]),
            concat_rows(s[3][0], s[3][1], s[3][2], s[3][3]),
        ];
        store_lanes(&lanes, buf);
        assert(Seq::new(4, |l: int| lanes[l]@) =~= self.lanes());
    }
}

} // verus!
