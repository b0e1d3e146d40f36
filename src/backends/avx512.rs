//! The 512-bit machine: one register per row, holding all four lanes. Lane
//! `l` sits in 128-bit group `3 - l`, so that output, which takes the groups
//! from the top down, comes out in lane order.
use crate::backends::vector::{
    add_epi32, add_epi64, add_row, broadcast_128, concat_rows, extract_128, group, lemma_add_rows, lemma_broadcast_group,
    lemma_column_rows, lemma_counter_group_djb, lemma_counter_group_ietf, lemma_counter_row_djb, lemma_counter_row_ietf, lemma_diagonal_rows, lemma_shuffle_rotations,
    quarter_row, rol_epi32, rot, shuffle_epi32, store_lanes, xor_si,
};
use crate::model::{add_words, advance, column_round, lanes_from, lemma_advance_zero, sigma};
use crate::util::{row_a, ChaChaNaked, Machine, BUF_LEN_U8};
use crate::variations::Variants;
use vstd::prelude::*;

verus! {

/// Four ChaCha matrices in four 512-bit rows.
pub struct Matrix {
    state: [[u32; 16]; 4],
}

/// The matrix that group `g` of the four rows `regs` holds.
pub open spec fn group_view(regs: [[u32; 16]; 4], g: int) -> Seq<u32> {
    group(regs[0]@, g) + group(regs[1]@, g) + group(regs[2]@, g) + group(regs[3]@, g)
}

impl Matrix {
    /// The quarter round on the four rows, element by element: sixteen
    /// column quarter rounds at once.
    fn quarter_round(&mut self)
        ensures
            forall|g: int, i: int|
                0 <= g < 4 && 0 <= i < 4 ==> #[trigger] group(final(self).state[i]@, g) == quarter_row(
                    group(old(self).state[0]@, g),
                    group(old(self).state[1]@, g),
                    group(old(self).state[2]@, g),
                    group(old(self).state[3]@, g),
                    i,
                ),
    {
        let ghost r = self.state;
        self.state[0] = add_epi32(self.state[0], self.state[1]);
        self.state[3] = xor_si(self.state[3], self.state[0]);
        self.state[3] = rol_epi32(self.state[3], 16);

        self.state[2] = add_epi32(self.state[2], self.state[3]);
        self.state[1] = xor_si(self.state[1], self.state[2]);
        self.state[1] = rol_epi32(self.state[1], 12);

        self.state[0] = add_epi32(self.state[0], self.state[1]);
        self.state[3] = xor_si(self.state[3], self.state[0]);
        self.state[3] = rol_epi32(self.state[3], 8);

        self.state[2] = add_epi32(self.state[2], self.state[3]);
        self.state[1] = xor_si(self.state[1], self.state[2]);
        self.state[1] = rol_epi32(self.state[1], 7);

        let ghost s = self.state;
        assert forall|g: int, i: int| 0 <= g < 4 && 0 <= i < 4 implies #[trigger] group(s[i]@, g) == quarter_row(
            group(r[0]@, g),
            group(r[1]@, g),
            group(r[2]@, g),
            group(r[3]@, g),
            i,
        ) by {
            assert(group(s[0]@, g) =~= quarter_row(group(r[0]@, g), group(r[1]@, g), group(r[2]@, g), group(r[3]@, g), 0));
            assert(group(s[1]@, g) =~= quarter_row(group(r[0]@, g), group(r[1]@, g), group(r[2]@, g), group(r[3]@, g), 1));
            assert(group(s[2]@, g) =~= quarter_row(group(r[0]@, g), group(r[1]@, g), group(r[2]@, g), group(r[3]@, g), 2));
            assert(group(s[3]@, g) =~= quarter_row(group(r[0]@, g), group(r[1]@, g), group(r[2]@, g), group(r[3]@, g), 3));
        }
    }

    /// Rotates rows 0, 2 and 3 within each group so that the diagonals stand
    /// in the columns.
    fn make_diagonal(&mut self)
        ensures
            forall|g: int|
                0 <= g < 4 ==> #[trigger] group(final(self).state[0]@, g) == rot(group(old(self).state[0]@, g), 3)
                    && group(final(self).state[2]@, g) == rot(group(old(self).state[2]@, g), 1)
                    && group(final(self).state[3]@, g) == rot(group(old(self).state[3]@, g), 2),
            final(self).state[1] == old(self).state[1],
    {
        proof {
            lemma_shuffle_rotations();
        }
        let ghost r = self.state;
        self.state[0] = shuffle_epi32(self.state[0], 0b_10_01_00_11);
        self.state[2] = shuffle_epi32(self.state[2], 0b_00_11_10_01);
        self.state[3] = shuffle_epi32(self.state[3], 0b_01_00_11_10);
        let ghost s = self.state;
        assert forall|g: int| 0 <= g < 4 implies #[trigger] group(s[0]@, g) == rot(group(r[0]@, g), 3) && group(s[2]@, g) == rot(
            group(r[2]@, g),
            1,
        ) && group(s[3]@, g) == rot(group(r[3]@, g), 2) by {
            assert(group(s[0]@, g) =~= rot(group(r[0]@, g), 3));
            assert(group(s[2]@, g) =~= rot(group(r[2]@, g), 1));
            assert(group(s[3]@, g) =~= rot(group(r[3]@, g), 2));
        }
    }

    /// Rotates rows 0, 2 and 3 within each group back into place.
    fn unmake_diagonal(&mut self)
        ensures
            forall|g: int|
                0 <= g < 4 ==> #[trigger] group(final(self).state[0]@, g) == rot(group(old(self).state[0]@, g), 1)
                    && group(final(self).state[2]@, g) == rot(group(old(self).state[2]@, g), 3)
                    && group(final(self).state[3]@, g) == rot(group(old(self).state[3]@, g), 2),
            final(self).state[1] == old(self).state[1],
    {
        proof {
            lemma_shuffle_rotations();
        }
        let ghost r = self.state;
        self.state[2] = shuffle_epi32(self.state[2], 0b_10_01_00_11);
        self.state[3] = shuffle_epi32(self.state[3], 0b_01_00_11_10);
        self.state[0] = shuffle_epi32(self.state[0], 0b_00_11_10_01);
        let ghost s = self.state;
        assert forall|g: int| 0 <= g < 4 implies #[trigger] group(s[0]@, g) == rot(group(r[0]@, g), 1) && group(s[2]@, g) == rot(
            group(r[2]@, g),
            3,
        ) && group(s[3]@, g) == rot(group(r[3]@, g), 2) by {
            assert(group(s[0]@, g) =~= rot(group(r[0]@, g), 1));
            assert(group(s[2]@, g) =~= rot(group(r[2]@, g), 3));
            assert(group(s[3]@, g) =~= rot(group(r[3]@, g), 2));
        }
    }
}

impl Machine for Matrix {
    closed spec fn lanes(&self) -> Seq<Seq<u32>> {
        Seq::new(4, |l: int| group_view(self.state, 3 - l))
    }

    fn new_djb(state: &ChaChaNaked) -> (r: Self) {
        let ra = row_a();
        let a: [u32; 16] = broadcast_128(ra.u32x4);
        let b: [u32; 16] = broadcast_128(state.row_b.u32x4);
        let c: [u32; 16] = broadcast_128(state.row_c.u32x4);
        let d: [u32; 16] = broadcast_128(state.row_d.u32x4);
        let mut result = Matrix { state: [a, b, c, d] };
        let incs: [u32; 16] = [3, 0, 0, 0, 2, 0, 0, 0, 1, 0, 0, 0, 0, 0, 0, 0];
        result.state[3] = add_epi64(result.state[3], incs);
        proof {
            let (r0, r1, r2, r3) = (sigma(), state.row_b.u32x4@, state.row_c.u32x4@, state.row_d.u32x4@);
            assert forall|g: int| 0 <= g < 4 implies #[trigger] group(a@, g) == r0 && group(b@, g) == r1 && group(c@, g)
                == r2 && group(d@, g) == r3 by {
                lemma_broadcast_group(r0, a@, g);
                lemma_broadcast_group(r1, b@, g);
                lemma_broadcast_group(r2, c@, g);
                lemma_broadcast_group(r3, d@, g);
            }
            let m = state.matrix();
            assert(r0 + r1 + r2 + r3 == m);
            lemma_advance_zero(Variants::Djb, m);
            assert(incs@ =~= seq![3u32, 0, 0, 0, 2, 0, 0, 0, 1, 0, 0, 0, 0, 0, 0, 0]);
            let x = result.state[3]@;
            lemma_counter_group_djb(r0, r1, r2, d@, incs@, x, 3, 0);
            lemma_counter_group_djb(r0, r1, r2, d@, incs@, x, 2, 1);
            lemma_counter_group_djb(r0, r1, r2, d@, incs@, x, 1, 2);
            lemma_counter_group_djb(r0, r1, r2, d@, incs@, x, 0, 3);
        }
        assert(result.lanes() =~= lanes_from(Variants::Djb, state.matrix()));
        result
    }

    fn new_ietf(state: &ChaChaNaked) -> (r: Self) {
        let ra = row_a();
        let a: [u32; 16] = broadcast_128(ra.u32x4);
        let b: [u32; 16] = broadcast_128(state.row_b.u32x4);
        let c: [u32; 16] = broadcast_128(state.row_c.u32x4);
        let d: [u32; 16] = broadcast_128(state.row_d.u32x4);
        let mut result = Matrix { state: [a, b, c, d] };
        let incs: [u32; 16] = [3, 0, 0, 0, 2, 0, 0, 0, 1, 0, 0, 0, 0, 0, 0, 0];
        result.state[3] = add_epi32(result.state[3], incs);
        proof {
            let (r0, r1, r2, r3) = (sigma(), state.row_b.u32x4@, state.row_c.u32x4@, state.row_d.u32x4@);
            assert forall|g: int| 0 <= g < 4 implies #[trigger] group(a@, g) == r0 && group(b@, g) == r1 && group(c@, g)
                == r2 && group(d@, g) == r3 by {
                lemma_broadcast_group(r0, a@, g);
                lemma_broadcast_group(r1, b@, g);
                lemma_broadcast_group(r2, c@, g);
                lemma_broadcast_group(r3, d@, g);
            }
            let m = state.matrix();
            assert(r0 + r1 + r2 + r3 == m);
            lemma_advance_zero(Variants::Ietf, m);
            assert(incs@ =~= seq![3u32, 0, 0, 0, 2, 0, 0, 0, 1, 0, 0, 0, 0, 0, 0, 0]);
            let x = result.state[3]@;
            lemma_counter_group_ietf(r0, r1, r2, d@, incs@, x, 3, 0);
            lemma_counter_group_ietf(r0, r1, r2, d@, incs@, x, 2, 1);
            lemma_counter_group_ietf(r0, r1, r2, d@, incs@, x, 1, 2);
            lemma_counter_group_ietf(r0, r1, r2, d@, incs@, x, 0, 3);
        }
        assert(result.lanes() =~= lanes_from(Variants::Ietf, state.matrix()));
        result
    }

    fn increment_djb(&mut self) {
        let increment: [u32; 16] = [4, 0, 0, 0, 4, 0, 0, 0, 4, 0, 0, 0, 4, 0, 0, 0];
        self.state[3] = add_epi64(self.state[3], increment);
        proof {
            let o = old(self).state;
            assert forall|l: int| 0 <= l < 4 implies #[trigger] self.lanes()[l] == advance(Variants::Djb, old(self).lanes()[l], 4) by {
                let g = 3 - l;
                let (x, y) = (o[3]@, self.state[3]@);
                assert(group(x, g) =~= seq![x[4 * g], x[4 * g + 1], x[4 * g + 2], x[4 * g + 3]]);
                assert(group(y, g) =~= seq![y[4 * g], y[4 * g + 1], y[4 * g + 2], y[4 * g + 3]]);
                assert((4 * g) / 2 == 2 * g && (4 * g + 2) / 2 == 2 * g + 1 && (4 * g + 1) / 2 == 2 * g && (4 * g + 3) / 2 == 2 * g + 1);
                lemma_counter_row_djb(group(o[0]@, g), group(o[1]@, g), group(o[2]@, g), group(x, g), group(y, g), 4);
            }
        }
        assert(self.lanes() =~= Seq::new(4, |l: int| advance(Variants::Djb, old(self).lanes()[l], 4)));
    }

    fn increment_ietf(&mut self) {
        let increment: [u32; 16] = [4, 0, 0, 0, 4, 0, 0, 0, 4, 0, 0, 0, 4, 0, 0, 0];
        self.state[3] = add_epi32(self.state[3], increment);
        proof {
            let o = old(self).state;
            assert forall|l: int| 0 <= l < 4 implies #[trigger] self.lanes()[l] == advance(Variants::Ietf, old(self).lanes()[l], 4) by {
                let g = 3 - l;
                let (x, y) = (o[3]@, self.state[3]@);
                assert(group(x, g) =~= seq![x[4 * g], x[4 * g + 1], x[4 * g + 2], x[4 * g + 3]]);
                assert(group(y, g) =~= seq![y[4 * g], y[4 * g + 1], y[4 * g + 2], y[4 * g + 3]]);
                lemma_counter_row_ietf(group(o[0]@, g), group(o[1]@, g), group(o[2]@, g), group(x, g), group(y, g), 4);
            }
        }
        assert(self.lanes() =~= Seq::new(4, |l: int| advance(Variants::Ietf, old(self).lanes()[l], 4)));
    }

    fn double_round(&mut self) {
        let ghost s0 = self.state;
        // Column rounds
        self.quarter_round();
        let ghost s1 = self.state;
        // Diagonal rounds
        self.make_diagonal();
        self.quarter_round();
        self.unmake_diagonal();
        proof {
            assert forall|l: int| 0 <= l < 4 implies #[trigger] self.lanes()[l] == crate::model::double_round(old(self).lanes()[l]) by {
                let g = 3 - l;
                lemma_column_rows(group(s0[0]@, g), group(s0[1]@, g), group(s0[2]@, g), group(s0[3]@, g));
                assert(group_view(s1, g) == column_round(group_view(s0, g)));
                lemma_diagonal_rows(group(s1[0]@, g), group(s1[1]@, g), group(s1[2]@, g), group(s1[3]@, g));
            }
        }
        assert(self.lanes() =~= Seq::new(4, |l: int| crate::model::double_round(old(self).lanes()[l])));
    }

    fn add(self, rhs: Self) -> (r: Self) {
        let mut out = self;
        let mut i: usize = 0;
        while i < 4
            invariant
                i <= 4,
                forall|k: int, g: int|
                    0 <= k < i && 0 <= g < 4 ==> #[trigger] group(out.state[k]@, g) == add_row(
                        group(self.state[k]@, g),
                        group(rhs.state[k]@, g),
                    ),
                forall|k: int| i <= k < 4 ==> #[trigger] out.state[k] == self.state[k],
            decreases 4 - i,
        {
            let x = add_epi32(out.state[i], rhs.state[i]);
            assert forall|g: int| 0 <= g < 4 implies #[trigger] group(x@, g) == add_row(
                group(self.state[i as int]@, g),
                group(rhs.state[i as int]@, g),
            ) by {
                assert(group(x@, g) =~= add_row(group(self.state[i as int]@, g), group(rhs.state[i as int]@, g)));
            }
            out.state[i] = x;
            i += 1;
        }
        proof {
            assert forall|l: int| 0 <= l < 4 implies #[trigger] out.lanes()[l] == add_words(self.lanes()[l], rhs.lanes()[l]) by {
                let g = 3 - l;
                let (x, y) = (self.state, rhs.state);
                lemma_add_rows(
                    group(x[0]@, g),
                    group(x[1]@, g),
                    group(x[2]@, g),
                    group(x[3]@, g),
                    group(y[0]@, g),
                    group(y[1]@, g),
                    group(y[2]@, g),
                    group(y[3]@, g),
                );
            }
        }
        assert(out.lanes() =~= Seq::new(4, |l: int| add_words(self.lanes()[l], rhs.lanes()[l])));
        out
    }

    fn duplicate(&self) -> (r: Self) {
        Matrix { state: self.state }
    }

    fn fetch_result(self, buf: &mut [u8; BUF_LEN_U8]) {
        let s = self.state;
        let lanes = [
            concat_rows(extract_128(s[0], 3), extract_128(s[1], 3), extract_128(s[2], 3), extract_128(s[3], 3)),
            concat_rows(extract_128(s[0], 2), extract_128(s[1], 2), extract_128(s[2], 2), extract_128(s[3], 2)),
            concat_rows(extract_128(s[0], 1), extract_128(s[1], 1), extract_128(s[2], 1), extract_128(s[3], 1)),
            concat_rows(extract_128(s[0], 0), extract_128(s[1], 0), extract_128(s[2], 0), extract_128(s[3], 0)),
        ];
        store_lanes(&lanes, buf);
        assert(Seq::new(4, |l: int| lanes[l]@) =~= self.lanes());
    }
}

} // verus!
