//! The 256-bit machine: two lanes per register, four registers (one per
//! row) for each pair of lanes. Lanes 0 and 1 sit in the upper and lower
//! halves of the first pair, lanes 2 and 3 in those of the second; output
//! splits the halves back into lane order.
use crate::backends::vector::{
    add_epi32, add_epi64, add_row, broadcast_128, concat_rows, diagonalize_rows, extract_128, group, lemma_add_rows,
    lemma_broadcast_group, lemma_column_rows, lemma_counter_group_djb, lemma_counter_group_ietf, lemma_diagonal_rows,
    lemma_quarter_groups, quarter_round_rows, quarter_row, rot, store_lanes, undiagonalize_rows,
};
use crate::model::{add_words, advance, column_round, lanes_from, lemma_advance_zero, sigma};
use crate::util::{row_a, ChaChaNaked, Machine, BUF_LEN_U8};
use crate::variations::Variants;
use vstd::prelude::*;

verus! {

/// Four ChaCha matrices in two pairs of four 256-bit rows.
pub struct Matrix {
    state: [[[u32; 8]; 4]; 2],
}

/// The matrix that group `g` of the four rows `regs` holds.
pub open spec fn half_view(regs: [[u32; 8]; 4], g: int) -> Seq<u32> {
    group(regs[0]@, g) + group(regs[1]@, g) + group(regs[2]@, g) + group(regs[3]@, g)
}

/// The register pair that holds lane `l`.
pub open spec fn pair_of(l: int) -> int {
    l / 2
}

/// The half of its register pair that holds lane `l`: the upper for even
/// lanes, the lower for odd ones.
pub open spec fn half_of(l: int) -> int {
    1 - l % 2
}

/// `after` is `before` after a quarter round on its rows, in both halves.
pub open spec fn quarter_done(before: [[u32; 8]; 4], after: [[u32; 8]; 4]) -> bool {
    forall|g: int, i: int|
        0 <= g < 2 && 0 <= i < 4 ==> #[trigger] group(after[i]@, g) == quarter_row(
            group(before[0]@, g),
            group(before[1]@, g),
            group(before[2]@, g),
            group(before[3]@, g),
            i,
        )
}

/// `after` is `before` with rows 0, 2 and 3 rotated by `n0`, `n2` and `n3`
/// elements within each half.
pub open spec fn rotated(before: [[u32; 8]; 4], after: [[u32; 8]; 4], n0: int, n2: int, n3: int) -> bool {
    &&& after[1] == before[1]
    &&& forall|g: int|
        0 <= g < 2 ==> #[trigger] group(after[0]@, g) == rot(group(before[0]@, g), n0) && group(after[2]@, g) == rot(
            group(before[2]@, g),
            n2,
        ) && group(after[3]@, g) == rot(group(before[3]@, g), n3)
}

impl Matrix {
    /// The quarter round on the rows of both register pairs, element by
    /// element: eight column quarter rounds at once.
    fn quarter_round(&mut self)
        ensures
            quarter_done(old(self).state[0], final(self).state[0]),
            quarter_done(old(self).state[1], final(self).state[1]),
    {
        let ghost s0 = self.state;
        self.state[0] = quarter_round_rows(self.state[0]);
        self.state[1] = quarter_round_rows(self.state[1]);
        proof {
            lemma_quarter_groups(s0[0], self.state[0], 0);
            lemma_quarter_groups(s0[0], self.state[0], 1);
            lemma_quarter_groups(s0[1], self.state[1], 0);
            lemma_quarter_groups(s0[1], self.state[1], 1);
        }
    }

    /// Rotates rows 0, 2 and 3 within each half so that the diagonals stand
    /// in the columns.
    fn make_diagonal(&mut self)
        ensures
            rotated(old(self).state[0], final(self).state[0], 3, 1, 2),
            rotated(old(self).state[1], final(self).state[1], 3, 1, 2),
    {
        self.state[0] = diagonalize_rows(self.state[0]);
        self.state[1] = diagonalize_rows(self.state[1]);
    }

    /// Rotates rows 0, 2 and 3 within each half back into place.
    fn unmake_diagonal(&mut self)
        ensures
            rotated(old(self).state[0], final(self).state[0], 1, 3, 2),
            rotated(old(self).state[1], final(self).state[1], 1, 3, 2),
    {
        self.state[0] = undiagonalize_rows(self.state[0]);
        self.state[1] = undiagonalize_rows(self.state[1]);
    }
}

impl Machine for Matrix {
    closed spec fn lanes(&self) -> Seq<Seq<u32>> {
        Seq::new(4, |l: int| half_view(self.state[pair_of(l)], half_of(l)))
    }

    fn new_djb(state: &ChaChaNaked) -> (r: Self) {
        let ra = row_a();
        let a: [u32; 8] = broadcast_128(ra.u32x4);
        let b: [u32; 8] = broadcast_128(state.row_b.u32x4);
        let c: [u32; 8] = broadcast_128(state.row_c.u32x4);
        let d: [u32; 8] = broadcast_128(state.row_d.u32x4);
        let mut result = Matrix { state: [[a, b, c, d], [a, b, c, d]] };
        let low_pair: [u32; 8] = [1, 0, 0, 0, 0, 0, 0, 0];
        let high_pair: [u32; 8] = [3, 0, 0, 0, 2, 0, 0, 0];
        result.state[0][3] = add_epi64(result.state[0][3], low_pair);
        result.state[1][3] = add_epi64(result.state[1][3], high_pair);
        proof {
            let (r0, r1, r2, r3) = (sigma(), state.row_b.u32x4@, state.row_c.u32x4@, state.row_d.u32x4@);
            assert forall|g: int| 0 <= g < 2 implies #[trigger] group(a@, g) == r0 && group(b@, g) == r1 && group(c@, g)
                == r2 && group(d@, g) == r3 by {
                lemma_broadcast_group(r0, a@, g);
                lemma_broadcast_group(r1, b@, g);
                lemma_broadcast_group(r2, c@, g);
                lemma_broadcast_group(r3, d@, g);
            }
            assert(r0 + r1 + r2 + r3 == state.matrix());
            lemma_advance_zero(Variants::Djb, state.matrix());
            assert(low_pair@ =~= seq![1u32, 0, 0, 0, 0, 0, 0, 0]);
            assert(high_pair@ =~= seq![3u32, 0, 0, 0, 2, 0, 0, 0]);
            lemma_counter_group_djb(r0, r1, r2, d@, low_pair@, result.state[0][3]@, 1, 0);
            lemma_counter_group_djb(r0, r1, r2, d@, low_pair@, result.state[0][3]@, 0, 1);
            lemma_counter_group_djb(r0, r1, r2, d@, high_pair@, result.state[1][3]@, 1, 2);
            lemma_counter_group_djb(r0, r1, r2, d@, high_pair@, result.state[1][3]@, 0, 3);
        }
        assert(result.lanes() =~= lanes_from(Variants::Djb, state.matrix()));
        result
    }

    fn new_ietf(state: &ChaChaNaked) -> (r: Self) {
        let ra = row_a();
        let a: [u32; 8] = broadcast_128(ra.u32x4);
        let b: [u32; 8] = broadcast_128(state.row_b.u32x4);
        let c: [u32; 8] = broadcast_128(state.row_c.u32x4);
        let d: [u32; 8] = broadcast_128(state.row_d.u32x4);
        let mut result = Matrix { state: [[a, b, c, d], [a, b, c, d]] };
        let low_pair: [u32; 8] = [1, 0, 0, 0, 0, 0, 0, 0];
        let high_pair: [u32; 8] = [3, 0, 0, 0, 2, 0, 0, 0];
        result.state[0][3] = add_epi32(result.state[0][3], low_pair);
        result.state[1][3] = add_epi32(result.state[1][3], high_pair);
        proof {
            let (r0, r1, r2, r3) = (sigma(), state.row_b.u32x4@, state.row_c.u32x4@, state.row_d.u32x4@);
            assert forall|g: int| 0 <= g < 2 implies #[trigger] group(a@, g) == r0 && group(b@, g) == r1 && group(c@, g)
                == r2 && group(d@, g) == r3 by {
                lemma_broadcast_group(r0, a@, g);
                lemma_broadcast_group(r1, b@, g);
                lemma_broadcast_group(r2, c@, g);
                lemma_broadcast_group(r3, d@, g);
            }
            assert(r0 + r1 + r2 + r3 == state.matrix());
            lemma_advance_zero(Variants::Ietf, state.matrix());
            assert(low_pair@ =~= seq![1u32, 0, 0, 0, 0, 0, 0, 0]);
            assert(high_pair@ =~= seq![3u32, 0, 0, 0, 2, 0, 0, 0]);
            lemma_counter_group_ietf(r0, r1, r2, d@, low_pair@, result.state[0][3]@, 1, 0);
            lemma_counter_group_ietf(r0, r1, r2, d@, low_pair@, result.state[0][3]@, 0, 1);
            lemma_counter_group_ietf(r0, r1, r2, d@, high_pair@, result.state[1][3]@, 1, 2);
            lemma_counter_group_ietf(r0, r1, r2, d@, high_pair@, result.state[1][3]@, 0, 3);
        }
        assert(result.lanes() =~= lanes_from(Variants::Ietf, state.matrix()));
        result
    }

    fn increment_djb(&mut self) {
        let increment: [u32; 8] = [4, 0, 0, 0, 4, 0, 0, 0];
        self.state[0][3] = add_epi64(self.state[0][3], increment);
        self.state[1][3] = add_epi64(self.state[1][3], increment);
        proof {
            let o = old(self).state;
            assert(increment@ =~= seq![4u32, 0, 0, 0, 4, 0, 0, 0]);
            assert forall|l: int| 0 <= l < 4 implies #[trigger] self.lanes()[l] == advance(Variants::Djb, old(self).lanes()[l], 4) by {
                let (p, g) = (pair_of(l), half_of(l));
                lemma_counter_group_djb(group(o[p][0]@, g), group(o[p][1]@, g), group(o[p][2]@, g), o[p][3]@, increment@, self.state[p][3]@, g, 4);
            }
        }
        assert(self.lanes() =~= Seq::new(4, |l: int| advance(Variants::Djb, old(self).lanes()[l], 4)));
    }

    fn increment_ietf(&mut self) {
        let increment: [u32; 8] = [4, 0, 0, 0, 4, 0, 0, 0];
        self.state[0][3] = add_epi32(self.state[0][3], increment);
        self.state[1][3] = add_epi32(self.state[1][3], increment);
        proof {
            let o = old(self).state;
            assert(increment@ =~= seq![4u32, 0, 0, 0, 4, 0, 0, 0]);
            assert forall|l: int| 0 <= l < 4 implies #[trigger] self.lanes()[l] == advance(Variants::Ietf, old(self).lanes()[l], 4) by {
                let (p, g) = (pair_of(l), half_of(l));
                lemma_counter_group_ietf(group(o[p][0]@, g), group(o[p][1]@, g), group(o[p][2]@, g), o[p][3]@, increment@, self.state[p][3]@, g, 4);
            }
        }
        assert(self.lanes() =~= Seq::new(4, |l: int| advance(Variants::Ietf, old(self).lanes()[l], 4)));
    }

    fn double_round(&mut self) {
        let ghost s0 = self.state;
        // Column rounds
        self.quarter_round();
        let ghost s1 = self.state;
        // Diagonal rounds
        self.make_diagonal();
        let ghost s2 = self.state;
        self.quarter_round();
        let ghost s3 = self.state;
        self.unmake_diagonal();
        proof {
            assert forall|l: int| 0 <= l < 4 implies #[trigger] self.lanes()[l] == crate::model::double_round(old(self).lanes()[l]) by {
                let (p, g) = (pair_of(l), half_of(l));
                assert(quarter_done(s0[p], s1[p]) && rotated(s1[p], s2[p], 3, 1, 2) && quarter_done(s2[p], s3[p]) && rotated(
                    s3[p],
                    self.state[p],
                    1,
                    3,
                    2,
                ));
                lemma_column_rows(group(s0[p][0]@, g), group(s0[p][1]@, g), group(s0[p][2]@, g), group(s0[p][3]@, g));
                assert(half_view(s1[p], g) == column_round(half_view(s0[p], g)));
                lemma_diagonal_rows(group(s1[p][0]@, g), group(s1[p][1]@, g), group(s1[p][2]@, g), group(s1[p][3]@, g));
            }
        }
        assert(self.lanes() =~= Seq::new(4, |l: int| crate::model::double_round(old(self).lanes()[l])));
    }

    fn add(self, rhs: Self) -> (r: Self) {
        let mut out = self;
        let mut p: usize = 0;
        while p < 2
            invariant
                p <= 2,
                forall|q: int, i: int, g: int|
                    0 <= q < p && 0 <= i < 4 && 0 <= g < 2 ==> #[trigger] group(out.state[q][i]@, g) == add_row(
                        group(self.state[q][i]@, g),
                        group(rhs.state[q][i]@, g),
                    ),
                forall|q: int| p <= q < 2 ==> #[trigger] out.state[q] == self.state[q],
            decreases 2 - p,
        {
            let mut i: usize = 0;
            while i < 4
                invariant
                    p < 2,
                    i <= 4,
                    forall|q: int, k: int, g: int|
                        0 <= q < p && 0 <= k < 4 && 0 <= g < 2 ==> #[trigger] group(out.state[q][k]@, g) == add_row(
                            group(self.state[q][k]@, g),
                            group(rhs.state[q][k]@, g),
                        ),
                    forall|k: int, g: int|
                        0 <= k < i && 0 <= g < 2 ==> #[trigger] group(out.state[p as int][k]@, g) == add_row(
                            group(self.state[p as int][k]@, g),
                            group(rhs.state[p as int][k]@, g),
                        ),
                    forall|k: int| i <= k < 4 ==> #[trigger] out.state[p as int][k] == self.state[p as int][k],
                    forall|q: int| p < q < 2 ==> #[trigger] out.state[q] == self.state[q],
                decreases 4 - i,
            {
                let x = add_epi32(out.state[p][i], rhs.state[p][i]);
                assert forall|g: int| 0 <= g < 2 implies #[trigger] group(x@, g) == add_row(
                    group(self.state[p as int][i as int]@, g),
                    group(rhs.state[p as int][i as int]@, g),
                ) by {
                    assert(group(x@, g) =~= add_row(group(self.state[p as int][i as int]@, g), group(rhs.state[p as int][i as int]@, g)));
                }
                out.state[p][i] = x;
                i += 1;
            }
            p += 1;
        }
        proof {
            assert forall|l: int| 0 <= l < 4 implies #[trigger] out.lanes()[l] == add_words(self.lanes()[l], rhs.lanes()[l]) by {
                let (p, g) = (pair_of(l), half_of(l));
                let (x, y) = (self.state[p], rhs.state[p]);
                lemma_add_rows(
                    group(x[0]@, g),
                    group(x[1]@, g),
                    group(x[2]@, g),
                    group(x[3]@, g),
                    group(y[0]@, g),
                    group(y[1]@, g),
                    group(y[2]@, g),
                    group(y[3]@, g),
                );
            }
        }
        assert(out.lanes() =~= Seq::new(4, |l: int| add_words(self.lanes()[l], rhs.lanes()[l])));
        out
    }

    fn duplicate(&self) -> (r: Self) {
        Matrix { state: self.state }
    }

    fn fetch_result(self, buf: &mut [u8; BUF_LEN_U8]) {
        let s = self.state;
        let lanes = [
            concat_rows(extract_128(s[0][0], 1), extract_128(s[0][1], 1), extract_128(s[0][2], 1), extract_128(s[0][3], 1)),
            concat_rows(extract_128(s[0][0], 0), extract_128(s[0][1], 0), extract_128(s[0][2], 0), extract_128(s[0][3], 0)),
            concat_rows(extract_128(s[1][0], 1), extract_128(s[1][1], 1), extract_128(s[1][2], 1), extract_128(s[1][3], 1)),
            concat_rows(extract_128(s[1][0], 0), extract_128(s[1][1], 0), extract_128(s[1][2], 0), extract_128(s[1][3], 0)),
        ];
        store_lanes(&lanes, buf);
        assert(Seq::new(4, |l: int| lanes[l]@) =~= self.lanes());
    }
}

} // verus!
