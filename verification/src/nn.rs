//! The incremental network evaluator: a one-hidden-layer network over the
//! 12-plane x 64-square binary feature encoding of a position, with
//! integer (fixed-point) weights. The hidden-layer pre-activation is kept
//! in an accumulator and updated feature by feature as the planes change
//! between consecutive evaluations; its contract states that the output
//! always equals a full forward pass over the freshly encoded feature
//! vector, so the incremental update is exactly equivalent to evaluating
//! from scratch.

use vstd::prelude::*;
use crate::board::{bit64, BoardRep, Position};
use crate::eval::{clamp_spec, tdiv};

verus! {

/// Magnitude bound on first-layer weights and biases.
pub const NN_W1_BOUND: i64 = 1048576;

/// Magnitude bound on output-layer weights.
pub const NN_W2_BOUND: i64 = 1024;

/// Fixed-point scale divided out of the raw network output.
pub const NN_SCALE: i64 = 65536;

/// The 12 feature planes of a position: the six piece kinds of the first
/// player, then of the second, each masked to that player's pieces.
pub open spec fn planes_of(rep: BoardRep) -> Seq<u64> {
    seq![
        rep.white & rep.pawns,
        rep.white & rep.knights,
        rep.white & rep.bishops,
        rep.white & rep.rooks,
        rep.white & rep.queens,
        rep.white & rep.kings,
        rep.black & rep.pawns,
        rep.black & rep.knights,
        rep.black & rep.bishops,
        rep.black & rep.rooks,
        rep.black & rep.queens,
        rep.black & rep.kings,
    ]
}

/// Sum of column `j` of the weights of one plane's features with square
/// index at least `s`, over the plane's set bits.
pub open spec fn col_sum_from(w: Seq<Vec<i64>>, base: int, plane: u64, j: int, s: int) -> int
    decreases 64 - s,
{
    if s < 0 || s >= 64 {
        0
    } else {
        (if bit64(plane, s as u64) {
            w[base + s]@[j] as int
        } else {
            0
        }) + col_sum_from(w, base, plane, j, s + 1)
    }
}

/// Sum of column `j` over the plane's set bits with square index below
/// `s`.
pub open spec fn col_sum_pre(w: Seq<Vec<i64>>, base: int, plane: u64, j: int, s: int) -> int
    decreases s,
{
    if s <= 0 {
        0
    } else {
        col_sum_pre(w, base, plane, j, s - 1) + (if bit64(plane, (s - 1) as u64) {
            w[base + s - 1]@[j] as int
        } else {
            0
        })
    }
}

/// Sum of column `j` over all active features of the planes with index at
/// least `p`.
pub open spec fn planes_sum_from(w: Seq<Vec<i64>>, planes: Seq<u64>, j: int, p: int) -> int
    decreases 12 - p,
{
    if p < 0 || p >= 12 {
        0
    } else {
        col_sum_from(w, 64 * p, planes[p], j, 0) + planes_sum_from(w, planes, j, p + 1)
    }
}

/// Sum of column `j` over all active features of the planes with index
/// below `p`.
pub open spec fn planes_sum_pre(w: Seq<Vec<i64>>, planes: Seq<u64>, j: int, p: int) -> int
    decreases p,
{
    if p <= 0 {
        0
    } else {
        planes_sum_pre(w, planes, j, p - 1) + col_sum_from(w, 64 * (p - 1), planes[p - 1], j, 0)
    }
}

/// The hidden-layer pre-activation of unit `j` for a position with the
/// given feature planes: the bias plus the weight columns of every active
/// feature.
pub open spec fn acc_spec(w: Seq<Vec<i64>>, b: Seq<i64>, planes: Seq<u64>, j: int) -> int {
    b[j] + planes_sum_from(w, planes, j, 0)
}

pub open spec fn relu_spec(x: int) -> int {
    if x < 0 {
        0
    } else {
        x
    }
}

/// The output-layer sum over hidden units with index at least `j`.
pub open spec fn out_sum_from(
    w: Seq<Vec<i64>>,
    b: Seq<i64>,
    w2: Seq<i64>,
    planes: Seq<u64>,
    j: int,
) -> int
    decreases w2.len() - j,
{
    if j < 0 || j >= w2.len() {
        0
    } else {
        relu_spec(acc_spec(w, b, planes, j)) * w2[j] + out_sum_from(w, b, w2, planes, j + 1)
    }
}

/// The whole network's score for a position with the given planes, in
/// centipawns: raw output scaled to centipawns and clamped below the mate
/// band, like the static evaluation.
pub open spec fn net_eval_spec(
    w: Seq<Vec<i64>>,
    b: Seq<i64>,
    w2: Seq<i64>,
    b2: i64,
    rep: BoardRep,
) -> int {
    clamp_spec(tdiv((b2 + out_sum_from(w, b, w2, planes_of(rep), 0)) * 200, NN_SCALE as int), 8000)
}

/// Shape and magnitude constraints on the first layer's weights.
pub open spec fn w1_wf(w: Seq<Vec<i64>>, b: Seq<i64>) -> bool {
    &&& w.len() == 768
    &&& forall|i: int| 0 <= i < 768 ==> (#[trigger] w[i])@.len() == b.len()
    &&& forall|i: int, j: int|
        0 <= i < 768 && 0 <= j < b.len() ==> -NN_W1_BOUND <= #[trigger] w[i]@[j] <= NN_W1_BOUND
    &&& forall|j: int| 0 <= j < b.len() ==> -NN_W1_BOUND <= #[trigger] b[j] <= NN_W1_BOUND
}

proof fn lemma_col_sum_zero(w: Seq<Vec<i64>>, base: int, j: int, s: int)
    ensures
        col_sum_from(w, base, 0u64, j, s) == 0,
    decreases 64 - s,
{
    if 0 <= s < 64 {
        let su = s as u64;
        assert((0u64 >> su) & 1u64 != 1u64) by (bit_vector);
        lemma_col_sum_zero(w, base, j, s + 1);
    }
}

proof fn lemma_planes_zero(w: Seq<Vec<i64>>, planes: Seq<u64>, j: int, p: int)
    requires
        planes.len() == 12,
        forall|q: int| 0 <= q < 12 ==> planes[q] == 0u64,
    ensures
        planes_sum_from(w, planes, j, p) == 0,
    decreases 12 - p,
{
    if 0 <= p < 12 {
        lemma_col_sum_zero(w, 64 * p, j, 0);
        lemma_planes_zero(w, planes, j, p + 1);
    }
}

/// Prefix and suffix of one plane's column sum add up to the whole.
proof fn lemma_col_split(w: Seq<Vec<i64>>, base: int, plane: u64, j: int, s: int)
    requires
        0 <= s <= 64,
    ensures
        col_sum_pre(w, base, plane, j, s) + col_sum_from(w, base, plane, j, s) == col_sum_from(
            w,
            base,
            plane,
            j,
            0,
        ),
    decreases s,
{
    if s > 0 {
        lemma_col_split(w, base, plane, j, s - 1);
    }
}

/// Prefix and suffix of the plane sums add up to the whole.
proof fn lemma_planes_split(w: Seq<Vec<i64>>, planes: Seq<u64>, j: int, p: int)
    requires
        0 <= p <= 12,
    ensures
        planes_sum_pre(w, planes, j, p) + planes_sum_from(w, planes, j, p) == planes_sum_from(
            w,
            planes,
            j,
            0,
        ),
    decreases p,
{
    if p > 0 {
        lemma_planes_split(w, planes, j, p - 1);
    }
}

/// The plane-prefix sum reads only the planes below `p`.
proof fn lemma_planes_pre_congruent(
    w: Seq<Vec<i64>>,
    a: Seq<u64>,
    b: Seq<u64>,
    j: int,
    p: int,
)
    requires
        forall|q: int| 0 <= q < p ==> a[q] == b[q],
    ensures
        planes_sum_pre(w, a, j, p) == planes_sum_pre(w, b, j, p),
    decreases p,
{
    if p > 0 {
        lemma_planes_pre_congruent(w, a, b, j, p - 1);
    }
}

/// The plane-suffix sum reads only the planes from `p` up.
proof fn lemma_planes_from_congruent(
    w: Seq<Vec<i64>>,
    a: Seq<u64>,
    b: Seq<u64>,
    j: int,
    p: int,
)
    requires
        forall|q: int| p <= q < 12 ==> a[q] == b[q],
    ensures
        planes_sum_from(w, a, j, p) == planes_sum_from(w, b, j, p),
    decreases 12 - p,
{
    if 0 <= p < 12 {
        lemma_planes_from_congruent(w, a, b, j, p + 1);
    }
}

proof fn lemma_col_from_bound(w: Seq<Vec<i64>>, b: Seq<i64>, base: int, plane: u64, j: int, s: int)
    requires
        w1_wf(w, b),
        0 <= j < b.len(),
        0 <= base,
        base + 64 <= 768,
        0 <= s <= 64,
    ensures
        -((64 - s) * 1048576) <= col_sum_from(w, base, plane, j, s) <= (64 - s) * 1048576,
    decreases 64 - s,
{
    if s < 64 {
        lemma_col_from_bound(w, b, base, plane, j, s + 1);
    }
}

proof fn lemma_col_pre_bound(w: Seq<Vec<i64>>, b: Seq<i64>, base: int, plane: u64, j: int, s: int)
    requires
        w1_wf(w, b),
        0 <= j < b.len(),
        0 <= base,
        base + 64 <= 768,
        0 <= s <= 64,
    ensures
        -(s * 1048576) <= col_sum_pre(w, base, plane, j, s) <= s * 1048576,
    decreases s,
{
    if s > 0 {
        lemma_col_pre_bound(w, b, base, plane, j, s - 1);
    }
}

proof fn lemma_planes_from_bound(w: Seq<Vec<i64>>, b: Seq<i64>, planes: Seq<u64>, j: int, p: int)
    requires
        w1_wf(w, b),
        0 <= j < b.len(),
        0 <= p <= 12,
    ensures
        -((12 - p) * 67108864) <= planes_sum_from(w, planes, j, p) <= (12 - p) * 67108864,
    decreases 12 - p,
{
    if p < 12 {
        lemma_col_from_bound(w, b, 64 * p, planes[p], j, 0);
        lemma_planes_from_bound(w, b, planes, j, p + 1);
    }
}

proof fn lemma_planes_pre_bound(w: Seq<Vec<i64>>, b: Seq<i64>, planes: Seq<u64>, j: int, p: int)
    requires
        w1_wf(w, b),
        0 <= j < b.len(),
        0 <= p <= 12,
    ensures
        -(p * 67108864) <= planes_sum_pre(w, planes, j, p) <= p * 67108864,
    decreases p,
{
    if p > 0 {
        lemma_col_from_bound(w, b, 64 * (p - 1), planes[p - 1], j, 0);
        lemma_planes_pre_bound(w, b, planes, j, p - 1);
    }
}

/// The first layer together with its accumulator: the weights, the bias,
/// the last-seen feature planes and the accumulator that always equals
/// the bias plus the weight columns of the planes' active features.
pub struct IncrementalLayer {
    pub w: Vec<Vec<i64>>,
    pub b: Vec<i64>,
    pub acc: Vec<i64>,
    pub planes: Vec<u64>,
}

impl IncrementalLayer {
    pub open spec fn width(&self) -> nat {
        self.b@.len()
    }

    /// The accumulator mirrors the stored planes exactly.
    pub open spec fn in_sync(&self) -> bool {
        forall|j: int|
            0 <= j < self.width() ==> self.acc@[j] == acc_spec(self.w@, self.b@, self.planes@, j)
    }

    pub open spec fn wf(&self) -> bool {
        &&& w1_wf(self.w@, self.b@)
        &&& self.acc@.len() == self.width()
        &&& self.planes@.len() == 12
        &&& self.in_sync()
    }

    /// A layer whose accumulator is seeded for the empty feature vector;
    /// the first forward pass then accounts for every present piece.
    pub fn new(w: Vec<Vec<i64>>, b: Vec<i64>) -> (r: IncrementalLayer)
        requires
            w1_wf(w@, b@),
        ensures
            r.wf(),
            r.w@ == w@,
            r.b@ == b@,
    {
        let mut planes: Vec<u64> = Vec::new();
        for i in 0..12usize
            invariant
                planes@.len() == i,
                forall|q: int| 0 <= q < i ==> planes@[q] == 0u64,
        {
            planes.push(0);
        }
        let mut acc: Vec<i64> = Vec::new();
        let width = b.len();
        for j in 0..width
            invariant
                width == b@.len(),
                acc@.len() == j,
                forall|q: int| 0 <= q < j ==> acc@[q] == b@[q],
        {
            acc.push(b[j]);
        }
        let r = IncrementalLayer { w, b, acc, planes };
        proof {
            assert forall|j: int| 0 <= j < r.width() implies r.acc@[j] == acc_spec(
                r.w@,
                r.b@,
                r.planes@,
                j,
            ) by {
                lemma_planes_zero(r.w@, r.planes@, j, 0);
            }
        }
        r
    }

    /// Bring the accumulator up to date for `pos` by adding the weight
    /// column of every feature that appeared and subtracting that of
    /// every feature that vanished, then hand out the rectified hidden
    /// activations. The result is exactly the full forward pass over the
    /// fresh encoding of `pos`, whatever state the accumulator was in.
    pub fn forward(&mut self, pos: &Position) -> (r: Vec<i64>)
        requires
            old(self).wf(),
        ensures
            final(self).wf(),
            final(self).w@ == old(self).w@,
            final(self).b@ == old(self).b@,
            final(self).planes@ == planes_of(pos@),
            r@.len() == old(self).width(),
            forall|j: int|
                0 <= j < r@.len() ==> r@[j] == relu_spec(
                    acc_spec(old(self).w@, old(self).b@, planes_of(pos@), j),
                ),
    {
        let ghost w0 = self.w@;
        let ghost b0 = self.b@;
        let ghost target = planes_of(pos@);
        let h = self.b.len();
        let mut p: usize = 0;
        while p < 12
            invariant
                self.w@ == w0,
                self.b@ == b0,
                w1_wf(w0, b0),
                h == b0.len(),
                self.acc@.len() == h,
                self.planes@.len() == 12,
                target == planes_of(pos@),
                p <= 12,
                forall|q: int| 0 <= q < p ==> self.planes@[q] == target[q],
                forall|j: int|
                    0 <= j < h ==> self.acc@[j] == acc_spec(w0, b0, self.planes@, j),
            decreases 12 - p,
        {
            let newp = plane_for(pos, p);
            let oldp = self.planes[p];
            let ghost planes_at_entry = self.planes@;
            let mut s: usize = 0;
            proof {
                assert forall|j: int| 0 <= j < h implies self.acc@[j] == b0[j] + planes_sum_pre(
                    w0,
                    target,
                    j,
                    p as int,
                ) + col_sum_pre(w0, 64 * (p as int), newp, j, 0) + col_sum_from(
                    w0,
                    64 * (p as int),
                    oldp,
                    j,
                    0,
                ) + planes_sum_from(w0, self.planes@, j, p as int + 1) by {
                    lemma_planes_split(w0, self.planes@, j, p as int);
                    lemma_planes_pre_congruent(w0, self.planes@, target, j, p as int);
                }
            }
            while s < 64
                invariant
                    self.w@ == w0,
                    self.b@ == b0,
                    w1_wf(w0, b0),
                    h == b0.len(),
                    self.acc@.len() == h,
                    self.planes@.len() == 12,
                    self.planes@ == planes_at_entry,
                    target == planes_of(pos@),
                    p < 12,
                    s <= 64,
                    oldp == self.planes@[p as int],
                    newp == target[p as int],
                    forall|q: int| 0 <= q < p ==> self.planes@[q] == target[q],
                    forall|j: int|
                        0 <= j < h ==> self.acc@[j] == b0[j] + planes_sum_pre(
                            w0,
                            target,
                            j,
                            p as int,
                        ) + col_sum_pre(w0, 64 * (p as int), newp, j, s as int) + col_sum_from(
                            w0,
                            64 * (p as int),
                            oldp,
                            j,
                            s as int,
                        ) + planes_sum_from(w0, self.planes@, j, p as int + 1),
                decreases 64 - s,
            {
                let ob = crate::board::test_bit(oldp, s as u64);
                let nb = crate::board::test_bit(newp, s as u64);
                if ob != nb {
                    let f = 64 * p + s;
                    let ghost acc0 = self.acc@;
                    let mut j: usize = 0;
                    while j < h
                        invariant
                            self.w@ == w0,
                            self.b@ == b0,
                            w1_wf(w0, b0),
                            h == b0.len(),
                            self.acc@.len() == h,
                            self.planes@ == planes_at_entry,
                            p < 12,
                            s < 64,
                            f == 64 * p + s,
                            j <= h,
                            acc0.len() == h,
                            nb == bit64(newp, s as u64),
                            ob == bit64(oldp, s as u64),
                            ob != nb,
                            forall|q: int|
                                0 <= q < j ==> self.acc@[q] == acc0[q] + (if nb {
                                    w0[f as int]@[q] as int
                                } else {
                                    -(w0[f as int]@[q] as int)
                                }),
                            forall|q: int| j <= q < h ==> self.acc@[q] == acc0[q],
                            forall|q: int|
                                0 <= q < h ==> acc0[q] == b0[q] + planes_sum_pre(
                                    w0,
                                    target,
                                    q,
                                    p as int,
                                ) + col_sum_pre(w0, 64 * (p as int), newp, q, s as int)
                                    + col_sum_from(w0, 64 * (p as int), oldp, q, s as int)
                                    + planes_sum_from(w0, self.planes@, q, p as int + 1),
                        decreases h - j,
                    {
                        let v = self.w[f][j];
                        let a = self.acc[j];
                        proof {
                            lemma_planes_pre_bound(w0, b0, target, j as int, p as int);
                            lemma_col_pre_bound(w0, b0, 64 * (p as int), newp, j as int, s as int);
                            lemma_col_from_bound(w0, b0, 64 * (p as int), oldp, j as int, s as int);
                            lemma_planes_from_bound(w0, b0, self.planes@, j as int, p as int + 1);
                            assert(a == acc0[j as int]);
                            assert(-1048576 <= b0[j as int] <= 1048576);
                            assert(-2000000000 <= a <= 2000000000);
                            assert(f < 768);
                            assert(-1048576 <= v <= 1048576);
                        }
                        if nb {
                            self.acc[j] = a + v;
                        } else {
                            self.acc[j] = a - v;
                        }
                        j = j + 1;
                    }
                    proof {
                        assert forall|q: int| 0 <= q < h implies self.acc@[q] == b0[q]
                            + planes_sum_pre(w0, target, q, p as int) + col_sum_pre(
                            w0,
                            64 * (p as int),
                            newp,
                            q,
                            s as int + 1,
                        ) + col_sum_from(w0, 64 * (p as int), oldp, q, s as int + 1)
                            + planes_sum_from(w0, self.planes@, q, p as int + 1) by {
                            assert(col_sum_pre(w0, 64 * (p as int), newp, q, s as int + 1)
                                == col_sum_pre(w0, 64 * (p as int), newp, q, s as int) + (if bit64(
                                newp,
                                s as u64,
                            ) {
                                w0[64 * (p as int) + s]@[q] as int
                            } else {
                                0
                            }));
                            assert(col_sum_from(w0, 64 * (p as int), oldp, q, s as int) == (
                            if bit64(oldp, s as u64) {
                                w0[64 * (p as int) + s]@[q] as int
                            } else {
                                0
                            }) + col_sum_from(w0, 64 * (p as int), oldp, q, s as int + 1));
                        }
                    }
                } else {
                    proof {
                        assert forall|q: int| 0 <= q < h implies self.acc@[q] == b0[q]
                            + planes_sum_pre(w0, target, q, p as int) + col_sum_pre(
                            w0,
                            64 * (p as int),
                            newp,
                            q,
                            s as int + 1,
                        ) + col_sum_from(w0, 64 * (p as int), oldp, q, s as int + 1)
                            + planes_sum_from(w0, self.planes@, q, p as int + 1) by {
                            assert(col_sum_pre(w0, 64 * (p as int), newp, q, s as int + 1)
                                == col_sum_pre(w0, 64 * (p as int), newp, q, s as int) + (if bit64(
                                newp,
                                s as u64,
                            ) {
                                w0[64 * (p as int) + s]@[q] as int
                            } else {
                                0
                            }));
                            assert(col_sum_from(w0, 64 * (p as int), oldp, q, s as int) == (
                            if bit64(oldp, s as u64) {
                                w0[64 * (p as int) + s]@[q] as int
                            } else {
                                0
                            }) + col_sum_from(w0, 64 * (p as int), oldp, q, s as int + 1));
                        }
                    }
                }
                s = s + 1;
            }
            self.planes[p] = newp;
            proof {
                assert forall|j: int| 0 <= j < h implies self.acc@[j] == acc_spec(
                    w0,
                    b0,
                    self.planes@,
                    j,
                ) by {
                    lemma_col_split(w0, 64 * (p as int), newp, j, 64);
                    lemma_planes_from_congruent(
                        w0,
                        planes_at_entry,
                        self.planes@,
                        j,
                        p as int + 1,
                    );
                    lemma_planes_pre_congruent(w0, self.planes@, target, j, p as int + 1);
                    lemma_planes_split(w0, self.planes@, j, p as int + 1);
                }
            }
            p = p + 1;
        }
        proof {
            assert(self.planes@ =~= target);
        }
        let mut r: Vec<i64> = Vec::new();
        let mut j: usize = 0;
        while j < h
            invariant
                h == b0.len(),
                self.acc@.len() == h,
                j <= h,
                r@.len() == j,
                self.b@ == b0,
                self.w@ == w0,
                self.planes@ == target,
                target == planes_of(pos@),
                forall|q: int|
                    0 <= q < h ==> self.acc@[q] == acc_spec(w0, b0, target, q),
                forall|q: int|
                    0 <= q < j ==> r@[q] == relu_spec(acc_spec(w0, b0, target, q)),
            decreases h - j,
        {
            let a = self.acc[j];
            if a < 0 {
                r.push(0);
            } else {
                r.push(a);
            }
            j = j + 1;
        }
        r
    }
}

/// The feature plane with index `p` of a position.
fn plane_for(pos: &Position, p: usize) -> (r: u64)
    requires
        p < 12,
    ensures
        r == planes_of(pos@)[p as int],
{
    let color = if p < 6 {
        pos.white
    } else {
        pos.black
    };
    let kind = if p < 6 {
        p
    } else {
        p - 6
    };
    let piece_bb = match kind {
        0 => pos.pawns,
        1 => pos.knights,
        2 => pos.bishops,
        3 => pos.rooks,
        4 => pos.queens,
        _ => pos.kings,
    };
    color & piece_bb
}

/// Linear combination of the inputs with index at least `j` under the
/// weights `w2`.
pub open spec fn dot_from(w2: Seq<i64>, x: Seq<i64>, j: int) -> int
    decreases w2.len() - j,
{
    if j < 0 || j >= w2.len() {
        0
    } else {
        x[j] * w2[j] + dot_from(w2, x, j + 1)
    }
}

/// When the inputs are exactly the rectified hidden activations of the
/// planes, the output layer's linear combination is the network's output
/// sum.
proof fn lemma_dot_matches_out(
    w: Seq<Vec<i64>>,
    b: Seq<i64>,
    w2: Seq<i64>,
    planes: Seq<u64>,
    x: Seq<i64>,
    j: int,
)
    requires
        x.len() == w2.len(),
        forall|q: int| 0 <= q < x.len() ==> x[q] == relu_spec(acc_spec(w, b, planes, q)),
    ensures
        dot_from(w2, x, j) == out_sum_from(w, b, w2, planes, j),
    decreases w2.len() - j,
{
    if 0 <= j < w2.len() {
        lemma_dot_matches_out(w, b, w2, planes, x, j + 1);
    }
}

/// The output layer: a single linear unit over the hidden activations.
pub struct Layer {
    pub w: Vec<i64>,
    pub b: i64,
}

impl Layer {
    pub open spec fn wf(&self) -> bool {
        &&& forall|j: int| 0 <= j < self.w@.len() ==> -NN_W2_BOUND <= #[trigger] self.w@[j]
            <= NN_W2_BOUND
        &&& -NN_W1_BOUND <= self.b <= NN_W1_BOUND
        &&& self.w@.len() <= 4096
    }

    pub fn new(w: Vec<i64>, b: i64) -> (r: Layer)
        requires
            forall|j: int| 0 <= j < w@.len() ==> -NN_W2_BOUND <= #[trigger] w@[j] <= NN_W2_BOUND,
            -NN_W1_BOUND <= b <= NN_W1_BOUND,
            w@.len() <= 4096,
        ensures
            r.wf(),
            r.w@ == w@,
            r.b == b,
    {
        Layer { w, b }
    }

    /// The unit's output: the bias plus the weighted sum of the inputs.
    pub fn forward(&self, inputs: &Vec<i64>) -> (r: i64)
        requires
            self.wf(),
            inputs@.len() == self.w@.len(),
            forall|q: int| 0 <= q < inputs@.len() ==> 0 <= #[trigger] inputs@[q] < 0x40000000,
        ensures
            r == self.b + dot_from(self.w@, inputs@, 0),
            -0x20000000000000 <= r <= 0x20000000000000,
    {
        let h = self.w.len();
        let mut sum: i64 = 0;
        let mut j: usize = 0;
        while j < h
            invariant
                h == self.w@.len(),
                h == inputs@.len(),
                h <= 4096,
                self.wf(),
                j <= h,
                forall|q: int| 0 <= q < h ==> 0 <= #[trigger] inputs@[q] < 0x40000000,
                sum == dot_from(self.w@, inputs@, 0) - dot_from(self.w@, inputs@, j as int),
                -(0x10000000000 * (j as int)) <= sum <= 0x10000000000 * (j as int),
            decreases h - j,
        {
            let wv = self.w[j];
            let hv = inputs[j];
            proof {
                assert(-0x10000000000 <= hv as int * wv as int <= 0x10000000000)
                    by (nonlinear_arith)
                    requires
                        0 <= hv < 0x40000000,
                        -1024 <= wv <= 1024,
                ;
            }
            sum = sum + hv * wv;
            j = j + 1;
        }
        self.b + sum
    }
}

/// The evaluator: the incremental first layer feeding the linear output
/// layer.
pub struct Nnue {
    pub incremental: IncrementalLayer,
    pub fc1: Layer,
}

impl Nnue {
    pub open spec fn wf(&self) -> bool {
        &&& self.incremental.wf()
        &&& self.fc1.wf()
        &&& self.fc1.w@.len() == self.incremental.width()
    }

    /// The score this evaluator assigns a position: a function of the
    /// weights and the position's feature planes alone, independent of
    /// any accumulator state.
    pub open spec fn eval_spec(&self, rep: BoardRep) -> int {
        net_eval_spec(self.incremental.w@, self.incremental.b@, self.fc1.w@, self.fc1.b, rep)
    }

    /// Whether two evaluators carry the same weights (their accumulator
    /// states may differ).
    pub open spec fn same_weights(&self, other: &Nnue) -> bool {
        &&& self.incremental.w@ == other.incremental.w@
        &&& self.incremental.b@ == other.incremental.b@
        &&& self.fc1.w@ == other.fc1.w@
        &&& self.fc1.b == other.fc1.b
    }

    /// An evaluator from the four weight blocks; the hidden width is the
    /// length of the first-layer bias.
    pub fn new(w1: Vec<Vec<i64>>, b1: Vec<i64>, w2: Vec<i64>, b2: i64) -> (r: Nnue)
        requires
            w1_wf(w1@, b1@),
            w2@.len() == b1@.len(),
            b1@.len() <= 4096,
            forall|j: int| 0 <= j < w2@.len() ==> -NN_W2_BOUND <= #[trigger] w2@[j] <= NN_W2_BOUND,
            -NN_W1_BOUND <= b2 <= NN_W1_BOUND,
        ensures
            r.wf(),
            r.incremental.w@ == w1@,
            r.incremental.b@ == b1@,
            r.fc1.w@ == w2@,
            r.fc1.b == b2,
    {
        Nnue { incremental: IncrementalLayer::new(w1, b1), fc1: Layer::new(w2, b2) }
    }

    /// Score `pos` in centipawns, updating the accumulator by the feature
    /// diff only; the result equals a from-scratch forward pass over the
    /// fresh encoding of `pos`.
    pub fn eval(&mut self, pos: &Position) -> (r: i32)
        requires
            old(self).wf(),
        ensures
            final(self).wf(),
            old(self).same_weights(final(self)),
            r == old(self).eval_spec(pos@),
            -8000 <= r <= 8000,
    {
        let ghost w0 = self.incremental.w@;
        let ghost b0 = self.incremental.b@;
        let ghost target = planes_of(pos@);
        let hidden = self.incremental.forward(pos);
        proof {
            assert forall|q: int| 0 <= q < hidden@.len() implies 0 <= #[trigger] hidden@[q]
                < 0x40000000 by {
                lemma_planes_from_bound(w0, b0, target, q, 0);
            }
        }
        let out = self.fc1.forward(&hidden);
        proof {
            lemma_dot_matches_out(w0, b0, self.fc1.w@, target, hidden@, 0);
        }
        let scaled: i64 = out * 200;
        let raw: i64 = if scaled >= 0 {
            ((scaled as u64) / 65536) as i64
        } else {
            -((((-scaled) as u64) / 65536) as i64)
        };
        let clamped: i64 = if raw > 8000 {
            8000
        } else if raw < -8000 {
            -8000
        } else {
            raw
        };
        clamped as i32
    }
}

/// Incremental evaluation equals from-scratch evaluation: the score an
/// evaluator assigns a position is a function of its weights and the
/// position alone, so two evaluators with the same weights — one having
/// walked any sequence of positions, one freshly seeded — agree on every
/// position.
pub proof fn lemma_incremental_matches_scratch(a: &Nnue, b: &Nnue, rep: BoardRep)
    requires
        a.same_weights(b),
    ensures
        a.eval_spec(rep) == b.eval_spec(rep),
{
}

} // verus!
