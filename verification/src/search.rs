//! The search core: the depth-iterating driver, the negamax recursion
//! with null-move pruning, razoring, reverse futility pruning and an
//! adaptive late-move reduction, the quiescence extension, and the
//! manager that runs several workers against one shared transposition
//! table.
//!
//! Scores are in negamax convention: always relative to the side to move
//! at the node. A checkmated side scores `-INF + ply`, so shorter mates
//! dominate when scores are negated up the tree; stalemate and bare-kings
//! positions score exactly 0. Static evaluations are clamped well inside
//! the mate band, so no heuristic score can be mistaken for a mate.

use vstd::prelude::*;
use crate::board::{checkers_of, legal_moves_of, popcount, test_bit, Mv, Position};
use crate::eval::{static_eval, static_eval_spec, tdiv};
use crate::movepick::{history_geq, HistoryTable, MovePicker};
use crate::nn::Nnue;
use crate::report::{
    all_ascii, ascii_string, emit_best, emit_info, move_bytes_spec, push_move_bytes, push_space,
};
use crate::tt::TranspositionTable;
use crate::{INF, MAX_PLY};

verus! {

/// Declares `std::time::Instant` to the verifier as an opaque value type.
#[verifier::external_type_specification]
#[verifier::external_body]
pub struct ExInstant(std::time::Instant);

/// Relies on `std::time::Instant::now`: an opaque timestamp of this
/// moment; nothing is assumed about it.
#[verifier::external_body]
fn instant_now() -> std::time::Instant {
    std::time::Instant::now()
}

/// Relies on `std::time::Instant::elapsed`: the time since the
/// timestamp; nothing is assumed about it.
#[verifier::external_body]
fn instant_elapsed(t: &std::time::Instant) -> std::time::Duration {
    t.elapsed()
}

/// Relies on `std::time::Duration::as_millis`: the duration in whole
/// milliseconds; nothing is assumed about the value.
#[verifier::external_body]
fn duration_millis(d: &std::time::Duration) -> u128 {
    d.as_millis()
}

/// Whether a limit with the given time budget and depth cap stops the
/// search, as a function of the elapsed milliseconds and the depth
/// reached.
pub open spec fn limit_fires(time: u128, cap: u8, elapsed: int, depth: u8) -> bool {
    elapsed > time || cap <= depth
}

/// A depth-capped limit never consults the clock: its verdict at a given
/// depth is the same whatever time has elapsed. Polling such a limit at
/// any node-count interval therefore stops the search at exactly the same
/// points, so the interval cannot change the move a depth-capped search
/// returns.
pub proof fn lemma_depth_cap_ignores_clock(cap: u8, e1: int, e2: int, depth: u8)
    requires
        0 <= e1 <= u128::MAX,
        0 <= e2 <= u128::MAX,
    ensures
        limit_fires(u128::MAX, cap, e1, depth) == limit_fires(u128::MAX, cap, e2, depth),
{
}

/// The bitboard of the opponent of the side to move: the capture targets
/// quiescence considers.
pub open spec fn enemy_bb_spec(rep: crate::board::BoardRep) -> u64 {
    if rep.side_white {
        rep.black
    } else {
        rep.white
    }
}

/// No legal move lands on an opposing piece: the position is quiet and
/// quiescence has nothing to resolve.
pub open spec fn no_captures_available(rep: crate::board::BoardRep) -> bool {
    forall|i: int|
        0 <= i < legal_moves_of(rep).len() ==> !crate::board::bit64(
            enemy_bb_spec(rep),
            (#[trigger] legal_moves_of(rep)[i]).to as u64,
        )
}

/// The stand-pat score quiescence starts from: the static table value,
/// refined by the network's score when the table value lies strictly
/// inside the 200-centipawn band around level.
pub open spec fn stand_pat_spec(net: Nnue, rep: crate::board::BoardRep) -> int {
    let e = static_eval_spec(rep);
    if -200 < e && e < 200 {
        net.eval_spec(rep)
    } else {
        e
    }
}

/// The limit is a pure depth cap and this whole subtree lies below it,
/// so no poll inside the subtree can see the limit fire.
pub open spec fn depth_headroom(lim: Limit, ply: int, depth: int) -> bool {
    lim.is_depth_capped() && ply + depth <= lim.depth
}

/// The shapes a negamax verdict can take: a fail-hard value inside the
/// caller's window; the mate score for this ply, only on a checkmate; the
/// draw score, only on a stalemate or a bare-kings draw; or the
/// position's static evaluation (a reverse-futility or clock-abort
/// verdict).
pub open spec fn search_result_ok(
    rep: crate::board::BoardRep,
    alpha: int,
    beta: int,
    ply: int,
    r: int,
) -> bool {
    ||| alpha <= r <= beta
    ||| (r == -(INF as int) + ply && legal_moves_of(rep).len() == 0 && checkers_of(rep) != 0)
    ||| (r == 0 && (legal_moves_of(rep).len() == 0 || rep.occ_count() < 3))
    ||| r == static_eval_spec(rep)
}

/// The search budget: exactly one of a wall-clock budget in milliseconds
/// or a ply-depth cap; a depth-capped limit carries an unreachable time
/// budget.
#[derive(Clone, Copy)]
pub struct Limit {
    pub time: u128,
    pub depth: u8,
    pub started: std::time::Instant,
}

impl Limit {
    pub open spec fn is_depth_capped(&self) -> bool {
        self.time == u128::MAX
    }

    /// A wall-clock budget of `time` milliseconds.
    pub fn timed(time: u128) -> (r: Limit)
        ensures
            r.time == time,
            r.depth == MAX_PLY as u8,
    {
        Limit { time, depth: MAX_PLY as u8, started: instant_now() }
    }

    /// A ply-depth cap, with no wall-clock bound.
    pub fn depthed(depth: u8) -> (r: Limit)
        ensures
            r.depth == depth,
            r.is_depth_capped(),
    {
        Limit { time: u128::MAX, depth, started: instant_now() }
    }

    /// Whether the search must stop, having completed `depth`: always
    /// when the depth cap is reached; otherwise when the clock has run
    /// out. For a depth-capped limit the verdict is exactly the depth
    /// comparison, for every possible clock reading.
    pub fn check(&mut self, depth: u8) -> (r: bool)
        ensures
            *final(self) == *old(self),
            old(self).depth <= depth ==> r,
            old(self).is_depth_capped() ==> (r <==> old(self).depth <= depth),
            forall|e: int|
                0 <= e <= u128::MAX && old(self).is_depth_capped() ==> r == limit_fires(
                    old(self).time,
                    old(self).depth,
                    e,
                    depth,
                ),
            exists|e: int|
                #![auto]
                0 <= e <= u128::MAX && r == limit_fires(old(self).time, old(self).depth, e, depth),
    {
        let elapsed = duration_millis(&instant_elapsed(&self.started));
        let r = if elapsed > self.time || self.depth <= depth {
            true
        } else {
            false
        };
        proof {
            assert(0 <= elapsed as int <= u128::MAX && r == limit_fires(
                self.time,
                self.depth,
                elapsed as int,
                depth,
            ));
        }
        r
    }
}

/// Truncating division by 10, as the razoring bounds use it.
fn div10(x: i32) -> (r: i32)
    requires
        -100000 <= x <= 100000,
    ensures
        r == tdiv(x as int, 10),
        x >= 0 ==> 0 <= r <= x,
        x < 0 ==> x <= r <= 0,
{
    if x >= 0 {
        ((x as u32) / 10) as i32
    } else {
        -((((-x) as u32) / 10) as i32)
    }
}

/// The byte rendering of a recorded move sequence: each move's
/// coordinate text followed by a space, stopping at the first null slot.
pub open spec fn pv_bytes_spec(pv: Seq<Mv>, i: int) -> Seq<u8>
    decreases pv.len() - i,
{
    if i < 0 || i >= pv.len() || pv[i].is_null_spec() {
        Seq::empty()
    } else {
        move_bytes_spec(pv[i]).push(32) + pv_bytes_spec(pv, i + 1)
    }
}

/// One worker's per-search state: the principal move per ply, the two
/// killer moves per ply, and the history scores.
pub struct Stack {
    pub pv: Vec<Mv>,
    pub killers: Vec<[Mv; 2]>,
    pub history: HistoryTable,
}

impl Stack {
    pub open spec fn wf(&self) -> bool {
        &&& self.pv@.len() == MAX_PLY
        &&& self.killers@.len() == MAX_PLY
        &&& self.history.wf()
        &&& forall|i: int| 0 <= i < self.pv@.len() ==> (#[trigger] self.pv@[i]).wf()
    }

    pub fn new() -> (r: Stack)
        ensures
            r.wf(),
            forall|i: int| 0 <= i < r.pv@.len() ==> (#[trigger] r.pv@[i]).is_null_spec(),
            forall|i: int|
                0 <= i < r.killers@.len() ==> (#[trigger] r.killers@[i])[0].is_null_spec()
                    && r.killers@[i][1].is_null_spec(),
            forall|w: bool, f: u8, t: u8|
                f < 64 && t < 64 ==> r.history.get_spec(w, f, t) == 0,
    {
        let mut pv: Vec<Mv> = Vec::new();
        let mut killers: Vec<[Mv; 2]> = Vec::new();
        for i in 0..MAX_PLY
            invariant
                pv@.len() == i,
                killers@.len() == i,
                forall|q: int| 0 <= q < i ==> (#[trigger] pv@[q]).wf(),
                forall|q: int| 0 <= q < i ==> (#[trigger] pv@[q]).is_null_spec(),
                forall|q: int|
                    0 <= q < i ==> (#[trigger] killers@[q])[0].is_null_spec()
                        && killers@[q][1].is_null_spec(),
        {
            pv.push(Mv::null());
            killers.push([Mv::null(), Mv::null()]);
        }
        Stack { pv, killers, history: HistoryTable::new() }
    }

    /// The recorded move sequence as protocol text, stopping at the first
    /// unset slot: exactly the space-separated coordinate texts that
    /// `pv_bytes_spec` lays down.
    pub fn get_pv_str(&self) -> (r: String)
        requires
            self.wf(),
        ensures
            r@.len() == pv_bytes_spec(self.pv@, 0).len(),
            forall|i: int|
                0 <= i < r@.len() ==> r@[i] == pv_bytes_spec(self.pv@, 0)[i] as char,
    {
        let mut bytes: Vec<u8> = Vec::new();
        let mut i: usize = 0;
        proof {
            assert(pv_bytes_spec(self.pv@, 0) =~= bytes@ + pv_bytes_spec(self.pv@, 0));
        }
        while i < self.pv.len() && !self.pv[i].is_null()
            invariant
                self.wf(),
                i <= self.pv@.len(),
                all_ascii(bytes@),
                pv_bytes_spec(self.pv@, 0) == bytes@ + pv_bytes_spec(self.pv@, i as int),
            decreases self.pv@.len() - i,
        {
            let m = self.pv[i];
            let ghost before = bytes@;
            push_move_bytes(&mut bytes, m);
            push_space(&mut bytes);
            proof {
                assert(bytes@ =~= before + move_bytes_spec(m).push(32));
                assert(pv_bytes_spec(self.pv@, 0) =~= bytes@ + pv_bytes_spec(self.pv@, i + 1));
            }
            i = i + 1;
        }
        proof {
            assert(pv_bytes_spec(self.pv@, 0) =~= bytes@);
        }
        ascii_string(&bytes)
    }
}

/// One search worker: it owns its stack, history, evaluator and node
/// counters, and shares only the transposition table.
pub struct SearchWorker {
    pub nodes: u64,
    pub seld_depth: usize,
    pub tt: TranspositionTable,
    pub stack: Stack,
    pub lim: Limit,
    pub net: Nnue,
    /// The search limit is polled every `check_interval` expanded nodes.
    pub check_interval: u64,
}

impl SearchWorker {
    pub open spec fn wf(&self) -> bool {
        &&& self.stack.wf()
        &&& self.net.wf()
        &&& self.check_interval > 0
    }

    /// A worker over the shared table `tt`, with a zero-width network (the
    /// hybrid evaluation then scores near-equal positions as level).
    pub fn new(tt: TranspositionTable, lim: Limit) -> (r: SearchWorker)
        ensures
            r.wf(),
            r.lim == lim,
            forall|i: int| 0 <= i < r.stack.pv@.len() ==> (#[trigger] r.stack.pv@[i]).is_null_spec(),
    {
        let mut w1: Vec<Vec<i64>> = Vec::new();
        for i in 0..768usize
            invariant
                w1@.len() == i,
                forall|q: int| 0 <= q < i ==> (#[trigger] w1@[q])@.len() == 0,
        {
            w1.push(Vec::new());
        }
        let b1: Vec<i64> = Vec::new();
        let w2: Vec<i64> = Vec::new();
        let net = Nnue::new(w1, b1, w2, 0);
        SearchWorker {
            nodes: 0,
            seld_depth: 0,
            tt,
            stack: Stack::new(),
            lim,
            net,
            check_interval: 1024,
        }
    }

    /// A worker with the given evaluator network.
    pub fn with_net(tt: TranspositionTable, lim: Limit, net: Nnue) -> (r: SearchWorker)
        requires
            net.wf(),
        ensures
            r.wf(),
            r.lim == lim,
            forall|i: int| 0 <= i < r.stack.pv@.len() ==> (#[trigger] r.stack.pv@[i]).is_null_spec(),
    {
        SearchWorker {
            nodes: 0,
            seld_depth: 0,
            tt,
            stack: Stack::new(),
            lim,
            net,
            check_interval: 1024,
        }
    }

    /// The static table evaluation of a position.
    pub fn evaluate(&self, pos: &Position) -> (r: i32)
        ensures
            r == static_eval_spec(pos@),
            -8000 <= r <= 8000,
    {
        static_eval(pos)
    }

    /// Iterative deepening: run the root search at depth 1, 2, ... until
    /// the limit stops it, reporting each completed depth when this is
    /// the reporting worker, and finally the best move found. The value
    /// returned is the last completed root search's verdict; the root
    /// slot of the recorded move sequence — the move the final best-move
    /// line renders — is only ever set to a legal move of the searched
    /// position; and the limit, poll interval, table handle and network
    /// weights come back unchanged.
    pub fn iterative_deepening(&mut self, pos: &Position, main: bool) -> (r: i32)
        requires
            old(self).wf(),
            pos.wf(),
        ensures
            final(self).wf(),
            -INF <= r <= INF,
            search_result_ok(pos@, -(INF as int), INF as int, 0, r as int),
            final(self).lim == old(self).lim,
            final(self).check_interval == old(self).check_interval,
            final(self).tt == old(self).tt,
            old(self).net.same_weights(&final(self).net),
            final(self).seld_depth >= old(self).seld_depth,
            history_geq(old(self).stack.history, final(self).stack.history),
            final(self).stack.pv@.len() == old(self).stack.pv@.len(),
            final(self).stack.pv@[0] == old(self).stack.pv@[0] || legal_moves_of(
                pos@,
            ).contains(final(self).stack.pv@[0]),
            old(self).lim.is_depth_capped() && old(self).lim.depth >= 1 && legal_moves_of(
                pos@,
            ).len() > 0 && pos@.occ_count() >= 3 ==> legal_moves_of(pos@).contains(
                final(self).stack.pv@[0],
            ),
            old(self).lim.is_depth_capped() && 1 <= old(self).lim.depth <= 7 && legal_moves_of(
                pos@,
            ).len() > 0 && pos@.occ_count() >= 3 ==> -INF < r < INF,
    {
        let mut value: i32 = 0;
        let start = instant_now();
        let mut d: u8 = 1;
        while (d as usize) < MAX_PLY
            invariant
                self.wf(),
                pos.wf(),
                -INF <= value <= INF,
                1 <= d,
                search_result_ok(pos@, -(INF as int), INF as int, 0, value as int),
                self.lim == old(self).lim,
                self.check_interval == old(self).check_interval,
                self.tt == old(self).tt,
                old(self).net.same_weights(&self.net),
                self.seld_depth >= old(self).seld_depth,
                history_geq(old(self).stack.history, self.stack.history),
                self.stack.pv@.len() == old(self).stack.pv@.len(),
                self.stack.pv@[0] == old(self).stack.pv@[0] || legal_moves_of(pos@).contains(
                    self.stack.pv@[0],
                ),
                old(self).lim.is_depth_capped() && old(self).lim.depth >= 1 ==> d <= old(
                    self,
                ).lim.depth,
                old(self).lim.is_depth_capped() && old(self).lim.depth >= 1 && legal_moves_of(
                    pos@,
                ).len() > 0 && pos@.occ_count() >= 3 && d >= 2 ==> legal_moves_of(pos@).contains(
                    self.stack.pv@[0],
                ),
                old(self).lim.is_depth_capped() && 1 <= old(self).lim.depth <= 7
                    && legal_moves_of(pos@).len() > 0 && pos@.occ_count() >= 3 ==> -INF < value
                    < INF,
            ensures
                old(self).lim.is_depth_capped() && old(self).lim.depth >= 1 && legal_moves_of(
                    pos@,
                ).len() > 0 && pos@.occ_count() >= 3 ==> legal_moves_of(pos@).contains(
                    self.stack.pv@[0],
                ),
                old(self).lim.is_depth_capped() && 1 <= old(self).lim.depth <= 7
                    && legal_moves_of(pos@).len() > 0 && pos@.occ_count() >= 3 ==> -INF < value
                    < INF,
                self.wf(),
                self.lim == old(self).lim,
                self.check_interval == old(self).check_interval,
                self.tt == old(self).tt,
                old(self).net.same_weights(&self.net),
                self.seld_depth >= old(self).seld_depth,
                history_geq(old(self).stack.history, self.stack.history),
                -INF <= value <= INF,
                search_result_ok(pos@, -(INF as int), INF as int, 0, value as int),
                self.stack.pv@.len() == old(self).stack.pv@.len(),
                self.stack.pv@[0] == old(self).stack.pv@[0] || legal_moves_of(pos@).contains(
                    self.stack.pv@[0],
                ),
            decreases MAX_PLY - d,
        {
            let depth_start = instant_now();
            value = self.search(pos, -INF, INF, d, 0, true, true, false);
            if main {
                let all_ms = duration_millis(&instant_elapsed(&start));
                let d_ms = duration_millis(&instant_elapsed(&depth_start));
                let denom: u128 = if d_ms == 0 {
                    1
                } else {
                    d_ms
                };
                let nps128: u128 = (self.nodes as u128) * 1000 / denom;
                let nps: u64 = if nps128 > u64::MAX as u128 {
                    u64::MAX
                } else {
                    nps128 as u64
                };
                let time_ms: u64 = if all_ms > u64::MAX as u128 {
                    u64::MAX
                } else {
                    all_ms as u64
                };
                let pvs = self.stack.get_pv_str();
                emit_info(d, self.seld_depth as u64, value, self.nodes, nps, time_ms, &pvs);
            }
            if self.lim.check(d) {
                break ;
            }
            d = d + 1;
        }
        if main {
            let best = self.stack.pv[0];
            let mut bytes: Vec<u8> = Vec::new();
            push_move_bytes(&mut bytes, best);
            let text = ascii_string(&bytes);
            emit_best(&text);
        }
        value
    }

    /// The negamax recursion with alpha-beta pruning. The flags: `is_root`
    /// marks the root call, `is_pv` marks a principal-variation node (the
    /// null-move and razoring verification searches clear it, so they
    /// never touch the recorded move sequence), and `in_null` marks a
    /// node inside a null-move verification, where passing the turn again
    /// is barred.
    ///
    /// Terminal handling is exact: with no legal moves the side to move
    /// scores `-INF + ply` in check (checkmate) and 0 otherwise
    /// (stalemate); with fewer than three pieces on the board the
    /// position is a material draw and scores 0. Every other verdict has
    /// one of the shapes `search_result_ok` lists. The search limit, the
    /// poll interval, the table handle and the network weights come back
    /// unchanged; the selective depth and the history scores only grow;
    /// and the recorded move below this ply is untouched, while this
    /// ply's slot can only change to a legal move of this position — so
    /// the root slot always holds a legal root move once any search has
    /// recorded one.
    ///
    /// Under a pure depth cap with headroom (`depth_headroom`), at depths
    /// below the razoring band, the window edges cannot leak out: a
    /// full-window verdict is strictly inside the window, and a
    /// principal-variation node on a live position then always records a
    /// legal move — a body that searches nothing cannot meet this.
    pub fn search(
        &mut self,
        pos: &Position,
        alpha: i32,
        beta: i32,
        depth: u8,
        ply: usize,
        is_root: bool,
        is_pv: bool,
        in_null: bool,
    ) -> (r: i32)
        requires
            old(self).wf(),
            pos.wf(),
            -INF <= alpha < beta <= INF,
            ply + depth <= MAX_PLY,
            ply <= MAX_PLY,
        ensures
            final(self).wf(),
            -INF <= r <= INF,
            legal_moves_of(pos@).len() == 0 && checkers_of(pos@) != 0 ==> r == -INF + ply,
            legal_moves_of(pos@).len() == 0 && checkers_of(pos@) == 0 ==> r == 0,
            legal_moves_of(pos@).len() > 0 && pos@.occ_count() < 3 ==> r == 0,
            search_result_ok(pos@, alpha as int, beta as int, ply as int, r as int),
            final(self).lim == old(self).lim,
            final(self).check_interval == old(self).check_interval,
            final(self).tt == old(self).tt,
            old(self).net.same_weights(&final(self).net),
            final(self).seld_depth >= old(self).seld_depth,
            history_geq(old(self).stack.history, final(self).stack.history),
            final(self).stack.pv@.len() == old(self).stack.pv@.len(),
            forall|q: int|
                0 <= q < ply ==> final(self).stack.pv@[q] == old(self).stack.pv@[q],
            final(self).stack.pv@[ply as int] == old(self).stack.pv@[ply as int]
                || legal_moves_of(pos@).contains(final(self).stack.pv@[ply as int]),
            final(self).stack.killers@.len() == old(self).stack.killers@.len(),
            forall|q: int|
                0 <= q < ply ==> final(self).stack.killers@[q] == old(self).stack.killers@[q],
            alpha == -INF && depth <= 7 && depth_headroom(
                old(self).lim,
                ply as int,
                depth as int,
            ) && (ply >= 1 || legal_moves_of(pos@).len() > 0) ==> r > -INF,
            beta == INF && depth <= 7 && depth_headroom(old(self).lim, ply as int, depth as int)
                ==> r < INF,
            is_pv && alpha == -INF && beta == INF && 1 <= depth <= 7 && depth_headroom(
                old(self).lim,
                ply as int,
                depth as int,
            ) && legal_moves_of(pos@).len() > 0 && pos@.occ_count() >= 3 ==> legal_moves_of(
                pos@,
            ).contains(final(self).stack.pv@[ply as int]),
        decreases depth,
    {
        let moves = pos.legal_moves();
        if moves.len() == 0 {
            if pos.in_check() {
                return -INF + (ply as i32);
            } else {
                return 0;
            }
        }
        let occ = pos.white | pos.black;
        if popcount(occ) < 3 {
            return 0;
        }
        if depth == 0 {
            proof {
                crate::board::lemma_popcount_le(pos@.occ());
            }
            return self.quiescence(pos, alpha, beta, ply);
        }
        // Null-move pruning: with real material and no check, passing the
        // turn and still beating beta at reduced depth cuts immediately.
        if !in_null && popcount(occ & !pos.kings) > 5 && !pos.in_check() && depth >= 4 {
            let passed = pos.pass_move();
            let r0 = -self.search(&passed, -beta, -beta + 1, depth - 4, ply + 1, false, false, true);
            proof {
                assert(beta == INF && depth <= 7 && depth_headroom(
                    old(self).lim,
                    ply as int,
                    depth as int,
                ) ==> r0 < beta);
            }
            if r0 >= beta {
                return beta;
            }
        }
        // Razoring at one fixed depth: two reduced-depth verification
        // searches test whether the position provably sits far above beta
        // or far below alpha.
        if depth == 8 {
            let bound = div10(15 + beta);
            if self.search(pos, bound - 1, bound, 4, ply + 1, false, false, in_null) >= bound {
                return beta;
            }
            let bound2 = div10(alpha - 15);
            if self.search(pos, bound2, bound2 + 1, 4, ply + 1, false, false, in_null) <= bound2 {
                return alpha;
            }
        }
        let static_eval_v = self.evaluate(pos);
        // Reverse futility pruning near the root.
        if ply < 7 {
            let margin = ((175 * (ply as u32)) / 2) as i32;
            if static_eval_v - margin >= beta {
                return static_eval_v;
            }
        }
        let mut reductions: u8 = 0;
        let mut strength: u8 = 0;
        let mut move_idx: u8 = 0;
        let mut killers = self.stack.killers[ply];
        let hint = self.tt.probe(pos.hash);
        let hint_ref = match &hint {
            Some(e) => Some(e),
            None => None,
        };
        let mut picker = MovePicker::new(pos, hint_ref, killers);
        let mut best_move = Mv::null();
        let mut a = alpha;
        loop
            invariant
                self.wf(),
                pos.wf(),
                picker.wf(),
                picker.pos == *pos,
                occ == pos@.occ(),
                alpha <= a < beta,
                -INF <= alpha,
                beta <= INF,
                1 <= depth,
                ply + depth <= MAX_PLY,
                -8000 <= static_eval_v <= 8000,
                pos@.occ_count() >= 3,
                legal_moves_of(pos@).len() > 0,
                best_move.wf(),
                move_idx <= 3,
                strength <= move_idx,
                self.lim == old(self).lim,
                self.check_interval == old(self).check_interval,
                self.tt == old(self).tt,
                old(self).net.same_weights(&self.net),
                self.seld_depth >= old(self).seld_depth,
                history_geq(old(self).stack.history, self.stack.history),
                self.stack.pv@.len() == old(self).stack.pv@.len(),
                forall|q: int|
                    0 <= q < ply ==> self.stack.pv@[q] == old(self).stack.pv@[q],
                self.stack.pv@[ply as int] == old(self).stack.pv@[ply as int]
                    || legal_moves_of(pos@).contains(self.stack.pv@[ply as int]),
                self.stack.killers@.len() == old(self).stack.killers@.len(),
                forall|q: int|
                    0 <= q < ply ==> self.stack.killers@[q] == old(self).stack.killers@[q],
                picker.stage is TtMove ==> a == alpha,
                picker.stage is TtMove ==> picker.rest@ == legal_moves_of(pos@),
                alpha == -INF && depth <= 7 && depth_headroom(
                    old(self).lim,
                    ply as int,
                    depth as int,
                ) ==> (picker.stage is TtMove || a > -INF),
                is_pv && alpha == -INF && beta == INF && depth <= 7 && depth_headroom(
                    old(self).lim,
                    ply as int,
                    depth as int,
                ) ==> (picker.stage is TtMove || legal_moves_of(pos@).contains(
                    self.stack.pv@[ply as int],
                )),
            ensures
                !(picker.stage is TtMove),
            decreases picker.measure(),
        {
            let nxt = picker.next(&self.stack.history);
            let m = match nxt {
                None => { break ; },
                Some(m) => m,
            };
            self.nodes = self.nodes.wrapping_add(1);
            let child = pos.apply_move(m);
            let red: u8 = if depth > reductions {
                reductions
            } else {
                depth - 1
            };
            let score = -self.search(&child, -beta, -a, depth - 1 - red, ply + 1, false, true, in_null);
            proof {
                assert(a == -INF && depth <= 7 && depth_headroom(
                    old(self).lim,
                    ply as int,
                    depth as int,
                ) ==> score > -INF);
                assert(beta == INF && depth <= 7 && depth_headroom(
                    old(self).lim,
                    ply as int,
                    depth as int,
                ) ==> score < beta);
            }
            // Adaptive late-move reduction: once two of the first three
            // examined moves score within 30 centipawns of the static
            // evaluation, later moves are searched one ply shallower.
            if move_idx < 3 {
                let diff = static_eval_v - score;
                if -30 < diff && diff < 30 {
                    strength = strength + 1;
                    if strength >= 2 {
                        reductions = 1;
                    }
                }
                move_idx = move_idx + 1;
            }
            if score > a {
                if is_pv {
                    self.stack.pv[ply] = m;
                }
                best_move = m;
                a = score;
            }
            if score >= beta {
                if !test_bit(occ, m.to as u64) {
                    killers[1] = killers[0];
                    killers[0] = m;
                    let d64 = depth as i64;
                    proof {
                        assert(0 <= d64 * d64 <= 65025) by (nonlinear_arith)
                            requires
                                0 <= d64 <= 255,
                        ;
                    }
                    let amount = d64 * d64;
                    self.stack.history.bump(pos.side_white, m.from, m.to, amount);
                }
                self.stack.killers[ply] = killers;
                self.tt.insert(pos.hash, ply as u8, best_move, a);
                return beta;
            }
            if self.nodes % self.check_interval == 0 {
                let stop = self.lim.check(ply as u8);
                proof {
                    assert(depth_headroom(old(self).lim, ply as int, depth as int) ==> !stop);
                }
                if stop {
                    return self.evaluate(pos);
                }
            }
        }
        self.stack.killers[ply] = killers;
        if !best_move.is_null() {
            self.tt.insert(pos.hash, ply as u8, best_move, a);
        }
        a
    }

    /// Quiescence search: stand pat on the hybrid evaluation (the static
    /// table value, refined by the incremental network when the static
    /// score is strictly within 200 centipawns of level), then resolve
    /// captures only, with delta pruning for non-pawn captures that
    /// cannot recover alpha. The contract pins the stand-pat decisions:
    /// a stand-pat score at or above beta is a beta cutoff, one more than
    /// 975 below alpha stands pat at alpha, the result never falls below
    /// the stand-pat score otherwise, and on a position with no captures
    /// the result is exactly the raised alpha.
    pub fn quiescence(&mut self, pos: &Position, alpha: i32, beta: i32, ply: usize) -> (r: i32)
        requires
            old(self).wf(),
            pos.wf(),
            -INF <= alpha < beta <= INF,
            ply + pos@.occ_count() <= 1000,
        ensures
            final(self).wf(),
            alpha <= r <= beta,
            final(self).stack == old(self).stack,
            final(self).lim == old(self).lim,
            final(self).check_interval == old(self).check_interval,
            final(self).tt == old(self).tt,
            old(self).net.same_weights(&final(self).net),
            final(self).seld_depth >= old(self).seld_depth,
            stand_pat_spec(old(self).net, pos@) >= beta ==> r == beta,
            stand_pat_spec(old(self).net, pos@) < beta && stand_pat_spec(old(self).net, pos@)
                + 975 < alpha ==> r == alpha,
            stand_pat_spec(old(self).net, pos@) < beta && stand_pat_spec(old(self).net, pos@)
                + 975 >= alpha ==> r >= stand_pat_spec(old(self).net, pos@),
            no_captures_available(pos@) && stand_pat_spec(old(self).net, pos@) < beta
                && stand_pat_spec(old(self).net, pos@) + 975 >= alpha ==> r == (
            if alpha >= stand_pat_spec(old(self).net, pos@) {
                alpha as int
            } else {
                stand_pat_spec(old(self).net, pos@)
            }),
            alpha == -INF ==> r > -INF,
            beta == INF ==> r < INF,
        decreases pos@.occ_count(),
    {
        if ply > self.seld_depth {
            self.seld_depth = ply;
        }
        let mut stand_pat = self.evaluate(pos);
        if -200 < stand_pat && stand_pat < 200 {
            stand_pat = self.net.eval(pos);
        }
        proof {
            assert(stand_pat == stand_pat_spec(old(self).net, pos@));
        }
        if stand_pat >= beta {
            return beta;
        }
        if stand_pat + 975 < alpha {
            return alpha;
        }
        let mut a = alpha;
        if a < stand_pat {
            a = stand_pat;
        }
        let ghost a_init = a;
        let moves = pos.legal_moves();
        let enemy = if pos.side_white {
            pos.black
        } else {
            pos.white
        };
        let n = moves.len();
        let mut i: usize = 0;
        while i < n
            invariant
                self.wf(),
                pos.wf(),
                n == moves@.len(),
                moves@ == legal_moves_of(pos@),
                forall|q: int| 0 <= q < n ==> (#[trigger] moves@[q]).wf(),
                enemy == enemy_bb_spec(pos@),
                alpha <= a < beta,
                -INF <= alpha,
                beta <= INF,
                -8000 <= stand_pat <= 8000,
                ply + pos@.occ_count() <= 1000,
                self.stack == old(self).stack,
                self.lim == old(self).lim,
                self.check_interval == old(self).check_interval,
                self.tt == old(self).tt,
                old(self).net.same_weights(&self.net),
                self.seld_depth >= old(self).seld_depth,
                stand_pat == stand_pat_spec(old(self).net, pos@),
                stand_pat < beta,
                stand_pat + 975 >= alpha,
                a >= stand_pat,
                a_init == (if alpha >= stand_pat {
                    alpha as int
                } else {
                    stand_pat as int
                }),
                no_captures_available(pos@) ==> a == a_init,
            decreases n - i,
        {
            let m = moves[i];
            if test_bit(enemy, m.to as u64) {
                proof {
                    crate::board::lemma_bit_or(pos@.white, pos@.black, m.to as u64);
                }
                let victim_value = match pos.piece_on(m.to as u64) {
                    Some(pc) => crate::eval::get_piece_value(pc),
                    None => 0,
                };
                let attacker_is_pawn = match pos.piece_on(m.from as u64) {
                    Some(crate::board::Piece::Pawn) => true,
                    _ => false,
                };
                if victim_value + stand_pat + 40 <= a && !attacker_is_pawn {
                    i = i + 1;
                    continue ;
                }
                self.nodes = self.nodes.wrapping_add(1);
                proof {
                    assert(moves@[i as int] == m);
                    assert(legal_moves_of(pos@).contains(m));
                    crate::board::lemma_popcount_pos(pos@.occ(), m.to as u64);
                }
                let child = pos.apply_move(m);
                let score = -self.quiescence(&child, -beta, -a, ply + 1);
                if score >= beta {
                    return beta;
                }
                if score > a {
                    a = score;
                }
            }
            i = i + 1;
        }
        a
    }
}

} // verus!
