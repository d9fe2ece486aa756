//! Capture exchange evaluation and the staged move picker.
//!
//! The static exchange evaluator simulates the capture sequence on one
//! square: each side in turn commits its least valuable attacker (pawn,
//! knight, bishop, rook, queen, king, lowest square first within a kind),
//! with the shrinking occupancy uncovering sliding attackers behind the
//! pieces already spent; the simulated gain sequence is then folded
//! back-to-front with a negamax clamp to give the net material value of
//! starting the exchange.

use vstd::prelude::*;
use crate::attacks::{
    bishop_attacks, bishop_reach, king_attacks, king_reach, knight_attacks, knight_reach,
    pawn_attacks, pawn_reach, rook_attacks, rook_reach,
};
use crate::board::{bit64, lemma_bit_and, lemma_bit_or, BoardRep, Mv, Piece, Position};
use crate::eval::{get_piece_value, piece_value_spec};

verus! {

/// The bitboard of one side's pieces.
pub open spec fn side_bb_spec(rep: BoardRep, white: bool) -> u64 {
    if white {
        rep.white
    } else {
        rep.black
    }
}

/// The plane of one piece kind.
pub open spec fn plane_spec(rep: BoardRep, kind: Piece) -> u64 {
    match kind {
        Piece::Pawn => rep.pawns,
        Piece::Knight => rep.knights,
        Piece::Bishop => rep.bishops,
        Piece::Rook => rep.rooks,
        Piece::Queen => rep.queens,
        Piece::King => rep.kings,
    }
}

/// `occ` with bit `s` cleared.
pub open spec fn occ_clear(occ: u64, s: u64) -> u64 {
    occ & !(1u64 << s)
}

/// `occ` with bit `s` set.
pub open spec fn occ_set(occ: u64, s: u64) -> u64 {
    occ | (1u64 << s)
}

/// With occupancy `occ`, a piece of `side` and kind `kind` stands on `u`
/// (it has not been spent in the exchange yet) and attacks `target`:
/// `u` lies in the kind's attack pattern cast from `target`, which by the
/// symmetry of each pattern means the piece on `u` attacks `target` (for
/// pawns the pattern of the opposite color is cast, which is the same
/// symmetry).
pub open spec fn is_attacker(
    rep: BoardRep,
    occ: u64,
    side: bool,
    target: u64,
    kind: Piece,
    u: u64,
) -> bool {
    &&& u < 64
    &&& bit64(occ, u)
    &&& bit64(side_bb_spec(rep, side), u)
    &&& bit64(plane_spec(rep, kind), u)
    &&& match kind {
        Piece::Pawn => pawn_reach(!side, target, u),
        Piece::Knight => knight_reach(target, u),
        Piece::Bishop => bishop_reach(occ, target, u),
        Piece::Rook => rook_reach(occ, target, u),
        Piece::Queen => rook_reach(occ, target, u) || bishop_reach(occ, target, u),
        Piece::King => king_reach(target, u),
    }
}

/// Lowest attacker square of the given kind at or above `u`.
pub open spec fn min_attacker_from(
    rep: BoardRep,
    occ: u64,
    side: bool,
    target: u64,
    kind: Piece,
    u: u64,
) -> Option<u64>
    decreases 64 - u,
{
    if u >= 64 {
        None
    } else if is_attacker(rep, occ, side, target, kind, u) {
        Some(u)
    } else {
        min_attacker_from(rep, occ, side, target, kind, (u + 1) as u64)
    }
}

/// The least valuable attacker of `target` for `side`: kinds in value
/// order, lowest square first within a kind.
pub open spec fn min_attacker(rep: BoardRep, occ: u64, side: bool, target: u64) -> Option<
    (u64, Piece),
> {
    match min_attacker_from(rep, occ, side, target, Piece::Pawn, 0) {
        Some(u) => Some((u, Piece::Pawn)),
        None => match min_attacker_from(rep, occ, side, target, Piece::Knight, 0) {
            Some(u) => Some((u, Piece::Knight)),
            None => match min_attacker_from(rep, occ, side, target, Piece::Bishop, 0) {
                Some(u) => Some((u, Piece::Bishop)),
                None => match min_attacker_from(rep, occ, side, target, Piece::Rook, 0) {
                    Some(u) => Some((u, Piece::Rook)),
                    None => match min_attacker_from(rep, occ, side, target, Piece::Queen, 0) {
                        Some(u) => Some((u, Piece::Queen)),
                        None => match min_attacker_from(rep, occ, side, target, Piece::King, 0) {
                            Some(u) => Some((u, Piece::King)),
                            None => None,
                        },
                    },
                },
            },
        },
    }
}

/// The gains still to come in the exchange: the side to move realizes
/// `vict - prev` only if it has an attacker left, and the exchange then
/// continues with that attacker as the new victim.
pub open spec fn see_gains_rest(
    rep: BoardRep,
    occ: u64,
    side: bool,
    target: u64,
    vict: int,
    prev: int,
    fuel: nat,
) -> Seq<int>
    decreases fuel,
{
    if fuel == 0 {
        Seq::empty()
    } else {
        match min_attacker(rep, occ, side, target) {
            None => Seq::empty(),
            Some((sq, kind)) => seq![vict - prev] + see_gains_rest(
                rep,
                occ_clear(occ, sq),
                !side,
                target,
                piece_value_spec(kind),
                vict - prev,
                (fuel - 1) as nat,
            ),
        }
    }
}

/// The whole simulated gain sequence of playing `m` and exchanging on its
/// destination square.
pub open spec fn full_gains(rep: BoardRep, m: Mv) -> Seq<int> {
    let target = m.to as u64;
    let g0: int = match rep.piece_on_spec(target) {
        Some(pc) => piece_value_spec(pc),
        None => 0,
    };
    let mover: int = match rep.piece_on_spec(m.from as u64) {
        Some(pc) => piece_value_spec(pc),
        None => 0,
    };
    let occ1 = occ_set(occ_clear(rep.occ(), m.from as u64), target);
    seq![g0] + see_gains_rest(rep, occ1, !rep.side_white, target, mover, g0, 15)
}

/// Back-to-front fold of the gain sequence: each side stands pat rather
/// than continue a losing exchange.
pub open spec fn fold_from(g: Seq<int>, i: int) -> int
    decreases g.len() - i,
{
    if i < 0 || i >= g.len() {
        0
    } else if i == g.len() - 1 {
        g[i]
    } else {
        -(if -g[i] >= fold_from(g, i + 1) {
            -g[i]
        } else {
            fold_from(g, i + 1)
        })
    }
}

/// The static exchange value of `m`.
pub open spec fn see_spec(rep: BoardRep, m: Mv) -> int {
    fold_from(full_gains(rep, m), 0)
}

/// Scan the candidate bitboard of one attacker kind for its lowest set
/// bit.
fn scan_kind(
    p: &Position,
    occ: u64,
    side: bool,
    target: u64,
    kind: Piece,
    cand: u64,
) -> (r: Option<u64>)
    requires
        forall|i: u64|
            i < 64 ==> (#[trigger] bit64(cand, i)) == is_attacker(p@, occ, side, target, kind, i),
    ensures
        r == min_attacker_from(p@, occ, side, target, kind, 0),
        r is Some ==> r.unwrap() < 64,
{
    let mut u: u64 = 0;
    while u < 64
        invariant
            u <= 64,
            forall|i: u64|
                i < 64 ==> (#[trigger] bit64(cand, i)) == is_attacker(
                    p@,
                    occ,
                    side,
                    target,
                    kind,
                    i,
                ),
            min_attacker_from(p@, occ, side, target, kind, 0) == min_attacker_from(
                p@,
                occ,
                side,
                target,
                kind,
                u,
            ),
        decreases 64 - u,
    {
        if crate::board::test_bit(cand, u) {
            return Some(u);
        }
        u = u + 1;
    }
    None
}

/// Find the least valuable remaining attacker of `target` for `side`.
fn find_attacker(p: &Position, occ: u64, side: bool, target: u64) -> (r: Option<(u64, Piece)>)
    requires
        target < 64,
    ensures
        r == min_attacker(p@, occ, side, target),
        r is Some ==> r.unwrap().0 < 64,
{
    let sidebb = if side {
        p.white
    } else {
        p.black
    };
    let pat_p = pawn_attacks(target, !side);
    let cand_p = pat_p & p.pawns & sidebb & occ;
    proof {
        assert forall|i: u64| i < 64 implies (#[trigger] bit64(cand_p, i)) == is_attacker(
            p@,
            occ,
            side,
            target,
            Piece::Pawn,
            i,
        ) by {
            lemma_bit_and(pat_p & p.pawns & sidebb, occ, i);
            lemma_bit_and(pat_p & p.pawns, sidebb, i);
            lemma_bit_and(pat_p, p.pawns, i);
        }
    }
    if let Some(u) = scan_kind(p, occ, side, target, Piece::Pawn, cand_p) {
        return Some((u, Piece::Pawn));
    }
    let pat_n = knight_attacks(target);
    let cand_n = pat_n & p.knights & sidebb & occ;
    proof {
        assert forall|i: u64| i < 64 implies (#[trigger] bit64(cand_n, i)) == is_attacker(
            p@,
            occ,
            side,
            target,
            Piece::Knight,
            i,
        ) by {
            lemma_bit_and(pat_n & p.knights & sidebb, occ, i);
            lemma_bit_and(pat_n & p.knights, sidebb, i);
            lemma_bit_and(pat_n, p.knights, i);
        }
    }
    if let Some(u) = scan_kind(p, occ, side, target, Piece::Knight, cand_n) {
        return Some((u, Piece::Knight));
    }
    let pat_b = bishop_attacks(target, occ);
    let cand_b = pat_b & p.bishops & sidebb & occ;
    proof {
        assert forall|i: u64| i < 64 implies (#[trigger] bit64(cand_b, i)) == is_attacker(
            p@,
            occ,
            side,
            target,
            Piece::Bishop,
            i,
        ) by {
            lemma_bit_and(pat_b & p.bishops & sidebb, occ, i);
            lemma_bit_and(pat_b & p.bishops, sidebb, i);
            lemma_bit_and(pat_b, p.bishops, i);
        }
    }
    if let Some(u) = scan_kind(p, occ, side, target, Piece::Bishop, cand_b) {
        return Some((u, Piece::Bishop));
    }
    let pat_r = rook_attacks(target, occ);
    let cand_r = pat_r & p.rooks & sidebb & occ;
    proof {
        assert forall|i: u64| i < 64 implies (#[trigger] bit64(cand_r, i)) == is_attacker(
            p@,
            occ,
            side,
            target,
            Piece::Rook,
            i,
        ) by {
            lemma_bit_and(pat_r & p.rooks & sidebb, occ, i);
            lemma_bit_and(pat_r & p.rooks, sidebb, i);
            lemma_bit_and(pat_r, p.rooks, i);
        }
    }
    if let Some(u) = scan_kind(p, occ, side, target, Piece::Rook, cand_r) {
        return Some((u, Piece::Rook));
    }
    let pat_q = pat_r | pat_b;
    let cand_q = pat_q & p.queens & sidebb & occ;
    proof {
        assert forall|i: u64| i < 64 implies (#[trigger] bit64(cand_q, i)) == is_attacker(
            p@,
            occ,
            side,
            target,
            Piece::Queen,
            i,
        ) by {
            lemma_bit_and(pat_q & p.queens & sidebb, occ, i);
            lemma_bit_and(pat_q & p.queens, sidebb, i);
            lemma_bit_and(pat_q, p.queens, i);
            lemma_bit_or(pat_r, pat_b, i);
        }
    }
    if let Some(u) = scan_kind(p, occ, side, target, Piece::Queen, cand_q) {
        return Some((u, Piece::Queen));
    }
    let pat_k = king_attacks(target);
    let cand_k = pat_k & p.kings & sidebb & occ;
    proof {
        assert forall|i: u64| i < 64 implies (#[trigger] bit64(cand_k, i)) == is_attacker(
            p@,
            occ,
            side,
            target,
            Piece::King,
            i,
        ) by {
            lemma_bit_and(pat_k & p.kings & sidebb, occ, i);
            lemma_bit_and(pat_k & p.kings, sidebb, i);
            lemma_bit_and(pat_k, p.kings, i);
        }
    }
    if let Some(u) = scan_kind(p, occ, side, target, Piece::King, cand_k) {
        return Some((u, Piece::King));
    }
    None
}

/// Static exchange evaluation of `m`: the simulated net material outcome
/// of capturing on `m`'s destination, as `see_spec` states it.
pub fn see(p: &Position, m: Mv) -> (r: i32)
    requires
        p.wf(),
        m.wf(),
    ensures
        r == see_spec(p@, m),
        -340000 <= r <= 340000,
{
    let target = m.to as u64;
    let g0: i64 = match p.piece_on(target) {
        Some(pc) => get_piece_value(pc) as i64,
        None => 0,
    };
    let mut vict: i64 = match p.piece_on(m.from as u64) {
        Some(pc) => get_piece_value(pc) as i64,
        None => 0,
    };
    let mut occ: u64 = ((p.white | p.black) & !(1u64 << (m.from as u64))) | (1u64 << target);
    let mut side: bool = !p.side_white;
    let mut prev: i64 = g0;
    let mut fuel: u64 = 15;
    let mut gains: Vec<i64> = Vec::new();
    gains.push(g0);
    proof {
        assert(gains@.map_values(|x: i64| x as int) =~= seq![g0 as int]);
        assert(full_gains(p@, m) == gains@.map_values(|x: i64| x as int) + see_gains_rest(
            p@,
            occ,
            side,
            target,
            vict as int,
            prev as int,
            fuel as nat,
        ));
    }
    loop
        invariant
            target < 64,
            gains@.len() + fuel == 16,
            1 <= gains@.len() <= 16,
            0 <= vict <= 20000,
            -(20000 * gains@.len() as int) <= prev <= 20000 * gains@.len() as int,
            forall|j: int|
                0 <= j < gains@.len() ==> -340000 <= #[trigger] gains@[j] <= 340000,
            full_gains(p@, m) == gains@.map_values(|x: i64| x as int) + see_gains_rest(
                p@,
                occ,
                side,
                target,
                vict as int,
                prev as int,
                fuel as nat,
            ),
        ensures
            full_gains(p@, m) == gains@.map_values(|x: i64| x as int),
            1 <= gains@.len() <= 16,
            forall|j: int|
                0 <= j < gains@.len() ==> -340000 <= #[trigger] gains@[j] <= 340000,
        decreases fuel,
    {
        if fuel == 0 {
            proof {
                assert(full_gains(p@, m) =~= gains@.map_values(|x: i64| x as int));
            }
            break;
        }
        match find_attacker(p, occ, side, target) {
            None => {
                proof {
                    assert(see_gains_rest(
                        p@,
                        occ,
                        side,
                        target,
                        vict as int,
                        prev as int,
                        fuel as nat,
                    ) =~= Seq::<int>::empty());
                    assert(full_gains(p@, m) =~= gains@.map_values(|x: i64| x as int));
                }
                break;
            },
            Some((sq, kind)) => {
                let ghost old_gains = gains@;
                let ghost old_occ = occ;
                let ghost old_side = side;
                let ghost old_vict = vict;
                let ghost old_prev = prev;
                let ghost old_fuel = fuel;
                let g = vict - prev;
                gains.push(g);
                occ = occ & !(1u64 << sq);
                side = !side;
                vict = get_piece_value(kind) as i64;
                prev = g;
                fuel = fuel - 1;
                proof {
                    assert(see_gains_rest(
                        p@,
                        old_occ,
                        old_side,
                        target,
                        old_vict as int,
                        old_prev as int,
                        old_fuel as nat,
                    ) == seq![g as int] + see_gains_rest(
                        p@,
                        occ,
                        side,
                        target,
                        vict as int,
                        prev as int,
                        fuel as nat,
                    ));
                    assert(gains@.map_values(|x: i64| x as int) =~= old_gains.map_values(
                        |x: i64| x as int,
                    ) + seq![g as int]);
                    assert(full_gains(p@, m) =~= gains@.map_values(|x: i64| x as int)
                        + see_gains_rest(
                        p@,
                        occ,
                        side,
                        target,
                        vict as int,
                        prev as int,
                        fuel as nat,
                    ));
                }
            },
        }
    }
    let ghost orig = gains@.map_values(|x: i64| x as int);
    let n = gains.len();
    let mut i = n - 1;
    if n == 1 {
        return gains[0] as i32;
    }
    while i >= 1
        invariant
            1 <= n == gains@.len() <= 16,
            i <= n - 1,
            orig.len() == n,
            forall|j: int| 0 <= j < n ==> -340000 <= #[trigger] gains@[j] <= 340000,
            forall|j: int| 0 <= j < i ==> gains@[j] == orig[j],
            forall|j: int| i <= j < n ==> gains@[j] == fold_from(orig, j),
        decreases i,
    {
        let a = gains[i - 1];
        let b = gains[i];
        let mx = if -a >= b {
            -a
        } else {
            b
        };
        proof {
            assert(a == orig[i - 1]);
            assert(b == fold_from(orig, i as int));
            assert(-mx == fold_from(orig, i - 1));
        }
        gains[i - 1] = -mx;
        i = i - 1;
    }
    gains[0] as i32
}

/// Every member of a sequence of well-formed moves is well formed.
pub proof fn lemma_contains_wf(s: Seq<Mv>, m: Mv)
    requires
        forall|i: int| 0 <= i < s.len() ==> (#[trigger] s[i]).wf(),
        s.contains(m),
    ensures
        m.wf(),
{
    let i = choose|i: int| 0 <= i < s.len() && s[i] == m;
    assert(s[i].wf());
}

/// No piece of `side` can capture on `target` under occupancy `occ`.
pub open spec fn no_recapture(rep: BoardRep, occ: u64, side: bool, target: u64) -> bool {
    forall|kind: Piece, u: u64| !(#[trigger] is_attacker(rep, occ, side, target, kind, u))
}

/// Capturing an undefended pawn with a knight wins exactly the pawn's
/// value: when, once the capture has been made, the pawn's side has no
/// attacker of the square left, the exchange ends after the first
/// capture and its folded value is the pawn's.
pub proof fn lemma_see_undefended_pawn_by_knight(rep: BoardRep, m: Mv)
    requires
        m.wf(),
        rep.piece_on_spec(m.to as u64) == Some(Piece::Pawn),
        rep.piece_on_spec(m.from as u64) == Some(Piece::Knight),
        no_recapture(
            rep,
            occ_set(occ_clear(rep.occ(), m.from as u64), m.to as u64),
            !rep.side_white,
            m.to as u64,
        ),
    ensures
        see_spec(rep, m) == piece_value_spec(Piece::Pawn),
{
    let target = m.to as u64;
    let occ1 = occ_set(occ_clear(rep.occ(), m.from as u64), target);
    let side1 = !rep.side_white;
    lemma_no_attacker_none(rep, occ1, side1, target, Piece::Pawn, 0);
    lemma_no_attacker_none(rep, occ1, side1, target, Piece::Knight, 0);
    lemma_no_attacker_none(rep, occ1, side1, target, Piece::Bishop, 0);
    lemma_no_attacker_none(rep, occ1, side1, target, Piece::Rook, 0);
    lemma_no_attacker_none(rep, occ1, side1, target, Piece::Queen, 0);
    lemma_no_attacker_none(rep, occ1, side1, target, Piece::King, 0);
    assert(min_attacker(rep, occ1, side1, target) is None);
    let g = full_gains(rep, m);
    assert(g =~= seq![100int]);
}

/// With no attacker of any square at or above `u`, the scan finds none.
proof fn lemma_no_attacker_none(
    rep: BoardRep,
    occ: u64,
    side: bool,
    target: u64,
    kind: Piece,
    u: u64,
)
    requires
        no_recapture(rep, occ, side, target),
    ensures
        min_attacker_from(rep, occ, side, target, kind, u) is None,
    decreases 64 - u,
{
    if u < 64 {
        lemma_no_attacker_none(rep, occ, side, target, kind, (u + 1) as u64);
    }
}

/// Per-(side, from-square, to-square) scores of quiet moves that caused
/// cutoffs, accumulated over a whole search and consumed by the picker's
/// quiet ordering.
pub struct HistoryTable {
    pub white: Vec<i64>,
    pub black: Vec<i64>,
}

impl HistoryTable {
    pub open spec fn wf(&self) -> bool {
        self.white@.len() == 4096 && self.black@.len() == 4096
    }

    pub open spec fn get_spec(&self, white: bool, from: u8, to: u8) -> i64 {
        if white {
            self.white@[from * 64 + to]
        } else {
            self.black@[from * 64 + to]
        }
    }

    /// A fresh table with every score zero.
    pub fn new() -> (r: HistoryTable)
        ensures
            r.wf(),
            forall|w: bool, f: u8, t: u8|
                f < 64 && t < 64 ==> r.get_spec(w, f, t) == 0,
    {
        let mut w: Vec<i64> = Vec::new();
        let mut b: Vec<i64> = Vec::new();
        for i in 0..4096usize
            invariant
                w@.len() == i,
                b@.len() == i,
                forall|q: int| 0 <= q < i ==> w@[q] == 0,
                forall|q: int| 0 <= q < i ==> b@[q] == 0,
        {
            w.push(0);
            b.push(0);
        }
        HistoryTable { white: w, black: b }
    }

    /// The stored score of a (side, from, to) triple.
    pub fn get(&self, white: bool, from: u8, to: u8) -> (r: i64)
        requires
            self.wf(),
            from < 64,
            to < 64,
        ensures
            r == self.get_spec(white, from, to),
    {
        let idx = (from as usize) * 64 + (to as usize);
        if white {
            self.white[idx]
        } else {
            self.black[idx]
        }
    }

    /// Raise the score of a (side, from, to) triple by `amount`,
    /// saturating instead of overflowing; every other score is unchanged.
    pub fn bump(&mut self, white: bool, from: u8, to: u8, amount: i64)
        requires
            old(self).wf(),
            from < 64,
            to < 64,
            amount >= 0,
        ensures
            final(self).wf(),
            final(self).get_spec(white, from, to) == (
            if old(self).get_spec(white, from, to) + amount > i64::MAX {
                i64::MAX
            } else {
                (old(self).get_spec(white, from, to) + amount) as i64
            }),
            final(self).get_spec(white, from, to) >= old(self).get_spec(white, from, to),
            forall|w: bool, f: u8, t: u8|
                f < 64 && t < 64 && !(w == white && f == from && t == to)
                    ==> final(self).get_spec(w, f, t) == old(self).get_spec(w, f, t),
    {
        let idx = (from as usize) * 64 + (to as usize);
        if white {
            let cur = self.white[idx];
            let v = if cur > i64::MAX - amount {
                i64::MAX
            } else {
                cur + amount
            };
            self.white[idx] = v;
        } else {
            let cur = self.black[idx];
            let v = if cur > i64::MAX - amount {
                i64::MAX
            } else {
                cur + amount
            };
            self.black[idx] = v;
        }
    }
}

/// No move value occurs twice in a scored queue.
pub open spec fn queue_distinct(q: Seq<(Mv, i64)>) -> bool {
    forall|i: int, j: int| 0 <= i < j < q.len() ==> (#[trigger] q[i]).0 != (#[trigger] q[j]).0
}

/// No move occurs twice.
pub open spec fn moves_distinct(s: Seq<Mv>) -> bool {
    forall|i: int, j: int| 0 <= i < j < s.len() ==> s[i] != s[j]
}

/// No queued move also stands in `s`.
pub open spec fn queue_disjoint_from(q: Seq<(Mv, i64)>, s: Seq<Mv>) -> bool {
    forall|i: int, j: int|
        0 <= i < q.len() && 0 <= j < s.len() ==> (#[trigger] q[i]).0 != #[trigger] s[j]
}

/// No move of `a` also stands in `b`.
pub open spec fn moves_disjoint(a: Seq<Mv>, b: Seq<Mv>) -> bool {
    forall|i: int, j: int| 0 <= i < a.len() && 0 <= j < b.len() ==> a[i] != b[j]
}

/// Emitting entry `b` of a distinct queue keeps the structure: the move
/// was never emitted before, the shrunk queue is still distinct and
/// disjoint from the rest, and the grown emission log stays disjoint from
/// both.
proof fn lemma_remove_emit(q: Seq<(Mv, i64)>, r: Seq<Mv>, e: Seq<Mv>, b: int)
    requires
        0 <= b < q.len(),
        queue_distinct(q),
        queue_disjoint_from(q, r),
        queue_disjoint_from(q, e),
        moves_disjoint(e, r),
    ensures
        !e.contains(q[b].0),
        queue_distinct(q.remove(b)),
        queue_disjoint_from(q.remove(b), r),
        queue_disjoint_from(q.remove(b), e.push(q[b].0)),
        moves_disjoint(e.push(q[b].0), r),
{
    q.remove_ensures(b);
    if e.contains(q[b].0) {
        let i = choose|i: int| 0 <= i < e.len() && e[i] == q[b].0;
        assert(q[b].0 != e[i]);
    }
    assert forall|i: int, j: int| 0 <= i < j < q.remove(b).len() implies (#[trigger] q.remove(
        b,
    )[i]).0 != (#[trigger] q.remove(b)[j]).0 by {
        let i0: int = if i < b {
            i
        } else {
            i + 1
        };
        let j0: int = if j < b {
            j
        } else {
            j + 1
        };
        assert(q.remove(b)[i] == q[i0]);
        assert(q.remove(b)[j] == q[j0]);
        assert(q[i0].0 != q[j0].0);
    }
    assert forall|i: int, j: int|
        0 <= i < q.remove(b).len() && 0 <= j < r.len() implies (#[trigger] q.remove(b)[i]).0
        != #[trigger] r[j] by {
        let i0: int = if i < b {
            i
        } else {
            i + 1
        };
        assert(q.remove(b)[i] == q[i0]);
    }
    assert forall|i: int, j: int|
        0 <= i < q.remove(b).len() && 0 <= j < e.push(q[b].0).len() implies (#[trigger] q.remove(
        b,
    )[i]).0 != #[trigger] e.push(q[b].0)[j] by {
        let i0: int = if i < b {
            i
        } else {
            i + 1
        };
        assert(q.remove(b)[i] == q[i0]);
        if j < e.len() {
            assert(e.push(q[b].0)[j] == e[j]);
        } else {
            assert(e.push(q[b].0)[j] == q[b].0);
            assert(i0 != b);
            assert(q[i0].0 != q[b].0);
        }
    }
    assert forall|i: int, j: int|
        0 <= i < e.push(q[b].0).len() && 0 <= j < r.len() implies #[trigger] e.push(q[b].0)[i]
        != #[trigger] r[j] by {
        if i < e.len() {
            assert(e.push(q[b].0)[i] == e[i]);
        } else {
            assert(e.push(q[b].0)[i] == q[b].0);
        }
    }
}

/// `v` stands somewhere among the first `n` entries of `s`.
pub open spec fn from_prefix(v: Mv, s: Seq<Mv>, n: int) -> bool {
    exists|k: int| 0 <= k < n && s[k] == v
}

/// A value from a prefix is also from any longer prefix.
proof fn lemma_from_prefix_widen(v: Mv, s: Seq<Mv>, n: int)
    requires
        from_prefix(v, s, n),
    ensures
        from_prefix(v, s, n + 1),
{
    let k = choose|k: int| 0 <= k < n && s[k] == v;
    assert(0 <= k < n + 1 && s[k] == v);
}

/// In a duplicate-free list, a value from the first `n` entries differs
/// from entry `n`.
proof fn lemma_from_prefix_ne(v: Mv, s: Seq<Mv>, n: int)
    requires
        from_prefix(v, s, n),
        moves_distinct(s),
        0 <= n < s.len(),
    ensures
        v != s[n],
{
    let k = choose|k: int| 0 <= k < n && s[k] == v;
    assert(s[k] != s[n]);
}

/// Entry `n` itself is from the first `n + 1` entries.
proof fn lemma_from_prefix_here(s: Seq<Mv>, n: int)
    requires
        0 <= n < s.len(),
    ensures
        from_prefix(s[n], s, n + 1),
{
    assert(0 <= n < n + 1 && s[n] == s[n]);
}

/// A value from the first `n + 1` entries is from the first `n`, or is
/// entry `n` itself.
proof fn lemma_from_prefix_step(v: Mv, s: Seq<Mv>, n: int)
    requires
        from_prefix(v, s, n + 1),
        0 <= n,
    ensures
        from_prefix(v, s, n) || v == s[n],
{
    let k = choose|k: int| 0 <= k < n + 1 && s[k] == v;
    if k < n {
        assert(0 <= k < n && s[k] == v);
    }
}

/// Over the whole list, prefix membership is just membership.
proof fn lemma_from_prefix_is_contains(v: Mv, s: Seq<Mv>)
    ensures
        from_prefix(v, s, s.len() as int) == s.contains(v),
{
    if from_prefix(v, s, s.len() as int) {
        let k = choose|k: int| 0 <= k < s.len() && s[k] == v;
        assert(s.contains(v));
    }
    if s.contains(v) {
        let k = choose|k: int| 0 <= k < s.len() && s[k] == v;
        assert(0 <= k < s.len() && s[k] == v);
    }
}

/// The exchange score a capture is queued under: its static exchange
/// value, shifted into the losing band when the exchange loses material.
pub open spec fn adjusted_see(rep: BoardRep, m: Mv) -> int {
    if see_spec(rep, m) < 0 {
        see_spec(rep, m) + crate::LOSING_CAPTURE
    } else {
        see_spec(rep, m)
    }
}

/// Whether some scored entry reaches the captures stage's emission
/// threshold (entries shifted below it wait for the quiet stage).
pub open spec fn has_viable_capture(q: Seq<(Mv, i64)>) -> bool {
    exists|j: int| 0 <= j < q.len() && (#[trigger] q[j]).1 >= crate::LOSING_CAPTURE
}

/// The score a quiet move is queued under: a large bonus for a queen
/// promotion, a large malus for any other promotion, else the history
/// score of its (side, from, to) triple.
pub open spec fn quiet_score_spec(h: HistoryTable, side_white: bool, m: Mv) -> int {
    if m.promo == 4 {
        crate::INF as int
    } else if m.promo >= 1 {
        -(crate::INF as int)
    } else {
        h.get_spec(side_white, m.from, m.to) as int
    }
}

/// Some entry of `q` carries the move `m`.
pub open spec fn queue_holds(q: Seq<(Mv, i64)>, m: Mv) -> bool {
    exists|i: int| 0 <= i < q.len() && (#[trigger] q[i]).0 == m
}

/// The move the killer stage owes: the first of the two killers that is
/// not the hint and still waits in the queue, if any.
pub open spec fn killer_choice(q: Seq<(Mv, i64)>, k0: Mv, k1: Mv, tt: Option<Mv>) -> Option<Mv> {
    let ok0 = (match tt {
        Some(t) => k0 != t,
        None => true,
    }) && queue_holds(q, k0);
    let ok1 = (match tt {
        Some(t) => k1 != t,
        None => true,
    }) && queue_holds(q, k1);
    if ok0 {
        Some(k0)
    } else if ok1 {
        Some(k1)
    } else {
        None
    }
}

/// `m` is the move of a maximal-score entry of `q`.
pub open spec fn is_max_scored(q: Seq<(Mv, i64)>, m: Mv) -> bool {
    exists|b: int|
        0 <= b < q.len() && (#[trigger] q[b]).0 == m && (forall|j: int|
            0 <= j < q.len() ==> (#[trigger] q[j]).1 <= q[b].1)
}

/// 1 when the hint `tt` stands among the first `n` entries of `s`.
pub open spec fn hint_in_prefix(tt: Option<Mv>, s: Seq<Mv>, n: int) -> int {
    match tt {
        Some(t) => if from_prefix(t, s, n) {
            1int
        } else {
            0int
        },
        None => 0int,
    }
}

/// Every score of `b` is at least the corresponding score of `a`: the
/// history table only accumulates.
pub open spec fn history_geq(a: HistoryTable, b: HistoryTable) -> bool {
    forall|w: bool, f: u8, t: u8|
        f < 64 && t < 64 ==> b.get_spec(w, f, t) >= a.get_spec(w, f, t)
}

/// The stage the picker is in; stages advance monotonically.
pub enum GenStage {
    TtMove,
    PrepCaptures,
    Captures,
    PrepQuiets,
    Killers,
    Quiets,
}

pub open spec fn stage_rank(s: GenStage) -> nat {
    match s {
        GenStage::TtMove => 5,
        GenStage::PrepCaptures => 4,
        GenStage::Captures => 3,
        GenStage::PrepQuiets => 2,
        GenStage::Killers => 1,
        GenStage::Quiets => 0,
    }
}

/// A staged, lazily ordered supplier of the legal moves of one position:
/// first the validated table hint, then captures in descending exchange
/// score (losing captures banded below), then this ply's killers, then
/// the remaining quiets by promotion bonus or history score, each stage
/// materialized only when reached.
pub struct MovePicker {
    pub pos: Position,
    /// Legal moves not yet scored into the queue.
    pub rest: Vec<Mv>,
    /// Scored moves awaiting emission.
    pub queue: Vec<(Mv, i64)>,
    /// The table hint, kept only when it is legal here; emitted first and
    /// excluded from every later stage.
    pub tt_move: Option<Mv>,
    pub killers: [Mv; 2],
    pub stage: GenStage,
    /// The legal move list the picker draws from.
    pub legal: Ghost<Seq<Mv>>,
    /// Every move handed out so far, in order.
    pub emitted: Ghost<Seq<Mv>>,
    /// The history snapshot the quiet scores were computed against.
    pub scored_history: Ghost<HistoryTable>,
}

impl MovePicker {
    pub open spec fn tt_not_in_queue(&self) -> bool {
        match self.tt_move {
            Some(t) => forall|i: int| 0 <= i < self.queue@.len() ==> (#[trigger] self.queue@[i]).0 != t,
            None => true,
        }
    }

    pub open spec fn tt_not_in_rest(&self) -> bool {
        match self.tt_move {
            Some(t) => forall|i: int| 0 <= i < self.rest@.len() ==> #[trigger] self.rest@[i] != t,
            None => true,
        }
    }

    /// What the first stage emits: the validated hint, or nothing.
    pub open spec fn hint_seq(&self) -> Seq<Mv> {
        match self.tt_move {
            Some(t) => seq![t],
            None => Seq::empty(),
        }
    }

    pub open spec fn wf(&self) -> bool {
        &&& self.pos.wf()
        &&& self.legal@ == crate::board::legal_moves_of(self.pos@)
        &&& forall|i: int| 0 <= i < self.legal@.len() ==> (#[trigger] self.legal@[i]).wf()
        &&& forall|i: int|
            0 <= i < self.queue@.len() ==> self.legal@.contains((#[trigger] self.queue@[i]).0)
        &&& forall|i: int| 0 <= i < self.rest@.len() ==> self.legal@.contains(
            #[trigger] self.rest@[i],
        )
        &&& match self.tt_move {
            Some(t) => self.legal@.contains(t),
            None => true,
        }
        &&& queue_distinct(self.queue@)
        &&& moves_distinct(self.rest@)
        &&& queue_disjoint_from(self.queue@, self.rest@)
        &&& queue_disjoint_from(self.queue@, self.emitted@)
        &&& match self.stage {
            GenStage::TtMove => self.queue@.len() == 0 && self.emitted@.len() == 0,
            GenStage::PrepCaptures => self.queue@.len() == 0 && self.emitted@ == self.hint_seq(),
            GenStage::Captures | GenStage::PrepQuiets => self.tt_not_in_queue()
                && self.tt_not_in_rest() && moves_disjoint(self.emitted@, self.rest@) && (
            self.stage is Captures ==> forall|i: int|
                0 <= i < self.queue@.len() ==> (#[trigger] self.queue@[i]).1 == adjusted_see(
                    self.pos@,
                    self.queue@[i].0,
                ) && bit64(self.pos@.occ(), self.queue@[i].0.to as u64)) && (
            self.stage is PrepQuiets ==> forall|i: int|
                0 <= i < self.queue@.len() ==> (#[trigger] self.queue@[i]).1 == adjusted_see(
                    self.pos@,
                    self.queue@[i].0,
                ) && adjusted_see(self.pos@, self.queue@[i].0) < crate::LOSING_CAPTURE && bit64(
                    self.pos@.occ(),
                    self.queue@[i].0.to as u64,
                )),
            GenStage::Killers | GenStage::Quiets => self.tt_not_in_queue() && self.rest@.len()
                == 0 && forall|i: int|
                0 <= i < self.queue@.len() ==> (#[trigger] self.queue@[i]).1 == quiet_score_spec(
                    self.scored_history@,
                    self.pos@.side_white,
                    self.queue@[i].0,
                ) || ((self.queue@[i]).1 == adjusted_see(self.pos@, self.queue@[i].0)
                    && adjusted_see(self.pos@, self.queue@[i].0) < crate::LOSING_CAPTURE && bit64(
                    self.pos@.occ(),
                    self.queue@[i].0.to as u64,
                )),
        }
    }

    /// Emissions strictly shrink this measure, so a loop over the picker
    /// terminates.
    pub open spec fn measure(&self) -> nat {
        self.queue@.len() + self.rest@.len() + stage_rank(self.stage)
    }

    /// 1 when the validated hint still stands in the backlog: the later
    /// stages drop that one copy instead of emitting it, because the
    /// first stage already handed it out.
    pub open spec fn tt_in_rest_count(&self) -> int {
        match self.tt_move {
            Some(t) => if self.rest@.contains(t) {
                1int
            } else {
                0int
            },
            None => 0int,
        }
    }

    /// The moves the picker still owes: everything waiting in the queue
    /// and the backlog, less the backlog's copy of the already-emitted
    /// hint.
    pub open spec fn pending(&self) -> int {
        self.queue@.len() + self.rest@.len() - self.tt_in_rest_count()
    }

    /// A picker over `pos`'s legal moves. The table hint is validated
    /// against the legal list here and dropped when it is not playable.
    pub fn new(pos: &Position, tt_move: Option<&crate::tt::TTEntry>, killers: [Mv; 2]) -> (r:
        MovePicker)
        requires
            pos.wf(),
        ensures
            r.wf(),
            r.stage is TtMove,
            r.pos == *pos,
            r.emitted@.len() == 0,
            r.rest@ == crate::board::legal_moves_of(pos@),
            r.queue@.len() == 0,
            match tt_move {
                Some(e) => r.tt_move == if crate::board::legal_moves_of(pos@).contains(e.mov) {
                    Some(e.mov)
                } else {
                    Option::<Mv>::None
                },
                None => r.tt_move is None,
            },
    {
        let moves = pos.legal_moves();
        let hint: Option<Mv> = match tt_move {
            Some(e) => Some(e.mov),
            None => None,
        };
        let mut validated: Option<Mv> = None;
        if let Some(t) = hint {
            let mut found = false;
            let mut i: usize = 0;
            while i < moves.len() && !found
                invariant
                    i <= moves@.len(),
                    moves@ == crate::board::legal_moves_of(pos@),
                    found ==> moves@.contains(t),
                    !found ==> forall|j: int| 0 <= j < i ==> moves@[j] != t,
                decreases moves@.len() - i,
            {
                if moves[i] == t {
                    found = true;
                }
                i = i + 1;
            }
            if found {
                validated = Some(t);
            } else {
                proof {
                    assert(!moves@.contains(t));
                }
            }
        }
        MovePicker {
            pos: *pos,
            rest: moves,
            queue: Vec::new(),
            tt_move: validated,
            killers,
            stage: GenStage::TtMove,
            legal: Ghost(crate::board::legal_moves_of(pos@)),
            emitted: Ghost(Seq::empty()),
            scored_history: Ghost(arbitrary()),
        }
    }

    /// The next move to try, or `None` when the position's moves are
    /// exhausted. The validated table hint comes out of the very first
    /// call and out of no later one; every move handed out is legal, is
    /// appended to the emission log, and no move already in the log is
    /// ever handed out again. `None` comes back only once nothing is
    /// owed: every call either emits or conserves the pending count, and
    /// `None` means it was zero. While the capture stage is live each
    /// queued entry carries exactly the adjusted exchange score of its
    /// capture (part of `wf`), and an emission from it is a capture of
    /// maximal such score; the killer stage owes the first killer still
    /// queued; afterwards every queued entry carries its promotion bonus
    /// or its score under the recorded history snapshot, and emissions
    /// take a maximal one.
    pub fn next(&mut self, history: &HistoryTable) -> (r: Option<Mv>)
        requires
            old(self).wf(),
            history.wf(),
        ensures
            final(self).wf(),
            final(self).pos == old(self).pos,
            final(self).legal == old(self).legal,
            final(self).tt_move == old(self).tt_move,
            !(final(self).stage is TtMove),
            r is Some ==> r.unwrap().wf() && crate::board::legal_moves_of(
                final(self).pos@,
            ).contains(r.unwrap()),
            r is Some ==> final(self).measure() < old(self).measure(),
            old(self).stage is TtMove && old(self).tt_move is Some ==> r == old(self).tt_move,
            !(old(self).stage is TtMove) && r is Some && old(self).tt_move is Some ==> r.unwrap()
                != old(self).tt_move.unwrap(),
            r is None ==> final(self).queue@.len() == 0 && final(self).rest@.len() == 0,
            r is None ==> old(self).queue@.len() == 0 && (old(self).rest@.len() == 0 || (
            old(self).rest@.len() == 1 && old(self).tt_move is Some && old(self).rest@[0]
                == old(self).tt_move.unwrap())),
            r is None ==> old(self).pending() == 0,
            r is Some ==> old(self).pending() - 1 <= final(self).pending() <= old(
                self,
            ).pending(),
            r is None ==> final(self).emitted@ == old(self).emitted@,
            r is Some ==> !old(self).emitted@.contains(r.unwrap()) && final(self).emitted@
                == old(self).emitted@.push(r.unwrap()),
            old(self).stage is Captures && has_viable_capture(old(self).queue@) ==> r is Some
                && is_max_scored(old(self).queue@, r.unwrap()) && bit64(
                old(self).pos@.occ(),
                r.unwrap().to as u64,
            ),
            old(self).stage is Quiets && r is Some ==> is_max_scored(
                old(self).queue@,
                r.unwrap(),
            ),
            old(self).stage is Killers && r is Some ==> (match killer_choice(
                old(self).queue@,
                old(self).killers[0],
                old(self).killers[1],
                old(self).tt_move,
            ) {
                Some(k) => r.unwrap() == k,
                None => is_max_scored(old(self).queue@, r.unwrap()),
            }),
        decreases old(self).measure(),
    {
        loop
            invariant
                self.wf(),
                history.wf(),
                self.pos == old(self).pos,
                self.legal == old(self).legal,
                self.tt_move == old(self).tt_move,
                self.measure() <= old(self).measure(),
                self.emitted == old(self).emitted,
                self.pending() == old(self).pending(),
                old(self).stage is TtMove && old(self).tt_move is Some ==> self.stage is TtMove,
                !(old(self).stage is TtMove) ==> !(self.stage is TtMove),
                old(self).stage is Captures && has_viable_capture(old(self).queue@)
                    ==> self.stage is Captures && self.queue@ == old(self).queue@,
                old(self).stage is Quiets ==> self.stage is Quiets && self.queue@ == old(
                    self,
                ).queue@,
                old(self).stage is Killers ==> self.killers == old(self).killers && ((
                self.stage is Killers && self.queue@ == old(self).queue@) || (
                self.stage is Quiets && self.queue@ == old(self).queue@ && killer_choice(
                    old(self).queue@,
                    old(self).killers[0],
                    old(self).killers[1],
                    old(self).tt_move,
                ) is None)),
            decreases self.measure(),
        {
            match self.stage {
                GenStage::TtMove => {
                    self.stage = GenStage::PrepCaptures;
                    if let Some(t) = self.tt_move {
                        self.emitted = Ghost(self.emitted@.push(t));
                        proof {
                            lemma_contains_wf(self.legal@, t);
                            assert(self.emitted@ =~= self.hint_seq());
                        }
                        return Some(t);
                    }
                    proof {
                        assert(self.emitted@ =~= self.hint_seq());
                    }
                },
                GenStage::PrepCaptures => {
                    let occ = self.pos.white | self.pos.black;
                    let ghost pending_entry = self.pending();
                    let ghost rest0 = self.rest@;
                    let mut quiets: Vec<Mv> = Vec::new();
                    let n = self.rest.len();
                    let mut idx: usize = 0;
                    while idx < n
                        invariant
                            idx <= n,
                            n == rest0.len(),
                            self.rest@ == rest0,
                            self.pos == old(self).pos,
                            self.legal == old(self).legal,
                            self.tt_move == old(self).tt_move,
                            self.emitted == old(self).emitted,
                            self.emitted@ == self.hint_seq(),
                            self.stage is PrepCaptures,
                            self.pos.wf(),
                            self.legal@ == crate::board::legal_moves_of(self.pos@),
                            forall|i: int|
                                0 <= i < self.legal@.len() ==> (#[trigger] self.legal@[i]).wf(),
                            forall|i: int| 0 <= i < rest0.len() ==> self.legal@.contains(
                                #[trigger] rest0[i],
                            ),
                            match self.tt_move {
                                Some(t) => self.legal@.contains(t),
                                None => true,
                            },
                            moves_distinct(rest0),
                            forall|j: int| 0 <= j < quiets@.len() ==> self.legal@.contains(
                                #[trigger] quiets@[j],
                            ),
                            forall|j: int|
                                0 <= j < self.queue@.len() ==> self.legal@.contains(
                                    (#[trigger] self.queue@[j]).0,
                                ),
                            match self.tt_move {
                                Some(t) => (forall|j: int|
                                    0 <= j < quiets@.len() ==> #[trigger] quiets@[j] != t)
                                    && (forall|j: int|
                                    0 <= j < self.queue@.len() ==> (
                                    #[trigger] self.queue@[j]).0 != t),
                                None => true,
                            },
                            queue_distinct(self.queue@),
                            moves_distinct(quiets@),
                            queue_disjoint_from(self.queue@, quiets@),
                            occ == self.pos@.occ(),
                            forall|j: int|
                                0 <= j < self.queue@.len() ==> (#[trigger] self.queue@[j]).1
                                    == adjusted_see(self.pos@, self.queue@[j].0) && bit64(
                                    self.pos@.occ(),
                                    self.queue@[j].0.to as u64,
                                ),
                            quiets@.len() + self.queue@.len() + hint_in_prefix(
                                self.tt_move,
                                rest0,
                                idx as int,
                            ) == idx,
                            forall|j: int|
                                0 <= j < self.queue@.len() ==> from_prefix(
                                    (#[trigger] self.queue@[j]).0,
                                    rest0,
                                    idx as int,
                                ),
                            forall|j: int|
                                0 <= j < quiets@.len() ==> from_prefix(
                                    #[trigger] quiets@[j],
                                    rest0,
                                    idx as int,
                                ),
                        decreases n - idx,
                    {
                        let m = self.rest[idx];
                        let skip = match self.tt_move {
                            Some(t) => m == t,
                            None => false,
                        };
                        if !skip {
                            proof {
                                lemma_contains_wf(self.legal@, m);
                                assert forall|j: int| 0 <= j < self.queue@.len() implies (
                                #[trigger] self.queue@[j]).0 != m by {
                                    lemma_from_prefix_ne(self.queue@[j].0, rest0, idx as int);
                                }
                                assert forall|j: int|
                                    0 <= j < quiets@.len() implies #[trigger] quiets@[j] != m by {
                                    lemma_from_prefix_ne(quiets@[j], rest0, idx as int);
                                }
                                match self.tt_move {
                                    Some(t) => {
                                        if from_prefix(t, rest0, idx as int) {
                                            lemma_from_prefix_widen(t, rest0, idx as int);
                                        }
                                        if from_prefix(t, rest0, idx + 1) {
                                            lemma_from_prefix_step(t, rest0, idx as int);
                                        }
                                    },
                                    None => {},
                                }
                            }
                            if crate::board::test_bit(occ, m.to as u64) {
                                let sv = see(&self.pos, m) as i64;
                                let score = if sv < 0 {
                                    sv + crate::LOSING_CAPTURE
                                } else {
                                    sv
                                };
                                let ghost prior = self.queue@;
                                self.queue.push((m, score));
                                proof {
                                    lemma_from_prefix_here(rest0, idx as int);
                                    assert forall|j: int|
                                        0 <= j < self.queue@.len() implies from_prefix(
                                        (#[trigger] self.queue@[j]).0,
                                        rest0,
                                        idx + 1,
                                    ) by {
                                        if j < prior.len() {
                                            assert(self.queue@[j] == prior[j]);
                                            lemma_from_prefix_widen(
                                                prior[j].0,
                                                rest0,
                                                idx as int,
                                            );
                                        } else {
                                            assert(self.queue@[j].0 == rest0[idx as int]);
                                        }
                                    }
                                    assert forall|j: int|
                                        0 <= j < quiets@.len() implies from_prefix(
                                        #[trigger] quiets@[j],
                                        rest0,
                                        idx + 1,
                                    ) by {
                                        lemma_from_prefix_widen(quiets@[j], rest0, idx as int);
                                    }
                                }
                            } else {
                                let ghost prior = quiets@;
                                quiets.push(m);
                                proof {
                                    lemma_from_prefix_here(rest0, idx as int);
                                    assert forall|j: int|
                                        0 <= j < quiets@.len() implies from_prefix(
                                        #[trigger] quiets@[j],
                                        rest0,
                                        idx + 1,
                                    ) by {
                                        if j < prior.len() {
                                            assert(quiets@[j] == prior[j]);
                                            lemma_from_prefix_widen(prior[j], rest0, idx as int);
                                        } else {
                                            assert(quiets@[j] == rest0[idx as int]);
                                        }
                                    }
                                    assert forall|j: int|
                                        0 <= j < self.queue@.len() implies from_prefix(
                                        (#[trigger] self.queue@[j]).0,
                                        rest0,
                                        idx + 1,
                                    ) by {
                                        lemma_from_prefix_widen(
                                            self.queue@[j].0,
                                            rest0,
                                            idx as int,
                                        );
                                    }
                                }
                            }
                        } else {
                            proof {
                                assert forall|j: int|
                                    0 <= j < self.queue@.len() implies from_prefix(
                                    (#[trigger] self.queue@[j]).0,
                                    rest0,
                                    idx + 1,
                                ) by {
                                    lemma_from_prefix_widen(self.queue@[j].0, rest0, idx as int);
                                }
                                assert forall|j: int|
                                    0 <= j < quiets@.len() implies from_prefix(
                                    #[trigger] quiets@[j],
                                    rest0,
                                    idx + 1,
                                ) by {
                                    lemma_from_prefix_widen(quiets@[j], rest0, idx as int);
                                }
                                match self.tt_move {
                                    Some(t) => {
                                        if from_prefix(t, rest0, idx as int) {
                                            lemma_from_prefix_ne(t, rest0, idx as int);
                                        }
                                        lemma_from_prefix_here(rest0, idx as int);
                                    },
                                    None => {},
                                }
                            }
                        }
                        idx = idx + 1;
                    }
                    self.rest = quiets;
                    self.stage = GenStage::Captures;
                    proof {
                        assert forall|i: int, j: int|
                            0 <= i < self.emitted@.len() && 0 <= j < self.rest@.len() implies
                            #[trigger] self.emitted@[i] != #[trigger] self.rest@[j] by {
                            assert(self.emitted@[i] == self.tt_move.unwrap());
                        }
                        assert forall|i: int, j: int|
                            0 <= i < self.queue@.len() && 0 <= j < self.emitted@.len() implies (
                            #[trigger] self.queue@[i]).0 != #[trigger] self.emitted@[j] by {
                            assert(self.emitted@[j] == self.tt_move.unwrap());
                        }
                        match self.tt_move {
                            Some(t) => {
                                lemma_from_prefix_is_contains(t, rest0);
                                if self.rest@.contains(t) {
                                    let k = choose|k: int|
                                        0 <= k < self.rest@.len() && self.rest@[k] == t;
                                }
                            },
                            None => {},
                        }
                        assert(self.pending() == pending_entry);
                    }
                },
                GenStage::Captures => {
                    let mut best: Option<usize> = None;
                    let mut max: i64 = crate::LOSING_CAPTURE;
                    let qn = self.queue.len();
                    let mut i: usize = 0;
                    while i < qn
                        invariant
                            i <= qn,
                            qn == self.queue@.len(),
                            match best {
                                Some(b) => b < qn && self.queue@[b as int].1 == max && max
                                    >= crate::LOSING_CAPTURE && forall|j: int|
                                    0 <= j < i ==> (#[trigger] self.queue@[j]).1 <= max,
                                None => max == crate::LOSING_CAPTURE && forall|j: int|
                                    0 <= j < i ==> (#[trigger] self.queue@[j]).1
                                        < crate::LOSING_CAPTURE,
                            },
                        decreases qn - i,
                    {
                        let s = self.queue[i].1;
                        if s >= max {
                            max = s;
                            best = Some(i);
                        }
                        i = i + 1;
                    }
                    match best {
                        Some(b) => {
                            let ghost oldq = self.queue@;
                            let ghost olde = self.emitted@;
                            let picked = self.queue.remove(b);
                            self.emitted = Ghost(self.emitted@.push(picked.0));
                            proof {
                                oldq.remove_ensures(b as int);
                                lemma_remove_emit(oldq, self.rest@, olde, b as int);
                                lemma_contains_wf(self.legal@, picked.0);
                                assert forall|i: int| 0 <= i < self.queue@.len() implies (
                                #[trigger] self.queue@[i]).1 == adjusted_see(
                                    self.pos@,
                                    self.queue@[i].0,
                                ) && bit64(self.pos@.occ(), self.queue@[i].0.to as u64) by {
                                    if i < b as int {
                                        assert(self.queue@[i] == oldq[i]);
                                    } else {
                                        assert(self.queue@[i] == oldq[i + 1]);
                                    }
                                }
                            }
                            return Some(picked.0);
                        },
                        None => {
                            self.stage = GenStage::PrepQuiets;
                        },
                    }
                },
                GenStage::PrepQuiets => {
                    let ghost pending_entry = self.pending();
                    let ghost rest0 = self.rest@;
                    let ghost queue0 = self.queue@;
                    let ghost e0 = self.emitted@;
                    let n = self.rest.len();
                    let mut idx: usize = 0;
                    while idx < n
                        invariant
                            idx <= n,
                            n == rest0.len(),
                            self.rest@ == rest0,
                            self.emitted == old(self).emitted,
                            self.emitted@ == e0,
                            self.pos == old(self).pos,
                            self.legal == old(self).legal,
                            self.tt_move == old(self).tt_move,
                            self.stage is PrepQuiets,
                            self.pos.wf(),
                            history.wf(),
                            self.legal@ == crate::board::legal_moves_of(self.pos@),
                            forall|i: int|
                                0 <= i < self.legal@.len() ==> (#[trigger] self.legal@[i]).wf(),
                            forall|i: int| 0 <= i < rest0.len() ==> self.legal@.contains(
                                #[trigger] rest0[i],
                            ),
                            match self.tt_move {
                                Some(t) => self.legal@.contains(t),
                                None => true,
                            },
                            moves_distinct(rest0),
                            match self.tt_move {
                                Some(t) => forall|i: int|
                                    0 <= i < rest0.len() ==> #[trigger] rest0[i] != t,
                                None => true,
                            },
                            moves_disjoint(e0, rest0),
                            queue_disjoint_from(queue0, rest0),
                            self.queue@.len() + hint_in_prefix(self.tt_move, rest0, idx as int)
                                == queue0.len() + idx,
                            forall|j: int|
                                0 <= j < queue0.len() ==> #[trigger] self.queue@[j] == queue0[j],
                            forall|j: int|
                                queue0.len() <= j < self.queue@.len() ==> from_prefix(
                                    (#[trigger] self.queue@[j]).0,
                                    rest0,
                                    idx as int,
                                ),
                            forall|j: int|
                                0 <= j < self.queue@.len() ==> self.legal@.contains(
                                    (#[trigger] self.queue@[j]).0,
                                ),
                            match self.tt_move {
                                Some(t) => forall|j: int|
                                    0 <= j < self.queue@.len() ==> (#[trigger] self.queue@[j]).0
                                        != t,
                                None => true,
                            },
                            queue_distinct(self.queue@),
                            queue_disjoint_from(self.queue@, e0),
                            forall|j: int|
                                0 <= j < queue0.len() ==> (#[trigger] self.queue@[j]).1
                                    == adjusted_see(self.pos@, self.queue@[j].0) && adjusted_see(
                                    self.pos@,
                                    self.queue@[j].0,
                                ) < crate::LOSING_CAPTURE && bit64(
                                    self.pos@.occ(),
                                    self.queue@[j].0.to as u64,
                                ),
                            forall|j: int|
                                queue0.len() <= j < self.queue@.len() ==> (
                                #[trigger] self.queue@[j]).1 == quiet_score_spec(
                                    *history,
                                    self.pos@.side_white,
                                    self.queue@[j].0,
                                ),
                        decreases n - idx,
                    {
                        let m = self.rest[idx];
                        let skip = match self.tt_move {
                            Some(t) => m == t,
                            None => false,
                        };
                        if !skip {
                            proof {
                                lemma_contains_wf(self.legal@, m);
                                assert forall|j: int| 0 <= j < self.queue@.len() implies (
                                #[trigger] self.queue@[j]).0 != m by {
                                    if j < queue0.len() {
                                        assert(self.queue@[j] == queue0[j]);
                                    } else {
                                        lemma_from_prefix_ne(self.queue@[j].0, rest0, idx as int);
                                    }
                                }
                            }
                            let score: i64 = if m.promo == 4 {
                                crate::INF as i64
                            } else if m.promo >= 1 {
                                -(crate::INF as i64)
                            } else {
                                history.get(self.pos.side_white, m.from, m.to)
                            };
                            let ghost prior = self.queue@;
                            self.queue.push((m, score));
                            proof {
                                lemma_from_prefix_here(rest0, idx as int);
                                assert forall|j: int|
                                    queue0.len() <= j < self.queue@.len() implies from_prefix(
                                    (#[trigger] self.queue@[j]).0,
                                    rest0,
                                    idx + 1,
                                ) by {
                                    if j < prior.len() {
                                        assert(self.queue@[j] == prior[j]);
                                        lemma_from_prefix_widen(prior[j].0, rest0, idx as int);
                                    } else {
                                        assert(self.queue@[j].0 == rest0[idx as int]);
                                    }
                                }
                                match self.tt_move {
                                    Some(t) => {
                                        if from_prefix(t, rest0, idx as int) {
                                            lemma_from_prefix_widen(t, rest0, idx as int);
                                        }
                                        if from_prefix(t, rest0, idx + 1) {
                                            lemma_from_prefix_step(t, rest0, idx as int);
                                        }
                                    },
                                    None => {},
                                }
                            }
                        } else {
                            proof {
                                assert forall|j: int|
                                    queue0.len() <= j < self.queue@.len() implies from_prefix(
                                    (#[trigger] self.queue@[j]).0,
                                    rest0,
                                    idx + 1,
                                ) by {
                                    lemma_from_prefix_widen(self.queue@[j].0, rest0, idx as int);
                                }
                                match self.tt_move {
                                    Some(t) => {
                                        if from_prefix(t, rest0, idx as int) {
                                            lemma_from_prefix_ne(t, rest0, idx as int);
                                        }
                                        lemma_from_prefix_here(rest0, idx as int);
                                    },
                                    None => {},
                                }
                            }
                        }
                        idx = idx + 1;
                    }
                    let empty: Vec<Mv> = Vec::new();
                    self.rest = empty;
                    self.scored_history = Ghost(*history);
                    self.stage = GenStage::Killers;
                    proof {
                        match self.tt_move {
                            Some(t) => {
                                lemma_from_prefix_is_contains(t, rest0);
                            },
                            None => {},
                        }
                        assert(self.pending() == pending_entry);
                    }
                },
                GenStage::Killers => {
                    let k0 = self.killers[0];
                    let k1 = self.killers[1];
                    if let Some(b) = self.find_killer(k0) {
                        let ghost oldq = self.queue@;
                        let ghost olde = self.emitted@;
                        let picked = self.queue.remove(b);
                        self.emitted = Ghost(self.emitted@.push(picked.0));
                        proof {
                            oldq.remove_ensures(b as int);
                            lemma_remove_emit(oldq, self.rest@, olde, b as int);
                            lemma_contains_wf(self.legal@, picked.0);
                            assert forall|i: int| 0 <= i < self.queue@.len() implies (
                            #[trigger] self.queue@[i]).1 == quiet_score_spec(
                                self.scored_history@,
                                self.pos@.side_white,
                                self.queue@[i].0,
                            ) || ((self.queue@[i]).1 == adjusted_see(self.pos@, self.queue@[i].0)
                                && adjusted_see(self.pos@, self.queue@[i].0)
                                < crate::LOSING_CAPTURE && bit64(
                                self.pos@.occ(),
                                self.queue@[i].0.to as u64,
                            )) by {
                                if i < b as int {
                                    assert(self.queue@[i] == oldq[i]);
                                } else {
                                    assert(self.queue@[i] == oldq[i + 1]);
                                }
                            }
                        }
                        return Some(picked.0);
                    }
                    if let Some(b) = self.find_killer(k1) {
                        let ghost oldq = self.queue@;
                        let ghost olde = self.emitted@;
                        let picked = self.queue.remove(b);
                        self.emitted = Ghost(self.emitted@.push(picked.0));
                        proof {
                            oldq.remove_ensures(b as int);
                            lemma_remove_emit(oldq, self.rest@, olde, b as int);
                            lemma_contains_wf(self.legal@, picked.0);
                            assert forall|i: int| 0 <= i < self.queue@.len() implies (
                            #[trigger] self.queue@[i]).1 == quiet_score_spec(
                                self.scored_history@,
                                self.pos@.side_white,
                                self.queue@[i].0,
                            ) || ((self.queue@[i]).1 == adjusted_see(self.pos@, self.queue@[i].0)
                                && adjusted_see(self.pos@, self.queue@[i].0)
                                < crate::LOSING_CAPTURE && bit64(
                                self.pos@.occ(),
                                self.queue@[i].0.to as u64,
                            )) by {
                                if i < b as int {
                                    assert(self.queue@[i] == oldq[i]);
                                } else {
                                    assert(self.queue@[i] == oldq[i + 1]);
                                }
                            }
                        }
                        return Some(picked.0);
                    }
                    self.stage = GenStage::Quiets;
                },
                GenStage::Quiets => {
                    let mut best: Option<usize> = None;
                    let mut max: i64 = 0;
                    let qn = self.queue.len();
                    let mut i: usize = 0;
                    while i < qn
                        invariant
                            i <= qn,
                            qn == self.queue@.len(),
                            match best {
                                Some(b) => b < qn && self.queue@[b as int].1 == max && forall|
                                    j: int,
                                |
                                    0 <= j < i ==> (#[trigger] self.queue@[j]).1 <= max,
                                None => i == 0,
                            },
                        decreases qn - i,
                    {
                        let s = self.queue[i].1;
                        if best.is_none() || s > max {
                            max = s;
                            best = Some(i);
                        }
                        i = i + 1;
                    }
                    match best {
                        Some(b) => {
                            let ghost oldq = self.queue@;
                            let ghost olde = self.emitted@;
                            let picked = self.queue.remove(b);
                            self.emitted = Ghost(self.emitted@.push(picked.0));
                            proof {
                                oldq.remove_ensures(b as int);
                                lemma_remove_emit(oldq, self.rest@, olde, b as int);
                                lemma_contains_wf(self.legal@, picked.0);
                                assert forall|i: int| 0 <= i < self.queue@.len() implies (
                                #[trigger] self.queue@[i]).1 == quiet_score_spec(
                                    self.scored_history@,
                                    self.pos@.side_white,
                                    self.queue@[i].0,
                                ) || ((self.queue@[i]).1 == adjusted_see(
                                    self.pos@,
                                    self.queue@[i].0,
                                ) && adjusted_see(self.pos@, self.queue@[i].0)
                                    < crate::LOSING_CAPTURE && bit64(
                                    self.pos@.occ(),
                                    self.queue@[i].0.to as u64,
                                )) by {
                                    if i < b as int {
                                        assert(self.queue@[i] == oldq[i]);
                                    } else {
                                        assert(self.queue@[i] == oldq[i + 1]);
                                    }
                                }
                            }
                            return Some(picked.0);
                        },
                        None => {
                            proof {
                                assert(old(self).pending() <= 0);
                                match old(self).tt_move {
                                    Some(t) => {
                                        if old(self).rest@.contains(t) {
                                            let k = choose|k: int|
                                                0 <= k < old(self).rest@.len() && old(
                                                    self,
                                                ).rest@[k] == t;
                                            assert(old(self).rest@.len() == 1);
                                            assert(k == 0);
                                        }
                                    },
                                    None => {},
                                }
                            }
                            return None;
                        },
                    }
                },
            }
        }
    }

    /// The index in the queue of a killer move that is not the table
    /// hint, if the killer is still waiting there.
    fn find_killer(&self, km: Mv) -> (r: Option<usize>)
        requires
            self.wf(),
        ensures
            match r {
                Some(b) => b < self.queue@.len() && self.queue@[b as int].0 == km && (
                match self.tt_move {
                    Some(t) => km != t,
                    None => true,
                }),
                None => (match self.tt_move {
                    Some(t) => km == t,
                    None => false,
                }) || !queue_holds(self.queue@, km),
            },
    {
        let skip = match self.tt_move {
            Some(t) => km == t,
            None => false,
        };
        if skip {
            return None;
        }
        proof {
            assert(match self.tt_move {
                Some(t) => km != t,
                None => true,
            });
        }
        let qn = self.queue.len();
        let mut i: usize = 0;
        while i < qn
            invariant
                i <= qn,
                qn == self.queue@.len(),
                match self.tt_move {
                    Some(t) => km != t,
                    None => true,
                },
                forall|j: int| 0 <= j < i ==> (#[trigger] self.queue@[j]).0 != km,
            decreases qn - i,
        {
            if self.queue[i].0 == km {
                return Some(i);
            }
            i = i + 1;
        }
        proof {
            if queue_holds(self.queue@, km) {
                let j = choose|j: int| 0 <= j < self.queue@.len() && self.queue@[j].0 == km;
            }
        }
        None
    }
}

} // verus!
