//! Static position scoring: a fixed per-(piece, color, square) value table
//! in 1/512ths of a centipawn, summed over the occupied squares, divided by
//! the scale and sign-flipped for the second player. The result is clamped
//! well inside the mate-score band so that a static score can never be
//! mistaken for a forced mate.

use vstd::prelude::*;
use crate::board::{BoardRep, Piece, Position};

verus! {

/// Scale of the table entries: one centipawn is 512 table units.
pub const PSQT_SCALE: i64 = 512;

/// Largest magnitude a table entry can take, in table units.
pub const PSQT_ENTRY_BOUND: i64 = 512000;

/// Static scores are clamped to this magnitude, in centipawns; it lies
/// well below the mate band.
pub const EVAL_CLAMP: i32 = 8000;

/// Exchange value of a piece, in centipawns.
pub open spec fn piece_value_spec(p: Piece) -> int {
    match p {
        Piece::Pawn => 100,
        Piece::Knight => 320,
        Piece::Bishop => 340,
        Piece::Rook => 500,
        Piece::Queen => 900,
        Piece::King => 20000,
    }
}

/// Exchange value of a piece, as the capture ordering uses it.
pub fn get_piece_value(piece: Piece) -> (r: i32)
    ensures
        r == piece_value_spec(piece),
        100 <= r <= 20000,
{
    match piece {
        Piece::Pawn => 100,
        Piece::Knight => 320,
        Piece::Bishop => 340,
        Piece::Rook => 500,
        Piece::Queen => 900,
        Piece::King => 20000,
    }
}

/// Distance-from-center measure: 2 at the four center squares, 14 in the
/// corners.
pub open spec fn center_distance(sq: u64) -> int {
    let r = sq as int / 8;
    let f = sq as int % 8;
    (if 2 * r >= 7 {
        2 * r - 7
    } else {
        7 - 2 * r
    }) + (if 2 * f >= 7 {
        2 * f - 7
    } else {
        7 - 2 * f
    })
}

/// Positional bonus of a white piece on `sq`, in centipawns: pawns gain by
/// advancing, minor pieces by centralization.
pub open spec fn positional_bonus(p: Piece, sq: u64) -> int {
    match p {
        Piece::Pawn => 2 * (sq as int / 8) - 2,
        Piece::Knight => 14 - center_distance(sq),
        Piece::Bishop => 14 - center_distance(sq),
        Piece::Rook => 0,
        Piece::Queen => 0,
        Piece::King => 0,
    }
}

/// Material term of a table entry, in centipawns; kings carry no table
/// material since both sides always have exactly one.
pub open spec fn material_term(p: Piece) -> int {
    match p {
        Piece::King => 0,
        _ => piece_value_spec(p),
    }
}

/// Mirror a square across the board's horizontal axis.
pub open spec fn mirror_sq(sq: u64) -> u64 {
    (sq ^ 56) as u64
}

/// The table entry for a piece of the given color on `sq`, in table units:
/// positive for the first player, the mirrored negative for the second.
pub open spec fn psqt_spec(p: Piece, white: bool, sq: u64) -> int {
    if white {
        512 * (material_term(p) + positional_bonus(p, sq))
    } else {
        -512 * (material_term(p) + positional_bonus(p, mirror_sq(sq)))
    }
}

/// Contribution of square `sq` to the table sum of `rep`.
pub open spec fn square_term(rep: BoardRep, sq: u64) -> int {
    match rep.piece_on_spec(sq) {
        None => 0,
        Some(p) => psqt_spec(p, rep.white_on_spec(sq), sq),
    }
}

/// Table sum over the first `n` squares.
pub open spec fn psqt_sum(rep: BoardRep, n: nat) -> int
    decreases n,
{
    if n == 0 {
        0
    } else {
        psqt_sum(rep, (n - 1) as nat) + square_term(rep, (n - 1) as u64)
    }
}

/// Truncating division, as the executable `/` rounds.
pub open spec fn tdiv(a: int, b: int) -> int {
    if a >= 0 {
        a / b
    } else {
        -((-a) / b)
    }
}

pub open spec fn clamp_spec(v: int, bound: int) -> int {
    if v > bound {
        bound
    } else if v < -bound {
        -bound
    } else {
        v
    }
}

/// The static evaluation of `rep`, in centipawns, relative to the side to
/// move: table sum over all squares, scaled down, sign-flipped for the
/// second player, clamped below the mate band.
pub open spec fn static_eval_spec(rep: BoardRep) -> int {
    let raw = tdiv(psqt_sum(rep, 64), 512);
    let rel = if rep.side_white {
        raw
    } else {
        -raw
    };
    clamp_spec(rel, EVAL_CLAMP as int)
}

impl Position {
    /// The piece standing on `sq`, read from the mirror planes.
    pub fn piece_on(&self, sq: u64) -> (r: Option<Piece>)
        requires
            sq < 64,
        ensures
            r == self@.piece_on_spec(sq),
    {
        if !crate::board::test_bit(self.white | self.black, sq) {
            None
        } else if crate::board::test_bit(self.pawns, sq) {
            Some(Piece::Pawn)
        } else if crate::board::test_bit(self.knights, sq) {
            Some(Piece::Knight)
        } else if crate::board::test_bit(self.bishops, sq) {
            Some(Piece::Bishop)
        } else if crate::board::test_bit(self.rooks, sq) {
            Some(Piece::Rook)
        } else if crate::board::test_bit(self.queens, sq) {
            Some(Piece::Queen)
        } else {
            Some(Piece::King)
        }
    }

    /// Whether the first player occupies `sq`.
    pub fn white_on(&self, sq: u64) -> (r: bool)
        requires
            sq < 64,
        ensures
            r == self@.white_on_spec(sq),
    {
        crate::board::test_bit(self.white, sq)
    }
}

/// The executable table entry; bounded so that the 64-square sum cannot
/// overflow.
fn psqt_entry(p: Piece, white: bool, sq: u64) -> (r: i64)
    requires
        sq < 64,
    ensures
        r == psqt_spec(p, white, sq),
        -PSQT_ENTRY_BOUND <= r <= PSQT_ENTRY_BOUND,
{
    let s = if white {
        sq
    } else {
        sq ^ 56
    };
    proof {
        assert(sq ^ 56 < 64 && (sq ^ 56) == mirror_sq(sq)) by (bit_vector)
            requires
                sq < 64,
        ;
    }
    let rank = (s / 8) as i64;
    let file = (s % 8) as i64;
    assert(0 <= rank <= 7);
    assert(0 <= file <= 7);
    let cd = (if 2 * rank >= 7 {
        2 * rank - 7
    } else {
        7 - 2 * rank
    }) + (if 2 * file >= 7 {
        2 * file - 7
    } else {
        7 - 2 * file
    });
    let cp: i64 = match p {
        Piece::Pawn => 100 + 2 * rank - 2,
        Piece::Knight => 320 + 14 - cd,
        Piece::Bishop => 340 + 14 - cd,
        Piece::Rook => 500,
        Piece::Queen => 900,
        Piece::King => 0,
    };
    assert(2 <= cd <= 14);
    assert(0 <= cp <= 1000);
    if white {
        512 * cp
    } else {
        -(512 * cp)
    }
}

/// The static evaluation of a position, as `static_eval_spec` states it.
pub fn static_eval(p: &Position) -> (r: i32)
    ensures
        r == static_eval_spec(p@),
        -EVAL_CLAMP <= r <= EVAL_CLAMP,
{
    let mut sum: i64 = 0;
    for sq in 0..64u64
        invariant
            sum == psqt_sum(p@, sq as nat),
            -(512000 * sq) <= sum <= 512000 * sq,
    {
        match p.piece_on(sq) {
            None => {},
            Some(piece) => {
                sum = sum + psqt_entry(piece, p.white_on(sq), sq);
            },
        }
    }
    let raw: i64 = if sum >= 0 {
        ((sum as u64) / 512) as i64
    } else {
        -((((-sum) as u64) / 512) as i64)
    };
    let rel: i64 = if p.side_white {
        raw
    } else {
        -raw
    };
    let clamped: i64 = if rel > EVAL_CLAMP as i64 {
        EVAL_CLAMP as i64
    } else if rel < -(EVAL_CLAMP as i64) {
        -(EVAL_CLAMP as i64)
    } else {
        rel
    };
    clamped as i32
}

} // verus!
