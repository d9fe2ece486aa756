//! Attack sets per piece kind, as the static exchange evaluator consumes
//! them. Each executable lookup calls the `chess` crate's precomputed
//! tables; its contract states the attack pattern square by square, so all
//! reasoning above rests on these definitions.

use vstd::prelude::*;
use crate::board::bit64;

verus! {

pub open spec fn rank_of(sq: u64) -> int {
    sq as int / 8
}

pub open spec fn file_of(sq: u64) -> int {
    sq as int % 8
}

pub open spec fn iabs(x: int) -> int {
    if x >= 0 {
        x
    } else {
        -x
    }
}

/// A knight on `from` attacks `to`.
pub open spec fn knight_reach(from: u64, to: u64) -> bool {
    let dr = iabs(rank_of(to) - rank_of(from));
    let df = iabs(file_of(to) - file_of(from));
    (dr == 2 && df == 1) || (dr == 1 && df == 2)
}

/// A king on `from` attacks `to`.
pub open spec fn king_reach(from: u64, to: u64) -> bool {
    let dr = iabs(rank_of(to) - rank_of(from));
    let df = iabs(file_of(to) - file_of(from));
    dr <= 1 && df <= 1 && from != to
}

/// A pawn of the given color on `from` attacks `to` (captures only).
pub open spec fn pawn_reach(white: bool, from: u64, to: u64) -> bool {
    let step: int = if white {
        1
    } else {
        -1
    };
    rank_of(to) - rank_of(from) == step && iabs(file_of(to) - file_of(from)) == 1
}

pub open spec fn same_rank_or_file(a: u64, b: u64) -> bool {
    rank_of(a) == rank_of(b) || file_of(a) == file_of(b)
}

pub open spec fn same_diagonal(a: u64, b: u64) -> bool {
    rank_of(a) - rank_of(b) == file_of(a) - file_of(b)
}

pub open spec fn same_antidiagonal(a: u64, b: u64) -> bool {
    rank_of(a) - rank_of(b) == file_of(b) - file_of(a)
}

pub open spec fn strictly_between(a: int, x: int, b: int) -> bool {
    (a < x && x < b) || (b < x && x < a)
}

/// `u` lies strictly between `from` and `to` on their shared rank or file.
pub open spec fn between_on_line(from: u64, to: u64, u: u64) -> bool {
    ||| (rank_of(from) == rank_of(to) && rank_of(u) == rank_of(from) && strictly_between(
        file_of(from),
        file_of(u),
        file_of(to),
    ))
    ||| (file_of(from) == file_of(to) && file_of(u) == file_of(from) && strictly_between(
        rank_of(from),
        rank_of(u),
        rank_of(to),
    ))
}

/// `u` lies strictly between `from` and `to` on their shared diagonal.
pub open spec fn between_on_diagonal(from: u64, to: u64, u: u64) -> bool {
    ||| (same_diagonal(from, to) && same_diagonal(from, u) && strictly_between(
        rank_of(from),
        rank_of(u),
        rank_of(to),
    ))
    ||| (same_antidiagonal(from, to) && same_antidiagonal(from, u) && strictly_between(
        rank_of(from),
        rank_of(u),
        rank_of(to),
    ))
}

/// A rook on `from` attacks `to` given the occupancy `blockers`: same rank
/// or file, with every square strictly between them empty. A blocker on
/// `to` itself is reached (and could be captured).
pub open spec fn rook_reach(blockers: u64, from: u64, to: u64) -> bool {
    &&& from != to
    &&& same_rank_or_file(from, to)
    &&& forall|u: u64| u < 64 && between_on_line(from, to, u) ==> !bit64(blockers, u)
}

/// A bishop on `from` attacks `to` given the occupancy `blockers`.
pub open spec fn bishop_reach(blockers: u64, from: u64, to: u64) -> bool {
    &&& from != to
    &&& (same_diagonal(from, to) || same_antidiagonal(from, to))
    &&& forall|u: u64| u < 64 && between_on_diagonal(from, to, u) ==> !bit64(blockers, u)
}

/// Relies on `chess::get_knight_moves`: its generated table holds, for each
/// square, exactly the squares a (2,1) or (1,2) leap away.
#[verifier::external_body]
pub fn knight_attacks(sq: u64) -> (r: u64)
    requires
        sq < 64,
    ensures
        forall|t: u64| t < 64 ==> (#[trigger] bit64(r, t)) == knight_reach(sq, t),
{
    chess::get_knight_moves(chess::ALL_SQUARES[sq as usize]).0
}

/// Relies on `chess::get_king_moves`: its generated table holds, for each
/// square, exactly the adjacent squares.
#[verifier::external_body]
pub fn king_attacks(sq: u64) -> (r: u64)
    requires
        sq < 64,
    ensures
        forall|t: u64| t < 64 ==> (#[trigger] bit64(r, t)) == king_reach(sq, t),
{
    chess::get_king_moves(chess::ALL_SQUARES[sq as usize]).0
}

/// Relies on `chess::get_pawn_attacks`: its generated table holds, for a
/// pawn of the given color on `sq`, exactly its one-step diagonal capture
/// squares (passing a full bitboard as the victim mask leaves the pattern
/// unmasked).
#[verifier::external_body]
pub fn pawn_attacks(sq: u64, white: bool) -> (r: u64)
    requires
        sq < 64,
    ensures
        forall|t: u64| t < 64 ==> (#[trigger] bit64(r, t)) == pawn_reach(white, sq, t),
{
    let color = if white {
        chess::Color::White
    } else {
        chess::Color::Black
    };
    chess::get_pawn_attacks(chess::ALL_SQUARES[sq as usize], color, !chess::EMPTY).0
}

/// Relies on `chess::get_rook_moves`: its magic tables yield, along each
/// rank and file from `sq`, the squares up to and including the first
/// blocker.
#[verifier::external_body]
pub fn rook_attacks(sq: u64, blockers: u64) -> (r: u64)
    requires
        sq < 64,
    ensures
        forall|t: u64| t < 64 ==> (#[trigger] bit64(r, t)) == rook_reach(blockers, sq, t),
{
    chess::get_rook_moves(chess::ALL_SQUARES[sq as usize], chess::BitBoard(blockers)).0
}

/// Relies on `chess::get_bishop_moves`: its magic tables yield, along each
/// diagonal from `sq`, the squares up to and including the first blocker.
#[verifier::external_body]
pub fn bishop_attacks(sq: u64, blockers: u64) -> (r: u64)
    requires
        sq < 64,
    ensures
        forall|t: u64| t < 64 ==> (#[trigger] bit64(r, t)) == bishop_reach(blockers, sq, t),
{
    chess::get_bishop_moves(chess::ALL_SQUARES[sq as usize], chess::BitBoard(blockers)).0
}

} // verus!
