use std::str::FromStr;

use sunset::board::{Mv, Position};
use sunset::movepick::see;

fn pos(fen: &str) -> Position {
    Position::from_board(chess::Board::from_str(fen).unwrap())
}

// square helper: file 0..8 ('a'..), rank 0..8 ('1'..)
fn sq(file: u8, rank: u8) -> u8 {
    rank * 8 + file
}

#[test]
fn see_undefended_pawn_taken_by_knight_is_pawn_value() {
    // white knight c3 can take the undefended black pawn on d5
    let p = pos("7k/8/8/3p4/8/2N5/8/7K w - - 0 1");
    let m = Mv { from: sq(2, 2), to: sq(3, 4), promo: 0 };
    assert_eq!(see(&p, m), 100);
}

#[test]
fn see_defended_pawn_taken_by_knight_loses_material() {
    // the d5 pawn is defended by the e6 pawn: NxP, PxN
    let p = pos("7k/8/4p3/3p4/8/2N5/8/7K w - - 0 1");
    let m = Mv { from: sq(2, 2), to: sq(3, 4), promo: 0 };
    // 100 (pawn) - 320 (knight) = -220
    assert_eq!(see(&p, m), -220);
}

#[test]
fn see_queen_takes_defended_pawn_stands_pat_at_zero_or_worse() {
    // QxP with the pawn defended by a pawn: queen would be lost
    let p = pos("7k/8/4p3/3p4/8/8/3Q4/7K w - - 0 1");
    let m = Mv { from: sq(3, 1), to: sq(3, 4), promo: 0 };
    // 100 (pawn) - 900 (queen) = -800
    assert_eq!(see(&p, m), -800);
}

#[test]
fn see_of_move_to_empty_square_is_not_positive() {
    // a quiet rook move gains nothing
    let p = pos("7k/8/8/8/8/8/8/3R3K w - - 0 1");
    let m = Mv { from: sq(3, 0), to: sq(3, 3), promo: 0 };
    assert!(see(&p, m) <= 0);
}

#[test]
fn see_free_queen_capture_is_queen_value() {
    let p = pos("7k/8/8/3q4/8/8/8/3R3K w - - 0 1");
    let m = Mv { from: sq(3, 0), to: sq(3, 4), promo: 0 };
    assert_eq!(see(&p, m), 900);
}

#[test]
fn see_pawn_defended_by_king_costs_the_queen() {
    // QxP with the king ready to recapture
    let p = pos("8/8/4k3/3p4/8/8/3Q4/7K w - - 0 1");
    let m = Mv { from: sq(3, 1), to: sq(3, 4), promo: 0 };
    assert_eq!(see(&p, m), -800);
}

#[test]
fn see_pawn_defended_by_bishop_traps_the_rook() {
    // RxP with a bishop on g8 covering d5 along the diagonal
    let p = pos("6bk/8/8/3p4/8/8/8/3R3K w - - 0 1");
    let m = Mv { from: sq(3, 0), to: sq(3, 4), promo: 0 };
    // 100 (pawn) - 500 (rook) = -400
    assert_eq!(see(&p, m), -400);
}

#[test]
fn see_works_for_the_second_player_too() {
    // black pawn on d5 can take the undefended white knight on e4
    let p = pos("7k/8/8/3p4/4N3/8/8/7K b - - 0 1");
    let m = Mv { from: sq(3, 4), to: sq(4, 3), promo: 0 };
    assert_eq!(see(&p, m), 320);
}

#[test]
fn see_exchange_with_discovered_attacker_counts_the_battery() {
    // white rook d1 takes d5 pawn; black rook d8 recaptures; white queen
    // d2 (behind the rook) recaptures the rook.
    let p = pos("3r3k/8/8/3p4/8/8/3Q4/3R3K w - - 0 1");
    let m = Mv { from: sq(3, 0), to: sq(3, 4), promo: 0 };
    // pawn - rook + rook = 100
    assert_eq!(see(&p, m), 100);
}
