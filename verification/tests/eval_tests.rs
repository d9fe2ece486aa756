use std::str::FromStr;

use sunset::board::{Piece, Position};
use sunset::eval::{get_piece_value, static_eval};

const STARTPOS: &str = "rnbqkbnr/pppppppp/8/8/8/8/PPPPPPPP/RNBQKBNR w KQkq - 0 1";

fn pos(fen: &str) -> Position {
    Position::from_board(chess::Board::from_str(fen).unwrap())
}

#[test]
fn piece_values_are_the_exchange_table() {
    assert_eq!(get_piece_value(Piece::Pawn), 100);
    assert_eq!(get_piece_value(Piece::Knight), 320);
    assert_eq!(get_piece_value(Piece::Bishop), 340);
    assert_eq!(get_piece_value(Piece::Rook), 500);
    assert_eq!(get_piece_value(Piece::Queen), 900);
    assert_eq!(get_piece_value(Piece::King), 20000);
}

#[test]
fn startpos_is_level() {
    assert_eq!(static_eval(&pos(STARTPOS)), 0);
}

#[test]
fn lone_queen_on_its_home_corner_is_its_material() {
    // queen on a1 takes no positional bonus, kings carry none
    let p = pos("4k3/8/8/8/8/8/8/Q3K3 w - - 0 1");
    assert_eq!(static_eval(&p), 900);
    let q = pos("4k3/8/8/8/8/8/8/Q3K3 b - - 0 1");
    assert_eq!(static_eval(&q), -900);
}

#[test]
fn evaluation_is_clamped_inside_the_mate_band() {
    // an absurd material pile still stays below the mate scores
    let p = pos("k7/pp6/8/8/8/8/QQQQQQQQ/QQ2K3 w - - 0 1");
    let v = static_eval(&p);
    assert_eq!(v, 8000);
}

#[test]
fn side_to_move_sign_flip() {
    let w = static_eval(&pos("4k3/8/8/8/8/8/8/R3K3 w - - 0 1"));
    let b = static_eval(&pos("4k3/8/8/8/8/8/8/R3K3 b - - 0 1"));
    assert_eq!(w, -b);
}

#[test]
fn pawn_advance_is_rewarded() {
    // the same pawn further up the board scores higher for its owner
    let home = static_eval(&pos("4k3/8/8/8/8/8/4P3/4K3 w - - 0 1"));
    let advanced = static_eval(&pos("4k3/8/8/8/4P3/8/8/4K3 w - - 0 1"));
    assert!(advanced > home);
}
