use std::str::FromStr;

use sunset::board::{popcount, Mv, Piece, Position};
use sunset::movepick::{HistoryTable, MovePicker};

// the legal moves of a position, as the picker hands them out
fn legal(p: &Position) -> Vec<Mv> {
    let mut picker = MovePicker::new(p, None, [Mv { from: 0, to: 0, promo: 0 }; 2]);
    let history = HistoryTable::new();
    let mut out = Vec::new();
    while let Some(m) = picker.next(&history) {
        out.push(m);
    }
    out
}

const STARTPOS: &str = "rnbqkbnr/pppppppp/8/8/8/8/PPPPPPPP/RNBQKBNR w KQkq - 0 1";

fn pos(fen: &str) -> Position {
    Position::from_board(chess::Board::from_str(fen).unwrap())
}

#[test]
fn popcount_counts_bits() {
    assert_eq!(popcount(0), 0);
    assert_eq!(popcount(1), 1);
    assert_eq!(popcount(0b1011), 3);
    assert_eq!(popcount(u64::MAX), 64);
    assert_eq!(popcount(1u64 << 63), 1);
}

#[test]
fn startpos_mirror_is_faithful() {
    let p = pos(STARTPOS);
    assert!(p.side_to_move());
    assert_eq!(popcount(p.color_bb(true)), 16);
    assert_eq!(popcount(p.color_bb(false)), 16);
    assert_eq!(popcount(p.piece_bb(Piece::Pawn)), 16);
    assert_eq!(popcount(p.piece_bb(Piece::Knight)), 4);
    assert_eq!(popcount(p.piece_bb(Piece::Bishop)), 4);
    assert_eq!(popcount(p.piece_bb(Piece::Rook)), 4);
    assert_eq!(popcount(p.piece_bb(Piece::Queen)), 2);
    assert_eq!(popcount(p.piece_bb(Piece::King)), 2);
    assert_eq!(popcount(p.occupancy()), 32);
    assert!(!p.in_check());
    assert_eq!(p.ep_square(), 64);
    // both sides still have both castling rights
    assert_eq!(p.castle_code(true), 3);
    assert_eq!(p.castle_code(false), 3);
}

#[test]
fn startpos_has_twenty_legal_moves() {
    let p = pos(STARTPOS);
    let moves = legal(&p);
    assert_eq!(moves.len(), 20);
    // all distinct and well formed
    for (i, m) in moves.iter().enumerate() {
        assert!(m.from < 64 && m.to < 64 && m.promo <= 4);
        for other in &moves[..i] {
            assert!(m != other);
        }
    }
}

#[test]
fn mirror_follows_played_moves() {
    let board = chess::Board::from_str(STARTPOS).unwrap();
    let p = Position::from_board(board);
    let e2e4 = chess::ChessMove::new(chess::Square::E2, chess::Square::E4, None);
    let q = Position::from_board(board.make_move_new(e2e4));
    assert!(p.side_to_move());
    assert!(!q.side_to_move());
    assert_eq!(popcount(q.occupancy()), 32);
    // a capture removes exactly one piece from the mirror
    let before = chess::Board::from_str("7k/8/8/3q4/8/8/8/3R3K w - - 0 1").unwrap();
    let rxq = chess::ChessMove::new(chess::Square::D1, chess::Square::D5, None);
    let after = Position::from_board(before.make_move_new(rxq));
    let cap_pos = Position::from_board(before);
    assert_eq!(popcount(after.occupancy()), popcount(cap_pos.occupancy()) - 1);
}

#[test]
fn hash_distinguishes_positions() {
    let a = pos(STARTPOS);
    let b = pos("rnbqkbnr/pppppppp/8/8/4P3/8/PPPP1PPP/RNBQKBNR b KQkq - 0 1");
    assert_ne!(a.hash(), b.hash());
}

#[test]
fn bad_position_text_is_rejected() {
    assert!(Position::new("not a position").is_none());
    assert!(Position::new(STARTPOS).is_some());
}

#[test]
fn check_is_detected() {
    // black king on e8 checked by the white rook on e1
    let p = pos("4k3/8/8/8/8/8/8/4R1K1 b - - 0 1");
    assert!(p.in_check());
}
