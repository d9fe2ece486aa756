use std::str::FromStr;

use sunset::board::{Mv, Position};
use sunset::movepick::{HistoryTable, MovePicker};
use sunset::tt::TTEntry;

const STARTPOS: &str = "rnbqkbnr/pppppppp/8/8/8/8/PPPPPPPP/RNBQKBNR w KQkq - 0 1";

fn pos(fen: &str) -> Position {
    Position::from_board(chess::Board::from_str(fen).unwrap())
}

fn sq(file: u8, rank: u8) -> u8 {
    rank * 8 + file
}

fn drain(picker: &mut MovePicker, history: &HistoryTable) -> Vec<Mv> {
    let mut out = Vec::new();
    while let Some(m) = picker.next(history) {
        out.push(m);
    }
    out
}

#[test]
fn hinted_move_comes_first_and_only_once() {
    let p = pos(STARTPOS);
    let history = HistoryTable::new();
    // hint g1f3
    let hint = Mv { from: sq(6, 0), to: sq(5, 2), promo: 0 };
    let entry = TTEntry { mov: hint, score: 0, depth: 0 };
    let nulls = [Mv { from: 0, to: 0, promo: 0 }, Mv { from: 0, to: 0, promo: 0 }];
    let mut picker = MovePicker::new(&p, Some(&entry), nulls);
    let emitted = drain(&mut picker, &history);
    assert_eq!(emitted[0], hint);
    assert_eq!(emitted.iter().filter(|m| **m == hint).count(), 1);
    assert_eq!(emitted.len(), 20);
}

#[test]
fn illegal_hint_is_discarded() {
    let p = pos(STARTPOS);
    let history = HistoryTable::new();
    // a1a8 is not legal at the start
    let hint = Mv { from: sq(0, 0), to: sq(0, 7), promo: 0 };
    let entry = TTEntry { mov: hint, score: 0, depth: 0 };
    let nulls = [Mv { from: 0, to: 0, promo: 0 }, Mv { from: 0, to: 0, promo: 0 }];
    let mut picker = MovePicker::new(&p, Some(&entry), nulls);
    let emitted = drain(&mut picker, &history);
    assert_eq!(emitted.len(), 20);
    assert!(emitted.iter().all(|m| *m != hint));
}

#[test]
fn every_legal_move_is_emitted_exactly_once() {
    let p = pos(STARTPOS);
    let history = HistoryTable::new();
    let nulls = [Mv { from: 0, to: 0, promo: 0 }, Mv { from: 0, to: 0, promo: 0 }];
    let mut picker = MovePicker::new(&p, None, nulls);
    let emitted = drain(&mut picker, &history);
    let board = chess::Board::from_str(STARTPOS).unwrap();
    let generated: Vec<Mv> = chess::MoveGen::new_legal(&board)
        .map(|cm| Mv {
            from: cm.get_source().to_index() as u8,
            to: cm.get_dest().to_index() as u8,
            promo: 0,
        })
        .collect();
    assert_eq!(emitted.len(), generated.len());
    for m in &generated {
        assert_eq!(emitted.iter().filter(|e| *e == m).count(), 1);
    }
}

#[test]
fn winning_capture_is_emitted_before_quiets() {
    // white can take a free queen on d5 with the rook; that capture must
    // come out before any quiet move (no hint given).
    let p = pos("7k/8/8/3q4/8/8/8/3R3K w - - 0 1");
    let history = HistoryTable::new();
    let nulls = [Mv { from: 0, to: 0, promo: 0 }, Mv { from: 0, to: 0, promo: 0 }];
    let mut picker = MovePicker::new(&p, None, nulls);
    let emitted = drain(&mut picker, &history);
    let capture = Mv { from: sq(3, 0), to: sq(3, 4), promo: 0 };
    assert_eq!(emitted[0], capture);
}

#[test]
fn killer_is_emitted_before_other_quiets() {
    let p = pos(STARTPOS);
    let history = HistoryTable::new();
    let killer = Mv { from: sq(7, 1), to: sq(7, 3), promo: 0 }; // h2h4
    let killers = [killer, Mv { from: 0, to: 0, promo: 0 }];
    let mut picker = MovePicker::new(&p, None, killers);
    let emitted = drain(&mut picker, &history);
    // no captures at the start, so the killer leads
    assert_eq!(emitted[0], killer);
}

#[test]
fn history_score_orders_quiets() {
    let p = pos(STARTPOS);
    let mut history = HistoryTable::new();
    let liked = Mv { from: sq(0, 1), to: sq(0, 2), promo: 0 }; // a2a3
    history.bump(true, liked.from, liked.to, 5000);
    let nulls = [Mv { from: 0, to: 0, promo: 0 }, Mv { from: 0, to: 0, promo: 0 }];
    let mut picker = MovePicker::new(&p, None, nulls);
    let emitted = drain(&mut picker, &history);
    assert_eq!(emitted[0], liked);
}
