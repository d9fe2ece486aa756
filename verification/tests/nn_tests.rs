use std::str::FromStr;

use sunset::board::Position;
use sunset::nn::Nnue;

const STARTPOS: &str = "rnbqkbnr/pppppppp/8/8/8/8/PPPPPPPP/RNBQKBNR w KQkq - 0 1";

fn pos(fen: &str) -> Position {
    Position::from_board(chess::Board::from_str(fen).unwrap())
}

fn test_net() -> Nnue {
    let width = 4usize;
    let mut w1: Vec<Vec<i64>> = Vec::new();
    for f in 0..768usize {
        let mut row = Vec::new();
        for j in 0..width {
            row.push(((f * 31 + j * 7) % 41) as i64 - 20);
        }
        w1.push(row);
    }
    let b1 = vec![13, -9, 4, 0];
    let w2 = vec![3, -2, 5, 1];
    let b2 = 7;
    Nnue::new(w1, b1, w2, b2)
}

#[test]
fn zero_width_network_scores_zero() {
    let mut w1: Vec<Vec<i64>> = Vec::new();
    for _ in 0..768 {
        w1.push(Vec::new());
    }
    let mut net = Nnue::new(w1, Vec::new(), Vec::new(), 0);
    assert_eq!(net.eval(&pos(STARTPOS)), 0);
}

#[test]
fn incremental_matches_scratch_along_a_game() {
    // one evaluator walks the whole sequence incrementally; a fresh
    // evaluator recomputes each position from scratch; they must agree
    // exactly on every position.
    let fens = [
        STARTPOS,
        "rnbqkbnr/pppppppp/8/8/4P3/8/PPPP1PPP/RNBQKBNR b KQkq - 0 1",
        "rnbqkbnr/pppp1ppp/8/4p3/4P3/8/PPPP1PPP/RNBQKBNR w KQkq - 0 2",
        "rnbqkbnr/pppp1ppp/8/4p3/4P3/5N2/PPPP1PPP/RNBQKB1R b KQkq - 1 2",
        "r1bqkbnr/pppp1ppp/2n5/4p3/4P3/5N2/PPPP1PPP/RNBQKB1R w KQkq - 2 3",
        "r1bqkbnr/pppp1ppp/2n5/4p3/2B1P3/5N2/PPPP1PPP/RNBQK2R b KQkq - 3 3",
        // and back to the start, to force many bits to flip off again
        STARTPOS,
    ];
    let mut walker = test_net();
    for fen in fens.iter() {
        let p = pos(fen);
        let incremental = walker.eval(&p);
        let mut fresh = test_net();
        let scratch = fresh.eval(&p);
        assert_eq!(incremental, scratch, "diverged at {}", fen);
    }
}

#[test]
fn evaluation_depends_only_on_the_position() {
    // evaluating other positions in between must not change the score a
    // position gets.
    let a = pos(STARTPOS);
    let b = pos("7k/8/8/3q4/8/8/8/3R3K w - - 0 1");
    let mut net = test_net();
    let first = net.eval(&a);
    let _ = net.eval(&b);
    let again = net.eval(&a);
    assert_eq!(first, again);
}
