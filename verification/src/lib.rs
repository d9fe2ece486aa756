//! A verified game-tree search engine core: iterative-deepening negamax with
//! alpha-beta pruning, quiescence search, a staged move picker with static
//! exchange evaluation, a shared transposition table, and a position
//! evaluator (a fixed piece-square table plus an incrementally updated
//! one-hidden-layer network over integer weights).
//!
//! Board representation, legal-move generation and move application are
//! consumed from the `chess` crate through a small set of trusted wrappers;
//! everything the engine decides on top of them is verified.

use vstd::prelude::*;

pub mod attacks;
pub mod board;
pub mod eval;
pub mod movepick;
pub mod nn;
pub mod report;
pub mod search;
pub mod tt;

verus! {

/// Score bound: mate scores start from `-INF` at the root; every other
/// score lies strictly inside the band.
pub const INF: i32 = 10000;

/// Ceiling on search depth and ply indices.
pub const MAX_PLY: usize = 100;

/// Offset added to the exchange score of a capture that loses material, so
/// that such captures sort into a distinct band below even captures.
pub const LOSING_CAPTURE: i64 = -1000000;

} // verus!
