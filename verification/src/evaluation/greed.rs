use vstd::prelude::*;
use crate::constants::{WHITE, BLACK};
use crate::position::board::Board;
use crate::evaluation::phase::{interp_phase, interp_spec};
use crate::evaluation::evaluator::Evaluator;

verus! {

/// b7 and g7, where a white queen grabs poisoned pawns.
pub const WHITE_POISON_SQUARES: u64 = 0x42000000000000;
/// b2 and g2, where a black queen grabs poisoned pawns.
pub const BLACK_POISON_SQUARES: u64 = 0x4200;
pub const EARLY_QUEEN_PENALTY: i32 = 60;

/// The penalty for queens on poisoned squares or on the far rank, white's
/// view, before blending.
pub open spec fn greed_raw(b: Board) -> int {
    let wq = b.pieces(WHITE as int).diagonals & b.pieces(WHITE as int).orthogonals;
    let bq = b.pieces(BLACK as int).diagonals & b.pieces(BLACK as int).orthogonals;
    (if wq & WHITE_POISON_SQUARES != 0 { -EARLY_QUEEN_PENALTY } else { 0int }) + (if bq & BLACK_POISON_SQUARES
        != 0 { EARLY_QUEEN_PENALTY as int } else { 0int }) + (if wq & 0xFF00000000000000 != 0 { -20int } else {
        0int
    }) + (if bq & 0xFF != 0 { 20int } else { 0int })
}

impl Evaluator {
    /// Penalises queens out hunting pawns early, white's view, fading with the phase.
    pub fn score_queen_greed(&self, board: &Board, phase: i32) -> (r: i32)
        requires
            0 <= phase <= 1024,
        ensures
            r == interp_spec(greed_raw(*board), 0, phase as int),
            -1_000_000 <= r <= 1_000_000,
    {
        let white_queens = board.get_pieces(WHITE).get_queens();
        let black_queens = board.get_pieces(BLACK).get_queens();
        let mut score: i32 = 0;
        if (white_queens & WHITE_POISON_SQUARES) != 0 {
            score = score - EARLY_QUEEN_PENALTY;
        }
        if (black_queens & BLACK_POISON_SQUARES) != 0 {
            score = score + EARLY_QUEEN_PENALTY;
        }
        let white_deep = white_queens & 0xFF00000000000000;
        if white_deep != 0 {
            score = score - 20;
        }
        let black_deep = black_queens & 0x00000000000000FF;
        if black_deep != 0 {
            score = score + 20;
        }
        proof {
            crate::evaluation::phase::lemma_interp_fits(score as int, 0, phase as int);
        }
        interp_phase(score, 0, phase)
    }
}

} // verus!
