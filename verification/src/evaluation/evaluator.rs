use vstd::prelude::*;
use crate::constants::{WHITE, BLACK};
use crate::position::board::Board;
use crate::moving::move_generation::MoveGenerator;
use crate::evaluation::pawn_structure::{PawnEvalHashTable, cache_correct, pawn_scores};
use crate::evaluation::piece_values::{evaluate_pieces, pieces_score};
use crate::evaluation::mobility::{score_mobility, mobility_score};
use crate::evaluation::king_safety::king_safety_score;
use crate::evaluation::greed::greed_raw;
use crate::evaluation::phase::{interp_spec, phase_spec, lemma_interp_fits};

verus! {

/// The evaluation function with its pawn-structure cache.
pub struct Evaluator {
    pub pawn_hash: PawnEvalHashTable,
}

/// The evaluation of a position from the view of the side to move: material
/// (from the side to move), pawn structure, king safety, mobility and queen
/// greed (from white), the sum negated when black is to move.
pub open spec fn evaluation(mg: MoveGenerator, b: Board) -> int {
    let phase = phase_spec(b);
    let w = b.pieces(WHITE as int).pawns;
    let bl = b.pieces(BLACK as int).pawns;
    let score = pieces_score(b, phase) + interp_spec(pawn_scores(w, bl).0, pawn_scores(w, bl).1, phase)
        + king_safety_score(mg, b) + (mobility_score(mg, b, WHITE as int, BLACK as int, phase) - mobility_score(
        mg, b, BLACK as int, WHITE as int, phase)) + interp_spec(greed_raw(b), 0, phase);
    if b.us == WHITE { score } else { -score }
}

/// The evaluation reads a board only through its view.
pub proof fn lemma_evaluation_reads_view(mg: MoveGenerator, b1: Board, b2: Board)
    requires
        crate::moving::generation::same_board(b1, b2),
    ensures
        evaluation(mg, b1) == evaluation(mg, b2),
{
    crate::moving::generation::lemma_same_board_reads(b1, b2);
    assert(b1.pieces(WHITE as int) == b2.pieces(WHITE as int));
    assert(b1.pieces(BLACK as int) == b2.pieces(BLACK as int));
    assert(phase_spec(b1) == phase_spec(b2));
    assert(pieces_score(b1, phase_spec(b1)) == pieces_score(b2, phase_spec(b2)));
    assert(king_safety_score(mg, b1) == king_safety_score(mg, b2));
    assert(mobility_score(mg, b1, WHITE as int, BLACK as int, phase_spec(b1)) == mobility_score(mg, b2, WHITE as int,
        BLACK as int, phase_spec(b2)));
    assert(mobility_score(mg, b1, BLACK as int, WHITE as int, phase_spec(b1)) == mobility_score(mg, b2, BLACK as int,
        WHITE as int, phase_spec(b2)));
    assert(greed_raw(b1) == greed_raw(b2));
}

/// A position the evaluation can take: sides set and both kings on the board.
pub open spec fn eval_ready(b: Board) -> bool {
    &&& (b.us == WHITE && b.enemy == BLACK) || (b.us == BLACK && b.enemy == WHITE)
    &&& b.pieces(WHITE as int).king != 0
    &&& b.pieces(BLACK as int).king != 0
}

impl Evaluator {
    /// An evaluator with an empty cache.
    pub fn new() -> (r: Self)
        ensures
            cache_correct(r.pawn_hash),
    {
        Evaluator { pawn_hash: PawnEvalHashTable::new() }
    }

    /// The evaluation of the position from the view of the side to move.
    pub fn evaluate(&mut self, board: &Board, mg: &MoveGenerator) -> (r: i32)
        requires
            cache_correct(old(self).pawn_hash),
            eval_ready(*board),
        ensures
            cache_correct(final(self).pawn_hash),
            r == evaluation(*mg, *board),
    {
        let pre_eval_result = self.run_pre_eval(board);
        let pieces = evaluate_pieces(board, &pre_eval_result);
        let pawn_score = self.score_pawns(board, &pre_eval_result);
        let king_safety = self.evaluate_king_safety(board, mg);
        let mobility_score = score_mobility(board, mg, WHITE, BLACK, pre_eval_result.phase) - score_mobility(board,
            mg, BLACK, WHITE, pre_eval_result.phase);
        let greed_score = self.score_queen_greed(board, pre_eval_result.phase);
        let score = pieces + pawn_score + king_safety + mobility_score + greed_score;
        if board.us == WHITE {
            score
        } else {
            -score
        }
    }
}

impl Default for Evaluator {
    fn default() -> (r: Self)
        ensures
            cache_correct(r.pawn_hash),
    {
        Self::new()
    }
}

} // verus!
