use vstd::prelude::*;
use crate::constants::{WHITE, BLACK, FILES};
use crate::position::board::Board;
use crate::evaluation::phase::{get_phase_val, phase_spec};
use crate::evaluation::evaluator::Evaluator;

verus! {

/// What the evaluation terms share: per side the files without its own
/// pawns but with enemy pawns, the files without any pawn, and the phase.
pub struct PreEvalResult {
    pub half_open_files: [u64; 2],
    pub open_files: u64,
    pub phase: i32,
}

/// The union of the files among the first `k` that hold no pawn of `pawns`.
pub open spec fn empty_files(pawns: u64, k: int) -> u64
    decreases k,
{
    if k <= 0 {
        0
    } else {
        let f = FILES[k - 1];
        if f & pawns == 0 {
            empty_files(pawns, k - 1) | f
        } else {
            empty_files(pawns, k - 1)
        }
    }
}

/// The files without any pawn of either side.
pub open spec fn open_files_of(b: Board) -> u64 {
    empty_files(b.pieces(WHITE as int).pawns, 8) & empty_files(b.pieces(BLACK as int).pawns, 8)
}

/// The files without pawns of `color` that hold enemy pawns.
pub open spec fn half_open_files_of(b: Board, color: int) -> u64 {
    empty_files(b.pieces(color).pawns, 8) & !open_files_of(b)
}

/// The files of the board without a pawn of `pawns`.
fn files_without(pawns: u64) -> (r: u64)
    ensures
        r == empty_files(pawns, 8),
{
    let mut result: u64 = 0;
    let mut f: usize = 0;
    while f < 8
        invariant
            f <= 8,
            result == empty_files(pawns, f as int),
        decreases 8 - f,
    {
        let file = FILES[f];
        if file & pawns == 0 {
            result = result | file;
        }
        f = f + 1;
    }
    result
}

impl Evaluator {
    /// Computes the open and half-open files and the phase.
    pub fn run_pre_eval(&self, board: &Board) -> (r: PreEvalResult)
        requires
            board.us < 2,
            board.enemy < 2,
        ensures
            r.open_files == open_files_of(*board),
            r.half_open_files[WHITE as int] == half_open_files_of(*board, WHITE as int),
            r.half_open_files[BLACK as int] == half_open_files_of(*board, BLACK as int),
            r.phase == phase_spec(*board),
            0 <= r.phase <= 1024,
    {
        let white_files = files_without(board.players[WHITE].get_pawns());
        let black_files = files_without(board.players[BLACK].get_pawns());
        let open_files = black_files & white_files;
        let mut half_open_files_arr = [0u64, 0u64];
        half_open_files_arr[BLACK] = black_files & !open_files;
        half_open_files_arr[WHITE] = white_files & !open_files;
        proof {
            crate::bits::lemma_bit_identities(black_files, white_files);
        }
        let phase = get_phase_val(board);
        PreEvalResult { half_open_files: half_open_files_arr, open_files, phase }
    }
}

} // verus!
