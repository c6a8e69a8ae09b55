use vstd::prelude::*;
use crate::bitboard_helpers::{count_ones, popcount, lemma_popcount_le_64};
use crate::position::board::Board;
use crate::position::piece_set::{PieceSet, Pieces};

verus! {

pub const PAWN_PHASE_VALUE: u32 = 0;
pub const KNIGHT_PHASE_VALUE: u32 = 1;
pub const BISHOP_PHASE_VALUE: u32 = 1;
pub const ROOK_PHASE_VALUE: u32 = 2;
pub const QUEEN_PHASE_VALUE: u32 = 4;
/// The phase of the starting position: four knights, four bishops, four rooks, two queens.
pub const INIT_PHASE_VALUE: u32 = 24;

/// Division rounding toward zero, as Rust divides integers.
pub open spec fn trunc_div(a: int, b: int) -> int {
    if a >= 0 {
        a / b
    } else {
        -((-a) / b)
    }
}

/// The blend of a middlegame and an endgame value by the phase: the endgame
/// value at phase 0, the middlegame value above the starting phase, and the
/// weighted mean in between.
pub open spec fn interp_spec(mg: int, eg: int, phase: int) -> int {
    if phase == 0 {
        eg
    } else if phase > INIT_PHASE_VALUE {
        mg
    } else {
        trunc_div(phase * mg + (INIT_PHASE_VALUE - phase) * eg, INIT_PHASE_VALUE as int)
    }
}

/// The blend stays in 32 bits.
pub open spec fn interp_fits(mg: int, eg: int, phase: int) -> bool {
    phase == 0 || phase > INIT_PHASE_VALUE || (i32::MIN <= phase * mg <= i32::MAX && i32::MIN <= (
    INIT_PHASE_VALUE - phase) * eg <= i32::MAX && i32::MIN <= phase * mg + (INIT_PHASE_VALUE - phase) * eg
        <= i32::MAX && INIT_PHASE_VALUE - phase <= i32::MAX)
}

/// Values within a million blend without overflow into a value within a million.
pub proof fn lemma_interp_fits(mg: int, eg: int, phase: int)
    requires
        -1_000_000 <= mg <= 1_000_000,
        -1_000_000 <= eg <= 1_000_000,
        0 <= phase,
    ensures
        interp_fits(mg, eg, phase),
        -1_000_000 <= interp_spec(mg, eg, phase) <= 1_000_000,
{
    if phase != 0 && phase <= 24 {
        assert(-24_000_000 <= phase * mg <= 24_000_000) by (nonlinear_arith)
            requires
                0 < phase <= 24,
                -1_000_000 <= mg <= 1_000_000,
        ;
        assert(-24_000_000 <= (24 - phase) * eg <= 24_000_000) by (nonlinear_arith)
            requires
                0 < phase <= 24,
                -1_000_000 <= eg <= 1_000_000,
        ;
        let x = phase * mg + (24 - phase) * eg;
        assert(-24_000_000 <= x <= 24_000_000) by (nonlinear_arith)
            requires
                0 < phase <= 24,
                -1_000_000 <= mg <= 1_000_000,
                -1_000_000 <= eg <= 1_000_000,
                x == phase * mg + (24 - phase) * eg,
        ;
    }
}

/// The blend lies between the two values it blends.
pub proof fn lemma_interp_between(mg: int, eg: int, phase: int, lo: int, hi: int)
    requires
        lo <= mg <= hi,
        lo <= eg <= hi,
        0 <= phase,
    ensures
        lo <= interp_spec(mg, eg, phase) <= hi,
{
    if phase != 0 && phase <= 24 {
        let x = phase * mg + (24 - phase) * eg;
        assert(24 * lo <= x <= 24 * hi) by (nonlinear_arith)
            requires
                0 < phase <= 24,
                lo <= mg <= hi,
                lo <= eg <= hi,
                x == phase * mg + (24 - phase) * eg,
        ;
        assert(lo <= trunc_div(x, 24) <= hi) by (nonlinear_arith)
            requires
                24 * lo <= x <= 24 * hi,
        {
            if x >= 0 {
                assert(x / 24 * 24 <= x < x / 24 * 24 + 24);
            } else {
                assert((-x) / 24 * 24 <= -x < (-x) / 24 * 24 + 24);
            }
        }
    }
}

/// Blends a middlegame and an endgame value by the phase.
pub fn interp_phase(mg_val: i32, eg_val: i32, phase: i32) -> (r: i32)
    requires
        interp_fits(mg_val as int, eg_val as int, phase as int),
    ensures
        r == interp_spec(mg_val as int, eg_val as int, phase as int),
{
    if phase == 0 {
        eg_val
    } else if phase > INIT_PHASE_VALUE as i32 {
        mg_val
    } else {
        (phase * mg_val + (INIT_PHASE_VALUE as i32 - phase) * eg_val) / INIT_PHASE_VALUE as i32
    }
}

/// The phase contribution of one side: its minor pieces, rooks and queens.
pub open spec fn side_phase(p: Pieces) -> int {
    popcount(p.pawns) * PAWN_PHASE_VALUE + popcount(p.knights) * KNIGHT_PHASE_VALUE + popcount(p.diagonals
        & !p.orthogonals) * BISHOP_PHASE_VALUE + popcount(p.orthogonals & !p.diagonals) * ROOK_PHASE_VALUE
        + popcount(p.diagonals & p.orthogonals) * QUEEN_PHASE_VALUE
}

/// The phase of a position: 24 with all pieces, 0 with kings and pawns only.
pub open spec fn phase_spec(b: Board) -> int {
    side_phase(b.pieces(b.us as int)) + side_phase(b.pieces(b.enemy as int))
}

/// The phase of a position.
pub fn get_phase_val(board: &Board) -> (r: i32)
    requires
        board.us < 2,
        board.enemy < 2,
    ensures
        r == phase_spec(*board),
        0 <= r <= 1024,
{
    let ps1 = board.get_pieces(board.us);
    let ps2 = board.get_pieces(board.enemy);
    (count_pieceset_game_phase(ps1) + count_pieceset_game_phase(ps2)) as i32
}

/// The phase contribution of one side.
pub fn count_pieceset_game_phase(ps: &PieceSet) -> (r: u32)
    ensures
        r == side_phase(ps@),
        r <= 512,
{
    proof {
        lemma_popcount_le_64(ps@.pawns);
        lemma_popcount_le_64(ps@.knights);
        lemma_popcount_le_64(ps@.diagonals & !ps@.orthogonals);
        lemma_popcount_le_64(ps@.orthogonals & !ps@.diagonals);
        lemma_popcount_le_64(ps@.diagonals & ps@.orthogonals);
    }
    let mut sum = count_ones(ps.get_pawns()) * PAWN_PHASE_VALUE;
    sum = sum + count_ones(ps.get_knights()) * KNIGHT_PHASE_VALUE;
    sum = sum + count_ones(ps.get_bishops()) * BISHOP_PHASE_VALUE;
    sum = sum + count_ones(ps.get_rooks()) * ROOK_PHASE_VALUE;
    sum = sum + count_ones(ps.get_queens()) * QUEEN_PHASE_VALUE;
    sum
}

} // verus!
