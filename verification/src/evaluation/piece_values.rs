use vstd::prelude::*;
use crate::bitboard_helpers::{count_ones, popcount, lemma_popcount_le_64, lemma_popcount_add_bit};
use crate::bits::{lemma_bits, lemma_bits_all, lemma_bit_single, lemma_bits_ext};
use crate::constants::bit;
use crate::constants::{PAWN, KNIGHT, BISHOP, ROOK, QUEEN};
use crate::position::board::Board;
use crate::position::piece_set::{PieceSet, Pieces};
use crate::evaluation::phase::{interp_phase, interp_spec, phase_spec};
use crate::evaluation::preliminary::PreEvalResult;

verus! {

/// Values of pawn, knight, bishop, rook and queen.
pub struct PieceValues {
    pub values: [i32; 5],
}

/// The piece values of the middlegame.
pub open spec fn midgame_values() -> Seq<i32> {
    seq![100i32, 300, 350, 455, 900]
}

/// The piece values of the endgame.
pub open spec fn endgame_values() -> Seq<i32> {
    seq![150i32, 300, 350, 550, 1000]
}

/// The material of one side by the values `v`.
pub open spec fn material(p: Pieces, v: Seq<i32>) -> int {
    popcount(p.pawns) * v[PAWN as int] + popcount(p.knights) * v[KNIGHT as int] + popcount(p.diagonals
        & !p.orthogonals) * v[BISHOP as int] + popcount(p.orthogonals & !p.diagonals) * v[ROOK as int]
        + popcount(p.diagonals & p.orthogonals) * v[QUEEN as int]
}

/// Each knight counts at the knight value, 300 in the middlegame and in the
/// endgame, and each pawn at 100 and 150: a knight or a pawn put on a square
/// where the side had none of that kind raises its material by that much.
pub proof fn law_knights_and_pawns_count(p: Pieces, sq: u64)
    requires
        sq < 64,
    ensures
        p.knights & (1u64 << sq) == 0 ==> material((Pieces { knights: p.knights | (1u64 << sq), ..p }),
            midgame_values()) == material(p, midgame_values()) + 300,
        p.knights & (1u64 << sq) == 0 ==> material((Pieces { knights: p.knights | (1u64 << sq), ..p }),
            endgame_values()) == material(p, endgame_values()) + 300,
        p.pawns & (1u64 << sq) == 0 ==> material((Pieces { pawns: p.pawns | (1u64 << sq), ..p }), midgame_values())
            == material(p, midgame_values()) + 100,
        p.pawns & (1u64 << sq) == 0 ==> material((Pieces { pawns: p.pawns | (1u64 << sq), ..p }), endgame_values())
            == material(p, endgame_values()) + 150,
{
    if p.knights & (1u64 << sq) == 0 {
        crate::bitboard_helpers::lemma_popcount_add_bit(p.knights, sq);
    }
    if p.pawns & (1u64 << sq) == 0 {
        crate::bitboard_helpers::lemma_popcount_add_bit(p.pawns, sq);
    }
}

proof fn lemma_add_square(x: u64, y: u64, sq: u64)
    requires
        sq < 64,
        !bit(x, sq as int),
        !bit(y, sq as int),
    ensures
        (x | (1u64 << sq)) & !y == (x & !y) | (1u64 << sq),
        (x | (1u64 << sq)) & y == x & y,
        (x | (1u64 << sq)) & !(y | (1u64 << sq)) == x & !y,
        (x | (1u64 << sq)) & (y | (1u64 << sq)) == (x & y) | (1u64 << sq),
        (x & !y) & (1u64 << sq) == 0,
        (x & y) & (1u64 << sq) == 0,
        y & !(x | (1u64 << sq)) == y & !x,
        y & (x | (1u64 << sq)) == y & x,
{
    let m = 1u64 << sq;
    lemma_bits_all(x, m);
    lemma_bits_all(y, m);
    lemma_bits_all(x | m, y);
    lemma_bits_all(x | m, !y);
    lemma_bits_all(x, y);
    lemma_bits_all(x, !y);
    lemma_bits_all(x & !y, m);
    lemma_bits_all(x & y, m);
    lemma_bits_all(x | m, y | m);
    lemma_bits_all(x | m, !(y | m));
    lemma_bits_all(y | m, x);
    assert forall|i: int| 0 <= i < 64 implies #[trigger] bit(m, i) == (i == sq) by {
        lemma_bit_single(sq as int, i);
    }
    lemma_bits_ext((x | m) & !y, (x & !y) | m);
    lemma_bits_ext((x | m) & y, x & y);
    lemma_bits_ext((x | m) & !(y | m), x & !y);
    lemma_bits_ext((x | m) & (y | m), (x & y) | m);
    lemma_bits_ext((x & !y) & m, 0);
    lemma_bits_ext((x & y) & m, 0);
    lemma_bits_all(y, x | m);
    lemma_bits_all(y, !(x | m));
    lemma_bits_all(x | m, y);
    lemma_bits_all(y, !x);
    lemma_bits_all(y, x);
    lemma_bits_ext(y & !(x | m), y & !x);
    lemma_bits_ext(y & (x | m), y & x);
    lemma_bits(x & !y, m, sq as int);
    lemma_bits(x & y, m, sq as int);
}

/// A bishop, rook or queen put on a square where the side has no slider
/// raises its material by the value of that piece: 350 and 350 for a bishop,
/// 455 and 550 for a rook, 900 and 1000 for a queen (middlegame and endgame).
pub proof fn law_sliders_count(p: Pieces, sq: u64)
    requires
        sq < 64,
        !bit(p.diagonals, sq as int),
        !bit(p.orthogonals, sq as int),
    ensures
        ({
            let bishop = Pieces { diagonals: p.diagonals | (1u64 << sq), ..p };
            let rook = Pieces { orthogonals: p.orthogonals | (1u64 << sq), ..p };
            let queen = Pieces {
                diagonals: p.diagonals | (1u64 << sq),
                orthogonals: p.orthogonals | (1u64 << sq),
                ..p
            };
            &&& material(bishop, midgame_values()) == material(p, midgame_values()) + 350
            &&& material(bishop, endgame_values()) == material(p, endgame_values()) + 350
            &&& material(rook, midgame_values()) == material(p, midgame_values()) + 455
            &&& material(rook, endgame_values()) == material(p, endgame_values()) + 550
            &&& material(queen, midgame_values()) == material(p, midgame_values()) + 900
            &&& material(queen, endgame_values()) == material(p, endgame_values()) + 1000
        }),
{
    let d = p.diagonals;
    let o = p.orthogonals;
    lemma_add_square(d, o, sq);
    lemma_add_square(o, d, sq);
    lemma_popcount_add_bit(d & !o, sq);
    lemma_popcount_add_bit(o & !d, sq);
    lemma_popcount_add_bit(d & o, sq);
    assert(o & d == d & o) by {
        lemma_bits_all(o, d);
        lemma_bits_all(d, o);
        lemma_bits_ext(o & d, d & o);
    }
    assert((o & d) | (1u64 << sq) == (d & o) | (1u64 << sq));
}

/// A side to move that is a knight up on an otherwise equal material balance
/// has a material term of exactly the knight's value, 300, in every phase.
pub proof fn law_knight_up_scores_300(us: Pieces, them: Pieces, sq: u64, phase: int)
    requires
        sq < 64,
        0 <= phase,
        us.knights & (1u64 << sq) == 0,
        material(us, midgame_values()) == material(them, midgame_values()),
        material(us, endgame_values()) == material(them, endgame_values()),
    ensures
        interp_spec(material((Pieces { knights: us.knights | (1u64 << sq), ..us }), midgame_values()) - material(
            them,
            midgame_values(),
        ), material((Pieces { knights: us.knights | (1u64 << sq), ..us }), endgame_values()) - material(
            them,
            endgame_values(),
        ), phase) == 300,
{
    law_knights_and_pawns_count(us, sq);
    assert(phase * 300 + (24 - phase) * 300 == 7200) by (nonlinear_arith);
}

/// The material balance of the side to move, blended by the phase.
pub open spec fn pieces_score(b: Board, phase: int) -> int {
    let us = b.pieces(b.us as int);
    let them = b.pieces(b.enemy as int);
    interp_spec(material(us, midgame_values()) - material(them, midgame_values()), material(us,
        endgame_values()) - material(them, endgame_values()), phase)
}

/// The material term is taken from the side to move: a side to move a
/// knight's worth ahead in both game stages scores +300, one a knight's
/// worth behind scores -300, and equal material scores 0, in every phase.
pub proof fn law_material_term_of_side_to_move(b: Board, phase: int)
    requires
        0 <= phase,
    ensures
        ({
            let us = b.pieces(b.us as int);
            let them = b.pieces(b.enemy as int);
            &&& material(us, midgame_values()) == material(them, midgame_values()) + 300 && material(us,
                endgame_values()) == material(them, endgame_values()) + 300 ==> pieces_score(b, phase) == 300
            &&& material(them, midgame_values()) == material(us, midgame_values()) + 300 && material(them,
                endgame_values()) == material(us, endgame_values()) + 300 ==> pieces_score(b, phase) == -300
            &&& material(us, midgame_values()) == material(them, midgame_values()) && material(us, endgame_values())
                == material(them, endgame_values()) ==> pieces_score(b, phase) == 0
        }),
{
    assert(phase * 300 + (24 - phase) * 300 == 7200) by (nonlinear_arith);
    assert(phase * -300 + (24 - phase) * -300 == -7200) by (nonlinear_arith);
    assert(phase * 0 + (24 - phase) * 0 == 0) by (nonlinear_arith);
}

/// The material balance of the side to move, blended by the phase.
pub fn evaluate_pieces(board: &Board, pre_eval_result: &PreEvalResult) -> (r: i32)
    requires
        board.us < 2,
        board.enemy < 2,
        0 <= pre_eval_result.phase <= 1024,
    ensures
        r == pieces_score(*board, pre_eval_result.phase as int),
        -1_000_000 <= r <= 1_000_000,
{
    let midgame = PieceValues { values: [100, 300, 350, 455, 900] };
    let endgame = PieceValues { values: [150, 300, 350, 550, 1000] };
    proof {
        assert(midgame.values@ =~= midgame_values());
        assert(endgame.values@ =~= endgame_values());
    }
    let ghost us = board.pieces(board.us as int);
    let ghost them = board.pieces(board.enemy as int);
    let midgame_sum = evaluate_pieces_w_vals(board.get_pieces(board.us), &midgame)
        - evaluate_pieces_w_vals(board.get_pieces(board.enemy), &midgame);
    let endgame_sum = evaluate_pieces_w_vals(board.get_pieces(board.us), &endgame)
        - evaluate_pieces_w_vals(board.get_pieces(board.enemy), &endgame);
    proof {
        crate::evaluation::phase::lemma_interp_fits(midgame_sum as int, endgame_sum as int,
            pre_eval_result.phase as int);
    }
    interp_phase(midgame_sum, endgame_sum, pre_eval_result.phase)
}

/// The material of one side by the given values.
fn evaluate_pieces_w_vals(piece_set: &PieceSet, piece_values: &PieceValues) -> (r: i32)
    requires
        forall|i: int| 0 <= i < 5 ==> 0 <= #[trigger] piece_values.values@[i] <= 1000,
    ensures
        r == material(piece_set@, piece_values.values@),
        0 <= r <= 320000,
{
    let ghost p = piece_set@;
    proof {
        lemma_popcount_le_64(p.pawns);
        lemma_popcount_le_64(p.knights);
        lemma_popcount_le_64(p.diagonals & !p.orthogonals);
        lemma_popcount_le_64(p.orthogonals & !p.diagonals);
        lemma_popcount_le_64(p.diagonals & p.orthogonals);
    }
    let v = &piece_values.values;
    let a = count_ones(piece_set.get_pawns()) as i32;
    let b = count_ones(piece_set.get_knights()) as i32;
    let c = count_ones(piece_set.get_bishops()) as i32;
    let d = count_ones(piece_set.get_rooks()) as i32;
    let e = count_ones(piece_set.get_queens()) as i32;
    let (va, vb, vc, vd, ve) = (v[PAWN], v[KNIGHT], v[BISHOP], v[ROOK], v[QUEEN]);
    proof {
        assert(0 <= a * va <= 64000 && 0 <= b * vb <= 64000 && 0 <= c * vc <= 64000 && 0 <= d * vd <= 64000
            && 0 <= e * ve <= 64000) by (nonlinear_arith)
            requires
                0 <= a <= 64, 0 <= b <= 64, 0 <= c <= 64, 0 <= d <= 64, 0 <= e <= 64,
                0 <= va <= 1000, 0 <= vb <= 1000, 0 <= vc <= 1000, 0 <= vd <= 1000, 0 <= ve <= 1000,
        ;
    }
    a * va + b * vb + c * vc + d * vd + e * ve
}

} // verus!
