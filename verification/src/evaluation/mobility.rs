use vstd::prelude::*;
use crate::bitboard_helpers::{count_ones, pop_lsb, popcount, squares_of, lemma_squares_len, lemma_popcount_le_64};
use crate::constants::{KNIGHT, BISHOP, ROOK, QUEEN, FILES};
use crate::position::board::Board;
use crate::position::piece_set::{PieceSet, Pieces, all_of};
use crate::moving::move_generation::{MoveGenerator, pawn_attacks_all, pawn_attacks_spec};
use crate::moving::attacks::attacks_to_spec;
use crate::evaluation::phase::{interp_phase, interp_spec, lemma_interp_fits};

verus! {

pub const KNIGHT_MOBILITY: [i32; 9] = [-20, -10, -5, 0, 5, 10, 15, 20, 20];
pub const BISHOP_MOBILITY: [i32; 14] = [-20, -10, -5, 0, 5, 10, 15, 20, 25, 30, 30, 30, 30, 30];
pub const ROOK_MOBILITY: [i32; 15] = [-30, -20, -10, 0, 5, 10, 15, 20, 25, 30, 35, 40, 40, 40, 40];
pub const QUEEN_MOBILITY: [i32; 28] = [
    -20, -10, -5, 0, 5, 10, 5, 10, 10, 15, 15, 20, 20, 25, 25, 30, 30, 30, 30, 30, 30, 30, 30, 30, 30, 30, 30, 30,
];
pub const OPEN_FILE_BONUS: i32 = 60;
pub const HALF_OPEN_FILE_BONUS: i32 = 40;

/// A mobility table: bonuses between -30 and 40.
pub open spec fn table_ok(t: Seq<i32>) -> bool {
    t.len() > 0 && forall|i: int| 0 <= i < t.len() ==> -30 <= #[trigger] t[i] <= 40
}

/// The mobility bonus of the pieces of kind `piece` on the squares `sqs`: for
/// each, the table entry of the number of squares it attacks that hold no own
/// piece and no enemy pawn attack (the last entry for more).
pub open spec fn mobility_sum(mg: MoveGenerator, sqs: Seq<int>, piece: int, occ: u64, us: u64, color: int,
    table: Seq<i32>, pawn_attacks: u64) -> int
    decreases sqs.len(),
{
    if sqs.len() == 0 {
        0
    } else {
        let count = popcount(attacks_to_spec(mg, piece, sqs[0], occ, color) & !us & !pawn_attacks) as int;
        let idx = if count < table.len() - 1 { count } else { table.len() - 1 };
        table[idx] as int + mobility_sum(mg, sqs.drop_first(), piece, occ, us, color, table, pawn_attacks)
    }
}

/// The bonus of the rooks on `sqs` for files without own pawns: more when the
/// file has no enemy pawn either.
pub open spec fn rook_files_bonus(sqs: Seq<int>, pawns: u64, enemy_pawns: u64) -> int
    decreases sqs.len(),
{
    if sqs.len() == 0 {
        0
    } else {
        let f = FILES[sqs[0] % 8];
        let b: int = if f & pawns == 0 {
            if f & enemy_pawns == 0 { OPEN_FILE_BONUS as int } else { HALF_OPEN_FILE_BONUS as int }
        } else {
            0
        };
        b + rook_files_bonus(sqs.drop_first(), pawns, enemy_pawns)
    }
}

/// The mobility score of `color`: bishops, knights, rooks and queens, plus the
/// rook file bonus blended by the phase.
pub open spec fn mobility_score(mg: MoveGenerator, b: Board, color: int, enemy_color: int, phase: int) -> int {
    let p = b.pieces(color);
    let enemy_pawns = b.pieces(enemy_color).pawns;
    let pa = pawn_attacks_spec(enemy_pawns, color);
    let occ = b.occ();
    let us = all_of(p);
    mobility_sum(mg, squares_of(p.diagonals & !p.orthogonals), BISHOP as int, occ, us, color, BISHOP_MOBILITY@, pa)
        + mobility_sum(mg, squares_of(p.knights), KNIGHT as int, occ, us, color, KNIGHT_MOBILITY@, pa)
        + mobility_sum(mg, squares_of(p.orthogonals & !p.diagonals), ROOK as int, occ, us, color, ROOK_MOBILITY@, pa)
        + mobility_sum(mg, squares_of(p.diagonals & p.orthogonals), QUEEN as int, occ, us, color, QUEEN_MOBILITY@,
        pa) + interp_spec(rook_files_bonus(squares_of(p.orthogonals & !p.diagonals), p.pawns, enemy_pawns), 0, phase)
}

/// The mobility score of `color`, as the evaluation counts it.
pub fn score_mobility(board: &Board, mg: &MoveGenerator, color: usize, enemy_color: usize, phase: i32) -> (r: i32)
    requires
        color < 2,
        enemy_color < 2,
        0 <= phase,
    ensures
        r == mobility_score(*mg, *board, color as int, enemy_color as int, phase as int),
        -20000 <= r <= 20000,
{
    let pieces = board.get_pieces(color);
    let enemy_pawns = board.get_pieces(enemy_color).get_pawns();
    let pawn_attacks = pawn_attacks_all(enemy_pawns, color);
    let occ = board.get_occupancy();
    let us = pieces.get_all();
    proof {
        assert(table_ok(BISHOP_MOBILITY@));
        assert(table_ok(KNIGHT_MOBILITY@));
        assert(table_ok(ROOK_MOBILITY@));
        assert(table_ok(QUEEN_MOBILITY@));
    }
    let s1 = compute_mobility(mg, pieces.get_bishops(), BISHOP, occ, us, color, &BISHOP_MOBILITY, pawn_attacks);
    let s2 = compute_mobility(mg, pieces.get_knights(), KNIGHT, occ, us, color, &KNIGHT_MOBILITY, pawn_attacks);
    let s3 = compute_mobility(mg, pieces.get_rooks(), ROOK, occ, us, color, &ROOK_MOBILITY, pawn_attacks);
    let s4 = compute_mobility(mg, pieces.get_queens(), QUEEN, occ, us, color, &QUEEN_MOBILITY, pawn_attacks);
    let rook_bonus = open_file_rook(pieces, enemy_pawns);
    proof {
        lemma_interp_fits(rook_bonus as int, 0, phase as int);
        crate::evaluation::phase::lemma_interp_between(rook_bonus as int, 0, phase as int, 0, 3840);
    }
    let rook_bonus = interp_phase(rook_bonus, 0, phase);
    s1 + s2 + s3 + s4 + rook_bonus
}

/// The rook file bonus of a side.
fn open_file_rook(pieces: &PieceSet, enemy_pawns: u64) -> (r: i32)
    ensures
        r == rook_files_bonus(squares_of(pieces@.orthogonals & !pieces@.diagonals), pieces@.pawns, enemy_pawns),
        0 <= r <= 3840,
{
    let mut rooks = pieces.get_rooks();
    let pawns = pieces.get_pawns();
    let ghost r0 = rooks;
    let ghost mut done: int = 0;
    proof {
        lemma_squares_len(rooks);
    }
    let mut score: i32 = 0;
    while rooks != 0
        invariant
            0 <= done,
            done + squares_of(rooks).len() == squares_of(r0).len(),
            squares_of(r0).len() <= 64,
            0 <= score <= 60 * done,
            score + rook_files_bonus(squares_of(rooks), pawns, enemy_pawns) == rook_files_bonus(squares_of(r0),
                pawns, enemy_pawns),
        decreases rooks,
    {
        let ghost sq = squares_of(rooks);
        let rook_sq = pop_lsb(&mut rooks);
        let rook_file = rook_sq % 8;
        let file_bb = FILES[rook_file];
        if file_bb & pawns == 0 {
            if file_bb & enemy_pawns == 0 {
                score = score + OPEN_FILE_BONUS;
            } else {
                score = score + HALF_OPEN_FILE_BONUS;
            }
        }
        proof {
            assert(sq.drop_first() =~= squares_of(rooks));
            done = done + 1;
        }
    }
    score
}

/// The mobility bonus of the pieces of kind `piece` on `piece_mask`.
fn compute_mobility(mg: &MoveGenerator, piece_mask: u64, piece: usize, occ: u64, us: u64, color: usize,
    table: &[i32], pawn_attacks: u64) -> (r: i32)
    requires
        piece == KNIGHT || piece == BISHOP || piece == ROOK || piece == QUEEN,
        color < 2,
        table_ok(table@),
    ensures
        r == mobility_sum(*mg, squares_of(piece_mask), piece as int, occ, us, color as int, table@, pawn_attacks),
        -1920 <= r <= 2560,
{
    let mut piece_mask = piece_mask;
    let ghost m0 = piece_mask;
    let ghost mut done: int = 0;
    proof {
        lemma_squares_len(piece_mask);
    }
    let mut score: i32 = 0;
    while piece_mask != 0
        invariant
            piece == KNIGHT || piece == BISHOP || piece == ROOK || piece == QUEEN,
            color < 2,
            table_ok(table@),
            0 <= done,
            done + squares_of(piece_mask).len() == squares_of(m0).len(),
            squares_of(m0).len() <= 64,
            -30 * done <= score <= 40 * done,
            score + mobility_sum(*mg, squares_of(piece_mask), piece as int, occ, us, color as int, table@,
                pawn_attacks) == mobility_sum(*mg, squares_of(m0), piece as int, occ, us, color as int, table@,
                pawn_attacks),
        decreases piece_mask,
    {
        let ghost sq = squares_of(piece_mask);
        let s = pop_lsb(&mut piece_mask);
        let attacks = mg.attacks_from(piece, s, occ, color);
        let valid_moves = attacks & !us & !pawn_attacks;
        proof {
            lemma_popcount_le_64(valid_moves);
        }
        let count = count_ones(valid_moves) as usize;
        let idx = if count < table.len() - 1 { count } else { table.len() - 1 };
        score = score + table[idx];
        proof {
            assert(sq.drop_first() =~= squares_of(piece_mask));
            assert(-30 <= table@[idx as int] <= 40);
            done = done + 1;
        }
    }
    score
}

} // verus!
