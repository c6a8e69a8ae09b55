use vstd::prelude::*;
use crate::bitboard_helpers::{count_ones, get_lsb, pop_lsb, popcount, lsb, squares_of, lemma_squares_len,
    lemma_popcount_le_64};
use crate::constants::{KNIGHT, BISHOP, ROOK, QUEEN, WHITE, BLACK};
use crate::position::board::Board;
use crate::position::piece_set::{PieceSet, Pieces};
use crate::moving::move_generation::MoveGenerator;
use crate::moving::attacks::attacks_to_spec;
use crate::evaluation::phase::trunc_div;
use crate::evaluation::evaluator::Evaluator;

verus! {

pub const ONE_SQUARE_PENALTY: i32 = -10;
pub const TWO_SQUARE_PENALTY: i32 = -25;
pub const OPEN_FILE_PENALTY: i32 = -50;
pub const PIECE_ATTACK_CONSTANTS: [u32; 6] = [10, 20, 20, 40, 80, 0];
pub const ATTACK_WEIGHT: [u32; 7] = [0, 10, 40, 60, 75, 85, 100];
/// The material, in phase units, of two knights, two bishops, two rooks and a queen.
pub const MAX_MATERIAL_VALUE: u32 = 12;

/// The squares around a king on `king_sq`, and one rank further on the side
/// of its own camp.
pub open spec fn king_zone(mg: MoveGenerator, king_sq: int, color: int) -> u64 {
    let a = mg.king_bb(king_sq);
    if color == WHITE { a | (a << 8u64) } else { a | (a >> 8u64) }
}

/// The attack value and the number of attackers of the pieces of kind `kind`
/// on `sqs` against the squares `zone`.
pub open spec fn zone_attacks(mg: MoveGenerator, sqs: Seq<int>, kind: int, occ: u64, zone: u64) -> (int, int)
    decreases sqs.len(),
{
    if sqs.len() == 0 {
        (0, 0)
    } else {
        let att = attacks_to_spec(mg, kind, sqs[0], occ, WHITE as int) & zone;
        let rest = zone_attacks(mg, sqs.drop_first(), kind, occ, zone);
        if att != 0 {
            (rest.0 + popcount(att) * PIECE_ATTACK_CONSTANTS[kind], rest.1 + 1)
        } else {
            rest
        }
    }
}

/// The penalty for the attacks of `enemy` against the zone of the king on
/// `king_sq`: the attack value weighted by the number of attackers.
pub open spec fn zone_score(mg: MoveGenerator, king_sq: int, enemy: Pieces, color: int, occ: u64) -> int {
    let zone = king_zone(mg, king_sq, color);
    let n = zone_attacks(mg, squares_of(enemy.knights), KNIGHT as int, occ, zone);
    let b = zone_attacks(mg, squares_of(enemy.diagonals & !enemy.orthogonals), BISHOP as int, occ, zone);
    let r = zone_attacks(mg, squares_of(enemy.orthogonals & !enemy.diagonals), ROOK as int, occ, zone);
    let q = zone_attacks(mg, squares_of(enemy.diagonals & enemy.orthogonals), QUEEN as int, occ, zone);
    let value = n.0 + b.0 + r.0 + q.0;
    let count = n.1 + b.1 + r.1 + q.1;
    -trunc_div(value * ATTACK_WEIGHT[if count < 6 { count } else { 6 }], 100)
}

/// Whether `pawns` holds the square `s`, the shift wrapping as a release build wraps it.
pub open spec fn pawn_at_wrapped(pawns: u64, s: int) -> bool {
    pawns & (1u64 << ((s as u32) % 64)) != 0
}

/// The penalty for the file of `sq` in front of the king, stepping `8 * dir`.
pub open spec fn file_penalty(sq: int, dir: int, pawns: u64) -> int {
    let s1 = sq + 8 * dir;
    if !(0 <= s1 < 64) {
        0
    } else if pawns & (1u64 << (s1 as u64)) != 0 {
        0
    } else if pawn_at_wrapped(pawns, s1 + 8 * dir) {
        ONE_SQUARE_PENALTY as int
    } else if pawn_at_wrapped(pawns, s1 + 16 * dir) {
        TWO_SQUARE_PENALTY as int
    } else {
        OPEN_FILE_PENALTY as int
    }
}

/// The pawn shield penalty of a king: none on the d and e files, else the
/// penalties of its file and the neighbouring ones.
pub open spec fn shield_score(king: u64, dir: int, pawns: u64) -> int {
    let k = lsb(king);
    let file = k % 8;
    if file == 3 || file == 4 {
        0
    } else {
        (if file > 0 { file_penalty(k - 1, dir, pawns) } else { 0 }) + file_penalty(k, dir, pawns) + (if file < 7 {
            file_penalty(k + 1, dir, pawns)
        } else {
            0
        })
    }
}

/// The own material in phase units (knights and bishops 1, rooks 2, queens 4).
pub open spec fn own_material(p: Pieces) -> int {
    (popcount(p.knights) + popcount(p.diagonals & !p.orthogonals) + popcount(p.orthogonals & !p.diagonals) * 2
        + popcount(p.diagonals & p.orthogonals) * 4) as int
}

/// King safety from white's view: each side's zone and shield score, scaled by
/// the material of the other side.
pub open spec fn king_safety_score(mg: MoveGenerator, b: Board) -> int {
    let w = b.pieces(WHITE as int);
    let bl = b.pieces(BLACK as int);
    let ws = zone_score(mg, lsb(w.king), bl, WHITE as int, b.occ()) + shield_score(w.king, 8, w.pawns);
    let bs = zone_score(mg, lsb(bl.king), w, BLACK as int, b.occ()) + shield_score(bl.king, -8, bl.pawns);
    trunc_div(own_material(bl) * ws, MAX_MATERIAL_VALUE as int) - trunc_div(own_material(w) * bs,
        MAX_MATERIAL_VALUE as int)
}

/// The squares around a king on `king_sq`, and one rank further on the side
/// of its own camp.
fn find_king_zone(king_sq: usize, mg: &MoveGenerator, color: usize) -> (r: u64)
    requires
        king_sq < 64,
    ensures
        r == king_zone(*mg, king_sq as int, color as int),
{
    let king_attack = mg.get_king_attacks(king_sq);
    if color == WHITE {
        king_attack | (king_attack << 8)
    } else {
        king_attack | (king_attack >> 8)
    }
}

/// The own material in phase units, times `score`, over the full material.
fn interp_by_my_material(score: i32, pieces: &PieceSet) -> (r: i32)
    requires
        -2_000_000 <= score <= 0,
    ensures
        r == trunc_div(own_material(pieces@) * score, MAX_MATERIAL_VALUE as int),
        -100_000_000 <= r <= 0,
{
    proof {
        lemma_popcount_le_64(pieces@.knights);
        lemma_popcount_le_64(pieces@.diagonals & !pieces@.orthogonals);
        lemma_popcount_le_64(pieces@.orthogonals & !pieces@.diagonals);
        lemma_popcount_le_64(pieces@.diagonals & pieces@.orthogonals);
    }
    let knights = count_ones(pieces.get_knights());
    let bishops = count_ones(pieces.get_bishops());
    let rooks = count_ones(pieces.get_rooks());
    let queens = count_ones(pieces.get_queens());
    let material_val = knights * 1 + bishops * 1 + rooks * 2 + queens * 4;
    let material_val = material_val as i32;
    proof {
        assert(-1_024_000_000 <= material_val * score <= 0) by (nonlinear_arith)
            requires
                0 <= material_val <= 512,
                -2_000_000 <= score <= 0,
        ;
    }
    let r = material_val * score / MAX_MATERIAL_VALUE as i32;
    proof {
        assert(-100_000_000 <= trunc_div(material_val * score, 12) <= 0) by (nonlinear_arith)
            requires
                -1_024_000_000 <= material_val * score <= 0,
        {
            let x = material_val * score;
            assert((-x) / 12 * 12 <= -x);
        }
    }
    r
}

/// Adds the attacks of the pieces of kind `kind` on `mask` into `zone`.
fn add_zone_attacks(mg: &MoveGenerator, mask: u64, kind: usize, occ: u64, zone: u64) -> (r: (u32, u32))
    requires
        kind == KNIGHT || kind == BISHOP || kind == ROOK || kind == QUEEN,
    ensures
        r.0 == zone_attacks(*mg, squares_of(mask), kind as int, occ, zone).0,
        r.1 == zone_attacks(*mg, squares_of(mask), kind as int, occ, zone).1,
        r.0 <= 327680,
        r.1 <= 64,
{
    let mut pieces = mask;
    let ghost m0 = pieces;
    let ghost mut done: int = 0;
    proof {
        lemma_squares_len(pieces);
    }
    let mut value: u32 = 0;
    let mut count: u32 = 0;
    while pieces != 0
        invariant
            kind == KNIGHT || kind == BISHOP || kind == ROOK || kind == QUEEN,
            0 <= done,
            done + squares_of(pieces).len() == squares_of(m0).len(),
            squares_of(m0).len() <= 64,
            value <= 5120 * done,
            count <= done,
            value + zone_attacks(*mg, squares_of(pieces), kind as int, occ, zone).0 == zone_attacks(*mg, squares_of(
                m0), kind as int, occ, zone).0,
            count + zone_attacks(*mg, squares_of(pieces), kind as int, occ, zone).1 == zone_attacks(*mg, squares_of(
                m0), kind as int, occ, zone).1,
        decreases pieces,
    {
        let ghost sq = squares_of(pieces);
        let s = pop_lsb(&mut pieces);
        let attacks = mg.attacks_to(kind, s, occ, WHITE) & zone;
        if attacks != 0 {
            proof {
                lemma_popcount_le_64(attacks);
            }
            count = count + 1;
            value = value + count_ones(attacks) * PIECE_ATTACK_CONSTANTS[kind];
        }
        proof {
            assert(sq.drop_first() =~= squares_of(pieces));
            done = done + 1;
        }
    }
    (value, count)
}

impl Evaluator {
    /// King safety from white's view.
    pub fn evaluate_king_safety(&self, board: &Board, mg: &MoveGenerator) -> (r: i32)
        requires
            board.pieces(WHITE as int).king != 0,
            board.pieces(BLACK as int).king != 0,
        ensures
            r == king_safety_score(*mg, *board),
            -100_000_000 <= r <= 100_000_000,
    {
        let white_pieces = board.get_pieces(WHITE);
        let black_pieces = board.get_pieces(BLACK);
        let white_king = white_pieces.get_king();
        let black_king = black_pieces.get_king();
        let white_safety = self.score_king_zone_attacks_simp(get_lsb(&white_king), black_pieces, WHITE,
            board.get_occupancy(), mg);
        let black_safety = self.score_king_zone_attacks_simp(get_lsb(&black_king), white_pieces, BLACK,
            board.get_occupancy(), mg);
        let white_shield = self.calculate_shield(white_king, 8, white_pieces.get_pawns());
        let black_shield = self.calculate_shield(black_king, -8, black_pieces.get_pawns());
        let white_score = interp_by_my_material(white_safety + white_shield, black_pieces);
        let black_score = interp_by_my_material(black_safety + black_shield, white_pieces);
        white_score - black_score
    }

    /// The pawn shield penalty of a king.
    fn calculate_shield(&self, king: u64, dir: i32, pawns: u64) -> (r: i32)
        requires
            king != 0,
            dir == 8 || dir == -8,
        ensures
            r == shield_score(king, dir as int, pawns),
            -150 <= r <= 0,
    {
        let king_sq = get_lsb(&king) as i32;
        let file = king_sq % 8;
        if file == 3 || file == 4 {
            return 0;
        }
        let mut score: i32 = 0;
        if file > 0 {
            score = score + self.king_shield_file_pen(king_sq - 1, dir, pawns);
        }
        score = score + self.king_shield_file_pen(king_sq, dir, pawns);
        if file < 7 {
            score = score + self.king_shield_file_pen(king_sq + 1, dir, pawns);
        }
        score
    }

    /// The penalty for one file of the shield.
    fn king_shield_file_pen(&self, sq: i32, dir: i32, pawns: u64) -> (r: i32)
        requires
            -1 <= sq <= 64,
            dir == 8 || dir == -8,
        ensures
            r == file_penalty(sq as int, dir as int, pawns),
            -50 <= r <= 0,
    {
        let s1 = sq + 8 * dir;
        if !(0 <= s1 && s1 < 64) {
            return 0;
        }
        let sq_bb = 1u64 << (s1 as u64);
        if pawns & sq_bb != 0 {
            return 0;
        }
        let s2 = s1 + 8 * dir;
        let sq_bb = 1u64 << ((#[verifier::truncate] (s2 as u32)) % 64);
        if pawns & sq_bb != 0 {
            return ONE_SQUARE_PENALTY;
        }
        let s3 = s2 + 8 * dir;
        let sq_bb = 1u64 << ((#[verifier::truncate] (s3 as u32)) % 64);
        if pawns & sq_bb != 0 {
            TWO_SQUARE_PENALTY
        } else {
            OPEN_FILE_PENALTY
        }
    }

    /// The penalty for the attacks of `enemy_pieces` on the zone of the king on `king_sq`.
    fn score_king_zone_attacks_simp(&self, king_sq: usize, enemy_pieces: &PieceSet, color: usize, occ: u64,
        mg: &MoveGenerator) -> (r: i32)
        requires
            king_sq < 64,
        ensures
            r == zone_score(*mg, king_sq as int, enemy_pieces@, color as int, occ),
            -1_400_000 <= r <= 0,
    {
        let king_zone = find_king_zone(king_sq, mg, color);
        let (v1, c1) = add_zone_attacks(mg, enemy_pieces.get_knights(), KNIGHT, occ, king_zone);
        let (v2, c2) = add_zone_attacks(mg, enemy_pieces.get_bishops(), BISHOP, occ, king_zone);
        let (v3, c3) = add_zone_attacks(mg, enemy_pieces.get_rooks(), ROOK, occ, king_zone);
        let (v4, c4) = add_zone_attacks(mg, enemy_pieces.get_queens(), QUEEN, occ, king_zone);
        let attack_value = v1 + v2 + v3 + v4;
        let attack_count = c1 + c2 + c3 + c4;
        let w = ATTACK_WEIGHT[if attack_count < 6 { attack_count as usize } else { 6 }];
        proof {
            assert(attack_value * w <= 131_072_000) by (nonlinear_arith)
                requires
                    attack_value <= 1310720,
                    w <= 100,
            ;
        }
        let product = (attack_value * w) as i32;
        proof {
            assert(0 <= product / 100 <= 1_400_000);
        }
        -(product / 100)
    }
}

} // verus!
