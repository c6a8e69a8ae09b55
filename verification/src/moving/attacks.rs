use vstd::prelude::*;
use crate::constants::{bit, PAWN, KNIGHT, BISHOP, ROOK, QUEEN, KING, WHITE, BLACK};
use crate::bitboard_helpers::{get_lsb, lsb};
use crate::position::board::Board;
use crate::position::piece_set::Pieces;
use crate::moving::move_generation::MoveGenerator;

verus! {

/// The pieces `p` of `color` attacking square `sq` when `occ` holds the blockers.
pub open spec fn attackers_spec(mg: MoveGenerator, p: Pieces, sq: int, occ: u64, color: int) -> u64 {
    (mg.pawn_to_bb(color, sq) & p.pawns)
    | (mg.knight_bb(sq) & p.knights)
    | (mg.slider_bb(true, sq, occ) & p.orthogonals)
    | (mg.slider_bb(false, sq, occ) & p.diagonals)
    | (mg.king_bb(sq) & p.king)
}

/// Squares a piece of kind `piece` and side `color` on `sq` attacks, as the
/// tables give them (a pawn's entry being the squares from which a pawn of
/// `color` attacks `sq`).
pub open spec fn attacks_to_spec(mg: MoveGenerator, piece: int, sq: int, occ: u64, color: int) -> u64 {
    if piece == PAWN {
        mg.pawn_to_bb(color, sq)
    } else if piece == KNIGHT {
        mg.knight_bb(sq)
    } else if piece == BISHOP {
        mg.slider_bb(false, sq, occ)
    } else if piece == ROOK {
        mg.slider_bb(true, sq, occ)
    } else if piece == QUEEN {
        mg.slider_bb(true, sq, occ) | mg.slider_bb(false, sq, occ)
    } else {
        mg.king_bb(sq)
    }
}

impl MoveGenerator {
    /// The pieces of `color` attacking the square of `k_sq` (its lowest set bit).
    pub fn attackers_to_exist(&self, board: &Board, k_sq: u64, occ: u64, color: usize) -> (r: u64)
        requires
            k_sq != 0,
            color < 2,
        ensures
            r == attackers_spec(*self, board.pieces(color as int), lsb(k_sq), occ, color as int),
    {
        let pieces = board.get_pieces(color);
        let k_i = get_lsb(&k_sq);
        (self.get_pawn_attacks(k_i, color) & pieces.get_pawns())
        | (self.get_knight_attacks(k_i) & pieces.get_knights())
        | (self.get_rook_attacks(k_i, occ) & pieces.get_orthogonals())
        | (self.get_bishop_attacks(k_i, occ) & pieces.get_diagonals())
        | (self.get_king_attacks(k_i) & pieces.get_king())
    }

    /// The attack entry of a piece of kind `piece` on `sq` (see `attacks_to_spec`).
    pub fn attacks_to(&self, piece: usize, sq: usize, occ: u64, color: usize) -> (r: u64)
        requires
            piece <= KING,
            sq < 64,
            color < 2,
        ensures
            r == attacks_to_spec(*self, piece as int, sq as int, occ, color as int),
    {
        if piece == PAWN {
            self.get_pawn_attacks(sq, color)
        } else if piece == KNIGHT {
            self.get_knight_attacks(sq)
        } else if piece == BISHOP {
            self.get_bishop_attacks(sq, occ)
        } else if piece == ROOK {
            self.get_rook_attacks(sq, occ)
        } else if piece == QUEEN {
            self.get_rook_attacks(sq, occ) | self.get_bishop_attacks(sq, occ)
        } else {
            self.get_king_attacks(sq)
        }
    }

    /// Squares a piece of kind `piece` and side `color` on `sq` attacks.
    pub fn attacks_from(&self, piece: usize, sq: usize, occ: u64, color: usize) -> (r: u64)
        requires
            piece <= KING,
            sq < 64,
            color < 2,
        ensures
            piece == PAWN ==> r == self.pawn_to_bb(1 - color, sq as int),
            piece != PAWN ==> r == attacks_to_spec(*self, piece as int, sq as int, occ, color as int),
    {
        if piece == PAWN {
            self.pawn_attacks_from(sq, color)
        } else {
            self.attacks_to(piece, sq, occ, color)
        }
    }

    /// Squares a pawn of `color` on `sq` attacks: those from which a pawn of
    /// the other side would attack `sq`.
    pub fn pawn_attacks_from(&self, sq: usize, color: usize) -> (r: u64)
        requires
            sq < 64,
            color < 2,
        ensures
            r == self.pawn_to_bb(1 - color, sq as int),
    {
        if color == WHITE {
            self.get_pawn_attacks(sq, BLACK)
        } else {
            self.get_pawn_attacks(sq, WHITE)
        }
    }
}

/// The squares a rook on the lowest square of `square` attacks through `occupancy`.
pub fn orthogonal_attacks_to(mg: &MoveGenerator, square: u64, occupancy: u64) -> (r: u64)
    requires
        square != 0,
    ensures
        r == mg.slider_bb(true, lsb(square), occupancy),
{
    let square_i = get_lsb(&square);
    mg.get_rook_attacks(square_i, occupancy)
}

/// The squares a rook on the lowest square of `square` attacks through `occupancy`.
pub fn orthogonal_attacks_from(mg: &MoveGenerator, square: u64, occupancy: u64) -> (r: u64)
    requires
        square != 0,
    ensures
        r == mg.slider_bb(true, lsb(square), occupancy),
{
    let square_i = get_lsb(&square);
    mg.get_rook_attacks(square_i, occupancy)
}

/// The squares a bishop on the lowest square of `square` attacks through `occupancy`.
pub fn diagonal_attacks_to(mg: &MoveGenerator, square: u64, occupancy: u64) -> (r: u64)
    requires
        square != 0,
    ensures
        r == mg.slider_bb(false, lsb(square), occupancy),
{
    let square_i = get_lsb(&square);
    mg.get_bishop_attacks(square_i, occupancy)
}

/// The squares a bishop on the lowest square of `square` attacks through `occupancy`.
pub fn diagonal_attacks_from(mg: &MoveGenerator, square: u64, occupancy: u64) -> (r: u64)
    requires
        square != 0,
    ensures
        r == mg.slider_bb(false, lsb(square), occupancy),
{
    let square_i = get_lsb(&square);
    mg.get_bishop_attacks(square_i, occupancy)
}

} // verus!
