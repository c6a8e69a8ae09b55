use vstd::prelude::*;
use crate::constants::{bit, WHITE, BLACK};
use crate::bits::lemma_bits;
use crate::position::board::{Board, Position, position_occupancy, position_checkers};
use crate::position::board_state::ep_file_of;
use crate::position::piece_set::{PieceSet, Pieces, all_of, pieces_wf};
use crate::moving::mv::{Move, start_of, target_of, code_of};
use crate::moving::move_generation::MoveGenerator;
use crate::moving::move_making::{position_wf, move_fits, castle_fits, ep_square, made};
use crate::moving::null_move::null_made;
use crate::moving::generation::gen_ready;
use crate::evaluation::evaluator::eval_ready;

verus! {

/// A sound position: sides set with their colours, well-formed piece sets
/// that share no square, a king on each side and an en passant file in range
/// (a consistent position without its cached occupancy and checkers).
pub open spec fn position_sound(p: Position) -> bool {
    &&& (p.us == WHITE && p.enemy == BLACK) || (p.us == BLACK && p.enemy == WHITE)
    &&& p.white.color == WHITE
    &&& p.black.color == BLACK
    &&& pieces_wf(p.white)
    &&& pieces_wf(p.black)
    &&& all_of(p.white) & all_of(p.black) == 0
    &&& p.white.king != 0
    &&& p.black.king != 0
    &&& ep_file_of(p.state) <= 8
}

/// A consistent position is a sound one whose cached occupancy and checkers
/// agree with its pieces, and the generator, the evaluation and the board's
/// own checks can work on it.
pub proof fn lemma_wf_sound(b: Board)
    ensures
        position_wf(b@, b.gen()) <==> (position_sound(b@) && b@.occ == position_occupancy(b@) && b@.checkers
            == position_checkers(b.gen(), b@)),
        position_wf(b@, b.gen()) ==> b.wf() && gen_ready(b) && eval_ready(b),
{
}

fn holds_sq(x: u64, sq: u64) -> (r: bool)
    requires
        sq < 64,
    ensures
        r == bit(x, sq as int),
{
    proof {
        lemma_bits(x, 0, sq as int);
    }
    x & (1u64 << sq) != 0
}

fn set_sound(p: &PieceSet) -> (r: bool)
    ensures
        r == pieces_wf(p@),
{
    let pawns = p.get_pawns();
    let orth = p.get_orthogonals();
    let diag = p.get_diagonals();
    let knights = p.get_knights();
    let king = p.get_king();
    let color = p.get_color();
    pawns & (orth | diag | knights | king) == 0 && (orth | diag) & (knights | king) == 0 && knights & king == 0 && (
    color == WHITE || color == BLACK)
}

impl Board {
    /// Whether the position is sound (see `position_sound`).
    pub fn is_sound(&self) -> (r: bool)
        ensures
            r == position_sound(self@),
    {
        let us = self.us;
        let enemy = self.enemy;
        if !((us == WHITE && enemy == BLACK) || (us == BLACK && enemy == WHITE)) {
            return false;
        }
        let white = self.get_pieces(WHITE);
        let black = self.get_pieces(BLACK);
        white.get_color() == WHITE && black.get_color() == BLACK && set_sound(white) && set_sound(black)
            && white.get_all() & black.get_all() == 0 && white.get_king() != 0 && black.get_king() != 0
            && self.get_state().get_en_passant_file() <= 8
    }

    /// Whether `mv` fits the position (see `move_fits`).
    #[verifier::rlimit(30)]
    pub fn fits_move(&self, mv: &Move) -> (r: bool)
        requires
            self.us < 2,
            self.enemy < 2,
        ensures
            r == move_fits(self@, mv@),
    {
        let s = mv.get_start_field() as u64;
        let t = mv.get_target_field() as u64;
        let code = mv.get_move_code();
        let us = self.us;
        let own = self.get_pieces(us);
        let other = self.get_pieces(self.enemy);
        let own_all = own.get_all();
        let other_all = other.get_all();
        let ghost p = self@;
        proof {
            assert(p.side(p.us as int) == own@);
            assert(p.side(p.enemy as int) == other@);
        }
        if s == t || !holds_sq(own_all, s) || holds_sq(own_all, t) {
            return false;
        }
        let king = own.get_king();
        if holds_sq(king, s) && king != 1u64 << s {
            return false;
        }
        if code == 2 || code == 3 {
            let home: u64 = if us == WHITE { 0 } else { 56 };
            if s != home + 4 || king != 1u64 << s || holds_sq(other_all, t) {
                return false;
            }
            if code == 2 {
                t == home + 6 && holds_sq(own.get_orthogonals(), home + 7) && !holds_sq(own.get_diagonals(), home + 7) && !holds_sq(
                    own_all,
                    home + 5,
                )
            } else {
                t == home + 2 && holds_sq(own.get_orthogonals(), home) && !holds_sq(own.get_diagonals(), home) && !holds_sq(
                    own_all,
                    home + 3,
                )
            }
        } else if code == 5 {
            let e: i64 = if us == WHITE { t as i64 - 8 } else { t as i64 + 8 };
            if e < 0 || e >= 64 {
                return false;
            }
            holds_sq(own.get_pawns(), s) && holds_sq(other.get_pawns(), e as u64) && !holds_sq(other_all, t)
        } else {
            let v = mv.get_value();
            if v & 4 != 0 {
                if !holds_sq(other_all, t) || holds_sq(other.get_king(), t) {
                    return false;
                }
            } else {
                if holds_sq(other_all, t) {
                    return false;
                }
            }
            if v & 8 != 0 {
                holds_sq(own.get_pawns(), s)
            } else {
                true
            }
        }
    }
}


/// A move that leaves a sound position gives a consistent one: `made`
/// computes occupancy and checkers afresh.
pub proof fn lemma_made_wf(p: Position, mg: MoveGenerator, mv: u16)
    requires
        position_sound(made(p, mg, mv)),
    ensures
        position_wf(made(p, mg, mv), mg),
{
}

/// Passing the move keeps a position consistent.
pub proof fn lemma_null_wf(p: Position, mg: MoveGenerator)
    requires
        position_wf(p, mg),
    ensures
        position_wf(null_made(p, mg), mg),
{
    let st = p.state;
    assert(((st & !0x1e0u32) & 0x1e0) >> 5 == 0) by (bit_vector);
}
} // verus!
