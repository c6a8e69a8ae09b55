use vstd::prelude::*;
use crate::constants::{bit, WHITE, BLACK, KNIGHT, BISHOP, ROOK, QUEEN, FILEA, FILEH, RANK1, RANK2, RANK7,
    RANK8, KINGSIDE_CASTLE_MASK, QUEENSIDE_CATLE_MASK};
use crate::bitboard_helpers::{get_lsb, lsb, pop_lsb, squares_of, has_more_than_one, lemma_lsb};
use crate::bits::{lemma_bits, lemma_bit_shl, lemma_bit_shr};
use crate::position::board::Board;
use crate::position::piece_set::all_of;
use crate::position::board_state::{ep_file_of, kingside_mask, queenside_mask};
use crate::moving::mv::{Move, pack, code_of, target_of};
use crate::moving::move_list::MoveList;
use crate::moving::move_generation::MoveGenerator;
use crate::moving::legality::{sweep, pinned, kept_when_free, kept_when_checked, king_move_legal, ep_in_range,
    ep_moves_in_range};

verus! {

/// An en passant move lands between the third and the sixth rank.
pub open spec fn ep_target_ok(mv: u16) -> bool {
    code_of(mv) == 5 ==> 8 <= target_of(mv) < 56
}

/// Every en passant move of a list lands between the third and sixth rank.
pub open spec fn all_ep_ok(s: Seq<u16>) -> bool {
    forall|i: int| 0 <= i < s.len() ==> #[trigger] ep_target_ok(s[i])
}

/// Moves from `start` to each square of `sqs`, with move code `code`.
pub open spec fn moves_from(start: int, sqs: Seq<int>, code: u16) -> Seq<u16> {
    sqs.map_values(|t: int| pack(start as u16, t as u16, code))
}

/// Moves to each square `t` of `sqs` from square `t - delta`, with move code `code`.
pub open spec fn pushes(sqs: Seq<int>, delta: int, code: u16) -> Seq<u16> {
    sqs.map_values(|t: int| pack((t - delta) as u16, t as u16, code))
}

/// The four promotions from `start` to `t`, queen, rook, knight, bishop; `base`
/// is the code of a promotion to a pawn (7 for quiet ones, 11 for captures).
pub open spec fn promotions(start: int, t: int, base: int) -> Seq<u16> {
    seq![
        pack(start as u16, t as u16, (base + QUEEN) as u16),
        pack(start as u16, t as u16, (base + ROOK) as u16),
        pack(start as u16, t as u16, (base + KNIGHT) as u16),
        pack(start as u16, t as u16, (base + BISHOP) as u16),
    ]
}

/// The promotions to each square `t` of `sqs` from square `t - delta`.
pub open spec fn promotion_pushes(sqs: Seq<int>, delta: int, base: int) -> Seq<u16>
    decreases sqs.len(),
{
    if sqs.len() == 0 {
        Seq::empty()
    } else {
        promotions(sqs[0] - delta, sqs[0], base) + promotion_pushes(sqs.drop_first(), delta, base)
    }
}

/// The squares a knight (`kind == KNIGHT`), rook-like (`ROOK`) or bishop-like
/// (`BISHOP`) piece on `s` attacks.
pub open spec fn piece_attacks(mg: MoveGenerator, kind: int, s: int, occ: u64) -> u64 {
    if kind == KNIGHT {
        mg.knight_bb(s)
    } else if kind == ROOK {
        mg.slider_bb(true, s, occ)
    } else {
        mg.slider_bb(false, s, occ)
    }
}

/// The quiet moves, then the captures, of a piece on `s` attacking `att`.
pub open spec fn moves_of(s: int, att: u64, occ: u64, enemies: u64) -> Seq<u16> {
    moves_from(s, squares_of(att & !occ), 0) + moves_from(s, squares_of(att & enemies), 4)
}

/// The moves of the pieces of kind `kind` on the squares `sqs`, in order.
pub open spec fn piece_moves(mg: MoveGenerator, kind: int, sqs: Seq<int>, occ: u64, enemies: u64) -> Seq<u16>
    decreases sqs.len(),
{
    if sqs.len() == 0 {
        Seq::empty()
    } else {
        moves_of(sqs[0], piece_attacks(mg, kind, sqs[0], occ), occ, enemies)
            + piece_moves(mg, kind, sqs.drop_first(), occ, enemies)
    }
}

/// The moves of the king of `b`.
pub open spec fn king_moves(mg: MoveGenerator, b: Board) -> Seq<u16> {
    let k = lsb(b.pieces(b.us as int).king);
    moves_of(k, mg.king_bb(k), b.occ(), all_of(b.pieces(b.enemy as int)))
}

/// The pawn moves of the side to move: single pushes, double pushes, then
/// captures to the left and to the right, promotions after the other moves of
/// each kind.
pub open spec fn pawn_moves(b: Board) -> Seq<u16> {
    let pawns = b.pieces(b.us as int).pawns;
    let occ = b.occ();
    let enemies = all_of(b.pieces(b.enemy as int));
    if b.us == WHITE {
        let single = (pawns << 8u64) & !occ;
        let double = ((((pawns & RANK2) << 8u64) & !occ) << 8u64) & !occ;
        let left = ((pawns & !FILEA) << 7u64) & enemies;
        let right = ((pawns & !FILEH) << 9u64) & enemies;
        pushes(squares_of(single & !(single & RANK8)), 8, 0)
            + promotion_pushes(squares_of(single & RANK8), 8, 7)
            + pushes(squares_of(double), 16, 1)
            + pushes(squares_of(left & !(left & RANK8)), 7, 4)
            + pushes(squares_of(right & !(right & RANK8)), 9, 4)
            + promotion_pushes(squares_of(left & RANK8), 7, 11)
            + promotion_pushes(squares_of(right & RANK8), 9, 11)
    } else {
        let single = (pawns >> 8u64) & !occ;
        let double = ((((pawns & RANK7) >> 8u64) & !occ) >> 8u64) & !occ;
        let left = ((pawns & !FILEA) >> 9u64) & enemies;
        let right = ((pawns & !FILEH) >> 7u64) & enemies;
        pushes(squares_of(single & !(single & RANK1)), -8, 0)
            + promotion_pushes(squares_of(single & RANK1), -8, 7)
            + pushes(squares_of(double), -16, 1)
            + pushes(squares_of(left & !(left & RANK1)), -9, 4)
            + pushes(squares_of(right & !(right & RANK1)), -7, 4)
            + promotion_pushes(squares_of(left & RANK1), -9, 11)
            + promotion_pushes(squares_of(right & RANK1), -7, 11)
    }
}

/// The en passant moves of the side to move.
pub open spec fn en_passant_moves(b: Board) -> Seq<u16> {
    let file = ep_file_of(b.state()) as int;
    if file == 0 {
        Seq::empty()
    } else {
        let cap_sq = if b.us == WHITE { 32 + file - 1 } else { 24 + file - 1 };
        let target = if b.us == WHITE { 40 + file - 1 } else { 16 + file - 1 };
        let cap_mask = 1u64 << (cap_sq as u64);
        let pawn_mask = ((cap_mask & !FILEH) << 1u64) | ((cap_mask & !FILEA) >> 1u64);
        squares_of(pawn_mask & b.pieces(b.us as int).pawns).map_values(
            |s: int| pack(s as u16, target as u16, 5),
        )
    }
}

/// The kingside castle of the side to move, when its right is kept and the
/// squares between king and rook are empty.
pub open spec fn kingside_castle_moves(b: Board) -> Seq<u16> {
    let home: int = if b.us == WHITE { 0 } else { 56 };
    let mask = if b.us == WHITE { KINGSIDE_CASTLE_MASK } else { KINGSIDE_CASTLE_MASK << 56u64 };
    if b.state() & kingside_mask(b.us as int) != 0 && b.occ() & mask == 0 {
        seq![pack((home + 4) as u16, (home + 6) as u16, 2)]
    } else {
        Seq::empty()
    }
}

/// The queenside castle of the side to move, when its right is kept and the
/// squares between king and rook are empty.
pub open spec fn queenside_castle_moves(b: Board) -> Seq<u16> {
    let home: int = if b.us == WHITE { 0 } else { 56 };
    let mask = if b.us == WHITE { QUEENSIDE_CATLE_MASK } else { QUEENSIDE_CATLE_MASK << 56u64 };
    if b.state() & queenside_mask(b.us as int) != 0 && b.occ() & mask == 0 {
        seq![pack((home + 4) as u16, (home + 2) as u16, 3)]
    } else {
        Seq::empty()
    }
}

/// The moves of the side to move by the rules of piece movement, without the
/// castles and without regard to the safety of the king.
pub open spec fn piece_and_pawn_moves(mg: MoveGenerator, b: Board) -> Seq<u16> {
    let us = b.pieces(b.us as int);
    let occ = b.occ();
    let enemies = all_of(b.pieces(b.enemy as int));
    pawn_moves(b)
        + piece_moves(mg, ROOK as int, squares_of(us.orthogonals), occ, enemies)
        + piece_moves(mg, BISHOP as int, squares_of(us.diagonals), occ, enemies)
        + piece_moves(mg, KNIGHT as int, squares_of(us.knights), occ, enemies)
        + king_moves(mg, b)
}

/// All moves by the rules of piece movement, castles and en passant included,
/// without regard to the safety of the king.
pub open spec fn pseudo_legal_moves(mg: MoveGenerator, b: Board) -> Seq<u16> {
    piece_and_pawn_moves(mg, b) + kingside_castle_moves(b) + queenside_castle_moves(b) + en_passant_moves(b)
}

/// The moves that answer a single check before the filter: all but the castles.
pub open spec fn check_answers(mg: MoveGenerator, b: Board) -> Seq<u16> {
    piece_and_pawn_moves(mg, b) + en_passant_moves(b)
}

/// The legal moves of a position, in the order the generator leaves them.
pub open spec fn legal_moves(mg: MoveGenerator, b: Board) -> Seq<u16> {
    let c = b.checkers();
    if c == 0 {
        let s = pseudo_legal_moves(mg, b);
        sweep(s, |m: u16| kept_when_free(mg, b, pinned(mg, b), m), s.len() as int)
    } else if c & ((c - 1) as u64) != 0 {
        let s = king_moves(mg, b);
        sweep(s, |m: u16| king_move_legal(mg, b, m), s.len() as int)
    } else {
        let s = check_answers(mg, b);
        sweep(s, |m: u16| kept_when_checked(mg, b, c, m), s.len() as int)
    }
}

/// A position the generator works on: sides set and a king for the side to move.
pub open spec fn gen_ready(b: Board) -> bool {
    b.sides_ok() && b.pieces(b.us as int).king != 0
}

proof fn lemma_squares_in_range(b: u64)
    ensures
        forall|i: int| 0 <= i < squares_of(b).len() ==> 0 <= #[trigger] squares_of(b)[i] < 64
            && bit(b, squares_of(b)[i]),
    decreases b,
{
    if b != 0 {
        lemma_lsb(b);
        let rest = b & ((b - 1) as u64);
        crate::bitboard_helpers::lemma_clear_lowest_decreases(b);
        lemma_squares_in_range(rest);
        assert forall|i: int| 0 <= i < squares_of(b).len() implies 0 <= #[trigger] squares_of(b)[i] < 64
            && bit(b, squares_of(b)[i]) by {
            if i > 0 {
                let q = squares_of(rest)[i - 1];
                assert(squares_of(b)[i] == q);
                lemma_bits(b, !(1u64 << (lsb(b) as u64)), q);
            }
        }
    }
}

impl MoveGenerator {
    /// Appends a move from `start` to each square of `mask`, lowest first.
    fn add_moves_from_mask(&self, move_list: &mut MoveList, start: usize, mask: u64, code: u16)
        requires
            start < 64,
            code < 16,
            code != 5,
            all_ep_ok(old(move_list)@),
        ensures
            final(move_list)@ == old(move_list)@ + moves_from(start as int, squares_of(mask), code),
            all_ep_ok(final(move_list)@),
    {
        let mut mask = mask;
        let ghost m0 = mask;
        while mask != 0
            invariant
                start < 64,
                code < 16,
                code != 5,
                all_ep_ok(move_list@),
                old(move_list)@ + moves_from(start as int, squares_of(m0), code) == move_list@
                    + moves_from(start as int, squares_of(mask), code),
            decreases mask,
        {
            let ghost before = move_list@;
            let ghost sq = squares_of(mask);
            let target = pop_lsb(&mut mask);
            let mv = Move::new(start as u16, target as u16, code);
            move_list.push_move(mv);
            proof {
                assert(moves_from(start as int, sq, code) =~= seq![mv@] + moves_from(start as int,
                    squares_of(mask), code));
                assert(before + moves_from(start as int, sq, code) =~= move_list@ + moves_from(start as int,
                    squares_of(mask), code));
            }
        }
        proof {
            assert(move_list@ + moves_from(start as int, squares_of(mask), code) =~= move_list@);
        }
    }

    /// Appends, for each square `t` of `mask`, the move from `t - d` (`up`) or
    /// `t + d` to `t`.
    fn add_pushes(&self, move_list: &mut MoveList, mask: u64, up: bool, d: usize, code: u16)
        requires
            d < 64,
            code < 16,
            code != 5,
            forall|q: int| 0 <= q < 64 && #[trigger] bit(mask, q) ==> 0 <= (if up { q - d } else { q + d }) < 64,
            all_ep_ok(old(move_list)@),
        ensures
            final(move_list)@ == old(move_list)@ + pushes(squares_of(mask), if up { d as int } else { -d }, code),
            all_ep_ok(final(move_list)@),
    {
        let ghost delta: int = if up { d as int } else { -d };
        let mut mask = mask;
        let ghost m0 = mask;
        while mask != 0
            invariant
                d < 64,
                code < 16,
                code != 5,
                delta == (if up { d as int } else { -d }),
                forall|q: int| 0 <= q < 64 && #[trigger] bit(mask, q) ==> 0 <= (if up { q - d } else { q + d }) < 64,
                all_ep_ok(move_list@),
                old(move_list)@ + pushes(squares_of(m0), delta, code) == move_list@ + pushes(squares_of(mask), delta,
                    code),
            decreases mask,
        {
            let ghost before = move_list@;
            let ghost old_mask = mask;
            let ghost sq = squares_of(mask);
            let target = pop_lsb(&mut mask);
            let start = if up { target - d } else { target + d };
            let mv = Move::new(start as u16, target as u16, code);
            move_list.push_move(mv);
            proof {
                assert forall|q: int| 0 <= q < 64 && #[trigger] bit(mask, q) implies 0 <= (if up { q - d } else { q
                    + d }) < 64 by {
                    lemma_bits(old_mask, !(1u64 << (target as u64)), q);
                }
                assert(pushes(sq, delta, code) =~= seq![mv@] + pushes(squares_of(mask), delta, code));
                assert(before + pushes(sq, delta, code) =~= move_list@ + pushes(squares_of(mask), delta, code));
            }
        }
        proof {
            assert(move_list@ + pushes(squares_of(mask), delta, code) =~= move_list@);
        }
    }

    /// Appends the four promotions from `start` to `target`: queen, rook,
    /// knight, bishop; captures when `capture`.
    fn add_promotions(&self, move_list: &mut MoveList, start: usize, target: usize, capture: bool)
        requires
            start < 64,
            target < 64,
            all_ep_ok(old(move_list)@),
        ensures
            final(move_list)@ == old(move_list)@ + promotions(start as int, target as int, if capture { 11 } else { 7 }),
            all_ep_ok(final(move_list)@),
    {
        let s = start as u16;
        let t = target as u16;
        if capture {
            move_list.push_move(Move::new_promotion_capture(s, t, QUEEN));
            move_list.push_move(Move::new_promotion_capture(s, t, ROOK));
            move_list.push_move(Move::new_promotion_capture(s, t, KNIGHT));
            move_list.push_move(Move::new_promotion_capture(s, t, BISHOP));
        } else {
            move_list.push_move(Move::new_promotion(s, t, QUEEN));
            move_list.push_move(Move::new_promotion(s, t, ROOK));
            move_list.push_move(Move::new_promotion(s, t, KNIGHT));
            move_list.push_move(Move::new_promotion(s, t, BISHOP));
        }
        proof {
            let base: int = if capture { 11 } else { 7 };
            let p = promotions(start as int, target as int, base);
            crate::moving::mv::lemma_pack(s, t, 8);
            crate::moving::mv::lemma_pack(s, t, 9);
            crate::moving::mv::lemma_pack(s, t, 10);
            crate::moving::mv::lemma_pack(s, t, 11);
            crate::moving::mv::lemma_pack(s, t, 12);
            crate::moving::mv::lemma_pack(s, t, 13);
            crate::moving::mv::lemma_pack(s, t, 14);
            crate::moving::mv::lemma_pack(s, t, 15);
            assert(move_list@ =~= old(move_list)@ + p);
        }
    }

    /// Appends the promotions to each square `t` of `mask` from `t - d` (`up`)
    /// or `t + d`.
    fn add_promotion_pushes(&self, move_list: &mut MoveList, mask: u64, up: bool, d: usize, capture: bool)
        requires
            d < 64,
            forall|q: int| 0 <= q < 64 && #[trigger] bit(mask, q) ==> 0 <= (if up { q - d } else { q + d }) < 64,
            all_ep_ok(old(move_list)@),
        ensures
            final(move_list)@ == old(move_list)@ + promotion_pushes(squares_of(mask), if up { d as int } else { -d },
                if capture { 11 } else { 7 }),
            all_ep_ok(final(move_list)@),
    {
        let ghost delta: int = if up { d as int } else { -d };
        let ghost base: int = if capture { 11 } else { 7 };
        let mut mask = mask;
        let ghost m0 = mask;
        while mask != 0
            invariant
                d < 64,
                delta == (if up { d as int } else { -d }),
                base == (if capture { 11int } else { 7int }),
                forall|q: int| 0 <= q < 64 && #[trigger] bit(mask, q) ==> 0 <= (if up { q - d } else { q + d }) < 64,
                all_ep_ok(move_list@),
                old(move_list)@ + promotion_pushes(squares_of(m0), delta, base) == move_list@ + promotion_pushes(
                    squares_of(mask), delta, base),
            decreases mask,
        {
            let ghost before = move_list@;
            let ghost old_mask = mask;
            let ghost sq = squares_of(mask);
            let target = pop_lsb(&mut mask);
            let start = if up { target - d } else { target + d };
            self.add_promotions(move_list, start, target, capture);
            proof {
                assert forall|q: int| 0 <= q < 64 && #[trigger] bit(mask, q) implies 0 <= (if up { q - d } else { q
                    + d }) < 64 by {
                    lemma_bits(old_mask, !(1u64 << (target as u64)), q);
                }
                assert(sq.drop_first() =~= squares_of(mask));
                assert(before + promotion_pushes(sq, delta, base) =~= move_list@ + promotion_pushes(squares_of(mask),
                    delta, base));
            }
        }
        proof {
            assert(move_list@ + promotion_pushes(squares_of(mask), delta, base) =~= move_list@);
        }
    }

    /// Appends the moves of the pieces of kind `kind` (knight, rook-like or
    /// bishop-like) standing on `pieces`.
    fn gen_piece_moves(&self, move_list: &mut MoveList, pieces: u64, kind: usize, occ: u64, enemies: u64)
        requires
            kind == KNIGHT || kind == ROOK || kind == BISHOP,
            all_ep_ok(old(move_list)@),
        ensures
            final(move_list)@ == old(move_list)@ + piece_moves(*self, kind as int, squares_of(pieces), occ, enemies),
            all_ep_ok(final(move_list)@),
    {
        let mut pieces = pieces;
        let ghost p0 = pieces;
        while pieces != 0
            invariant
                kind == KNIGHT || kind == ROOK || kind == BISHOP,
                all_ep_ok(move_list@),
                old(move_list)@ + piece_moves(*self, kind as int, squares_of(p0), occ, enemies) == move_list@
                    + piece_moves(*self, kind as int, squares_of(pieces), occ, enemies),
            decreases pieces,
        {
            let ghost before = move_list@;
            let ghost sq = squares_of(pieces);
            let start = pop_lsb(&mut pieces);
            let att = if kind == KNIGHT {
                self.get_knight_attacks(start)
            } else if kind == ROOK {
                self.get_rook_attacks(start, occ)
            } else {
                self.get_bishop_attacks(start, occ)
            };
            self.add_moves_from_mask(move_list, start, att & !occ, 0);
            self.add_moves_from_mask(move_list, start, att & enemies, 4);
            proof {
                assert(sq.drop_first() =~= squares_of(pieces));
                assert(before + piece_moves(*self, kind as int, sq, occ, enemies) =~= move_list@ + piece_moves(*self,
                    kind as int, squares_of(pieces), occ, enemies));
            }
        }
        proof {
            assert(move_list@ + piece_moves(*self, kind as int, squares_of(pieces), occ, enemies) =~= move_list@);
        }
    }

    /// Appends the moves of the king on `king`.
    fn gen_king_moves(&self, move_list: &mut MoveList, king: u64, occ: u64, enemies: u64)
        requires
            king != 0,
            all_ep_ok(old(move_list)@),
        ensures
            final(move_list)@ == old(move_list)@ + moves_of(lsb(king), self.king_bb(lsb(king)), occ, enemies),
            all_ep_ok(final(move_list)@),
    {
        let start = get_lsb(&king);
        let att = self.get_king_attacks(start);
        self.add_moves_from_mask(move_list, start, att & !occ, 0);
        self.add_moves_from_mask(move_list, start, att & enemies, 4);
        proof {
            assert(move_list@ =~= old(move_list)@ + moves_of(lsb(king), self.king_bb(lsb(king)), occ, enemies));
        }
    }

    /// Appends a move from each square of `mask` to `target`.
    fn add_moves_to_target(&self, move_list: &mut MoveList, mask: u64, target: usize, code: u16)
        requires
            target < 64,
            code < 16,
            code == 5 ==> 8 <= target < 56,
            all_ep_ok(old(move_list)@),
        ensures
            final(move_list)@ == old(move_list)@ + squares_of(mask).map_values(
                |s: int| pack(s as u16, target as u16, code),
            ),
            all_ep_ok(final(move_list)@),
    {
        let mut mask = mask;
        let ghost m0 = mask;
        let ghost f = |s: int| pack(s as u16, target as u16, code);
        while mask != 0
            invariant
                target < 64,
                code < 16,
                code == 5 ==> 8 <= target < 56,
                f == (|s: int| pack(s as u16, target as u16, code)),
                all_ep_ok(move_list@),
                old(move_list)@ + squares_of(m0).map_values(f) == move_list@ + squares_of(mask).map_values(f),
            decreases mask,
        {
            let ghost before = move_list@;
            let ghost sq = squares_of(mask);
            let start = pop_lsb(&mut mask);
            let mv = Move::new(start as u16, target as u16, code);
            move_list.push_move(mv);
            proof {
                assert(sq.map_values(f) =~= seq![mv@] + squares_of(mask).map_values(f));
                assert(before + sq.map_values(f) =~= move_list@ + squares_of(mask).map_values(f));
            }
        }
        proof {
            assert(move_list@ + squares_of(mask).map_values(f) =~= move_list@);
        }
    }

    fn generate_white_single_push(&self, move_list: &mut MoveList, pawns: u64, occ: u64)
        requires
            all_ep_ok(old(move_list)@),
        ensures
            final(move_list)@ == old(move_list)@ + pushes(squares_of(((pawns << 8u64) & !occ) & !(((pawns << 8u64)
                & !occ) & RANK8)), 8, 0) + promotion_pushes(squares_of(((pawns << 8u64) & !occ) & RANK8), 8, 7),
            all_ep_ok(final(move_list)@),
    {
        let single = (pawns << 8) & !occ;
        let promotions = single & RANK8;
        let mask = single & !promotions;
        proof {
            assert forall|q: int| 0 <= q < 64 && #[trigger] bit(mask, q) implies 0 <= q - 8 < 64 by {
                lemma_bits(single, !promotions, q);
                lemma_bits(pawns << 8u64, !occ, q);
                lemma_bit_shl(pawns, 8, q);
            }
            assert forall|q: int| 0 <= q < 64 && #[trigger] bit(promotions, q) implies 0 <= q - 8 < 64 by {
                lemma_bits(single, RANK8, q);
                lemma_bits(pawns << 8u64, !occ, q);
                lemma_bit_shl(pawns, 8, q);
            }
        }
        self.add_pushes(move_list, mask, true, 8, 0);
        self.add_promotion_pushes(move_list, promotions, true, 8, false);
    }

    fn generate_white_double_push(&self, move_list: &mut MoveList, pawns: u64, occ: u64)
        requires
            all_ep_ok(old(move_list)@),
        ensures
            final(move_list)@ == old(move_list)@ + pushes(squares_of(((((pawns & RANK2) << 8u64) & !occ) << 8u64)
                & !occ), 16, 1),
            all_ep_ok(final(move_list)@),
    {
        let pawns = pawns & RANK2;
        let first = (pawns << 8) & !occ;
        let mask = (first << 8) & !occ;
        proof {
            assert forall|q: int| 0 <= q < 64 && #[trigger] bit(mask, q) implies 0 <= q - 16 < 64 by {
                lemma_bits(first << 8u64, !occ, q);
                lemma_bit_shl(first, 8, q);
                if q >= 8 {
                    lemma_bits(pawns << 8u64, !occ, q - 8);
                    lemma_bit_shl(pawns, 8, q - 8);
                }
            }
        }
        self.add_pushes(move_list, mask, true, 16, 1);
    }

    fn generate_white_captures(&self, move_list: &mut MoveList, pawns: u64, enemies: u64)
        requires
            all_ep_ok(old(move_list)@),
        ensures
            ({
                let left = ((pawns & !FILEA) << 7u64) & enemies;
                let right = ((pawns & !FILEH) << 9u64) & enemies;
                final(move_list)@ == old(move_list)@ + pushes(squares_of(left & !(left & RANK8)), 7, 4) + pushes(
                    squares_of(right & !(right & RANK8)), 9, 4) + promotion_pushes(squares_of(left & RANK8), 7, 11)
                    + promotion_pushes(squares_of(right & RANK8), 9, 11)
            }),
            all_ep_ok(final(move_list)@),
    {
        let left = ((pawns & !FILEA) << 7) & enemies;
        let right = ((pawns & !FILEH) << 9) & enemies;
        let left_promotions = left & RANK8;
        let left_captures = left & !left_promotions;
        let right_promotions = right & RANK8;
        let right_captures = right & !right_promotions;
        proof {
            let lp = pawns & !FILEA;
            let rp = pawns & !FILEH;
            assert forall|q: int| 0 <= q < 64 && #[trigger] bit(left_captures, q) implies 0 <= q - 7 < 64 by {
                lemma_bits(left, !left_promotions, q);
                lemma_bits(lp << 7u64, enemies, q);
                lemma_bit_shl(lp, 7, q);
            }
            assert forall|q: int| 0 <= q < 64 && #[trigger] bit(left_promotions, q) implies 0 <= q - 7 < 64 by {
                lemma_bits(left, RANK8, q);
                lemma_bits(lp << 7u64, enemies, q);
                lemma_bit_shl(lp, 7, q);
            }
            assert forall|q: int| 0 <= q < 64 && #[trigger] bit(right_captures, q) implies 0 <= q - 9 < 64 by {
                lemma_bits(right, !right_promotions, q);
                lemma_bits(rp << 9u64, enemies, q);
                lemma_bit_shl(rp, 9, q);
            }
            assert forall|q: int| 0 <= q < 64 && #[trigger] bit(right_promotions, q) implies 0 <= q - 9 < 64 by {
                lemma_bits(right, RANK8, q);
                lemma_bits(rp << 9u64, enemies, q);
                lemma_bit_shl(rp, 9, q);
            }
        }
        self.add_pushes(move_list, left_captures, true, 7, 4);
        self.add_pushes(move_list, right_captures, true, 9, 4);
        self.add_promotion_pushes(move_list, left_promotions, true, 7, true);
        self.add_promotion_pushes(move_list, right_promotions, true, 9, true);
    }

    fn generate_black_single_push(&self, move_list: &mut MoveList, pawns: u64, occ: u64)
        requires
            all_ep_ok(old(move_list)@),
        ensures
            final(move_list)@ == old(move_list)@ + pushes(squares_of(((pawns >> 8u64) & !occ) & !(((pawns >> 8u64)
                & !occ) & RANK1)), -8, 0) + promotion_pushes(squares_of(((pawns >> 8u64) & !occ) & RANK1), -8, 7),
            all_ep_ok(final(move_list)@),
    {
        let single = (pawns >> 8) & !occ;
        let promotions = single & RANK1;
        let mask = single & !promotions;
        proof {
            assert forall|q: int| 0 <= q < 64 && #[trigger] bit(mask, q) implies 0 <= q + 8 < 64 by {
                lemma_bits(single, !promotions, q);
                lemma_bits(pawns >> 8u64, !occ, q);
                lemma_bit_shr(pawns, 8, q);
            }
            assert forall|q: int| 0 <= q < 64 && #[trigger] bit(promotions, q) implies 0 <= q + 8 < 64 by {
                lemma_bits(single, RANK1, q);
                lemma_bits(pawns >> 8u64, !occ, q);
                lemma_bit_shr(pawns, 8, q);
            }
        }
        self.add_pushes(move_list, mask, false, 8, 0);
        self.add_promotion_pushes(move_list, promotions, false, 8, false);
    }

    fn generate_black_double_push(&self, move_list: &mut MoveList, pawns: u64, occ: u64)
        requires
            all_ep_ok(old(move_list)@),
        ensures
            final(move_list)@ == old(move_list)@ + pushes(squares_of(((((pawns & RANK7) >> 8u64) & !occ) >> 8u64)
                & !occ), -16, 1),
            all_ep_ok(final(move_list)@),
    {
        let pawns = pawns & RANK7;
        let first = (pawns >> 8) & !occ;
        let mask = (first >> 8) & !occ;
        proof {
            assert forall|q: int| 0 <= q < 64 && #[trigger] bit(mask, q) implies 0 <= q + 16 < 64 by {
                lemma_bits(first >> 8u64, !occ, q);
                lemma_bit_shr(first, 8, q);
                if q + 8 < 64 {
                    lemma_bits(pawns >> 8u64, !occ, q + 8);
                    lemma_bit_shr(pawns, 8, q + 8);
                }
            }
        }
        self.add_pushes(move_list, mask, false, 16, 1);
    }

    fn generate_black_captures(&self, move_list: &mut MoveList, pawns: u64, enemies: u64)
        requires
            all_ep_ok(old(move_list)@),
        ensures
            ({
                let left = ((pawns & !FILEA) >> 9u64) & enemies;
                let right = ((pawns & !FILEH) >> 7u64) & enemies;
                final(move_list)@ == old(move_list)@ + pushes(squares_of(left & !(left & RANK1)), -9, 4) + pushes(
                    squares_of(right & !(right & RANK1)), -7, 4) + promotion_pushes(squares_of(left & RANK1), -9, 11)
                    + promotion_pushes(squares_of(right & RANK1), -7, 11)
            }),
            all_ep_ok(final(move_list)@),
    {
        let left = ((pawns & !FILEA) >> 9) & enemies;
        let right = ((pawns & !FILEH) >> 7) & enemies;
        let left_promotions = left & RANK1;
        let left_captures = left & !left_promotions;
        let right_promotions = right & RANK1;
        let right_captures = right & !right_promotions;
        proof {
            let lp = pawns & !FILEA;
            let rp = pawns & !FILEH;
            assert forall|q: int| 0 <= q < 64 && #[trigger] bit(left_captures, q) implies 0 <= q + 9 < 64 by {
                lemma_bits(left, !left_promotions, q);
                lemma_bits(lp >> 9u64, enemies, q);
                lemma_bit_shr(lp, 9, q);
            }
            assert forall|q: int| 0 <= q < 64 && #[trigger] bit(left_promotions, q) implies 0 <= q + 9 < 64 by {
                lemma_bits(left, RANK1, q);
                lemma_bits(lp >> 9u64, enemies, q);
                lemma_bit_shr(lp, 9, q);
            }
            assert forall|q: int| 0 <= q < 64 && #[trigger] bit(right_captures, q) implies 0 <= q + 7 < 64 by {
                lemma_bits(right, !right_promotions, q);
                lemma_bits(rp >> 7u64, enemies, q);
                lemma_bit_shr(rp, 7, q);
            }
            assert forall|q: int| 0 <= q < 64 && #[trigger] bit(right_promotions, q) implies 0 <= q + 7 < 64 by {
                lemma_bits(right, RANK1, q);
                lemma_bits(rp >> 7u64, enemies, q);
                lemma_bit_shr(rp, 7, q);
            }
        }
        self.add_pushes(move_list, left_captures, false, 9, 4);
        self.add_pushes(move_list, right_captures, false, 7, 4);
        self.add_promotion_pushes(move_list, left_promotions, false, 9, true);
        self.add_promotion_pushes(move_list, right_promotions, false, 7, true);
    }

    /// Appends the pawn moves of the side to move.
    pub fn gen_pawn_moves(&self, move_list: &mut MoveList, board: &Board)
        requires
            board.sides_ok(),
            all_ep_ok(old(move_list)@),
        ensures
            final(move_list)@ == old(move_list)@ + pawn_moves(*board),
            all_ep_ok(final(move_list)@),
    {
        let (us, enemy) = board.get_piecesets();
        let occ = board.get_occupancy();
        let pawns = us.get_pawns();
        let enemies = enemy.get_all();
        if board.us == WHITE {
            self.generate_white_single_push(move_list, pawns, occ);
            self.generate_white_double_push(move_list, pawns, occ);
            self.generate_white_captures(move_list, pawns, enemies);
        } else {
            self.generate_black_single_push(move_list, pawns, occ);
            self.generate_black_double_push(move_list, pawns, occ);
            self.generate_black_captures(move_list, pawns, enemies);
        }
        proof {
            assert(move_list@ =~= old(move_list)@ + pawn_moves(*board));
        }
    }

    /// Appends the en passant moves of the side to move.
    pub fn gen_en_passant(&self, move_list: &mut MoveList, board: &Board)
        requires
            board.sides_ok(),
            all_ep_ok(old(move_list)@),
        ensures
            final(move_list)@ == old(move_list)@ + en_passant_moves(*board),
            all_ep_ok(final(move_list)@),
    {
        let file = board.get_state().get_en_passant_file();
        if file == 0 {
            proof {
                assert(move_list@ =~= old(move_list)@ + en_passant_moves(*board));
            }
            return;
        }
        let us = board.get_ally_pieces();
        let pawns = us.get_pawns();
        let file = file - 1;
        let (cap_sq, target_sq) = if board.us == WHITE {
            (32 + file, 40 + file)
        } else {
            (24 + file, 16 + file)
        };
        let cap_mask = 1u64 << cap_sq;
        let pawn_mask = ((cap_mask & !FILEH) << 1) | ((cap_mask & !FILEA) >> 1);
        let move_mask = pawn_mask & pawns;
        self.add_moves_to_target(move_list, move_mask, target_sq, 5);
    }

    fn gen_kingside_castle(&self, move_list: &mut MoveList, board: &Board)
        requires
            board.sides_ok(),
            all_ep_ok(old(move_list)@),
        ensures
            final(move_list)@ == old(move_list)@ + kingside_castle_moves(*board),
            all_ep_ok(final(move_list)@),
    {
        let (king_start, king_target, castle_mask) = if board.us == WHITE {
            (4u16, 6u16, KINGSIDE_CASTLE_MASK)
        } else {
            (60u16, 62u16, KINGSIDE_CASTLE_MASK << 56)
        };
        if board.get_state().can_castle_kingside(board.us) && board.get_occupancy() & castle_mask == 0 {
            let mv = Move::new_kingside_castle(king_start, king_target);
            proof {
                crate::moving::mv::lemma_pack(king_start, king_target, 2);
            }
            move_list.push_move(mv);
        }
        proof {
            assert(move_list@ =~= old(move_list)@ + kingside_castle_moves(*board));
        }
    }

    fn gen_queenside_castle(&self, move_list: &mut MoveList, board: &Board)
        requires
            board.sides_ok(),
            all_ep_ok(old(move_list)@),
        ensures
            final(move_list)@ == old(move_list)@ + queenside_castle_moves(*board),
            all_ep_ok(final(move_list)@),
    {
        let (king_start, king_target, castle_mask) = if board.us == WHITE {
            (4u16, 2u16, QUEENSIDE_CATLE_MASK)
        } else {
            (60u16, 58u16, QUEENSIDE_CATLE_MASK << 56)
        };
        if board.get_state().can_castle_queenside(board.us) && board.get_occupancy() & castle_mask == 0 {
            let mv = Move::new_queenside_castle(king_start, king_target);
            proof {
                crate::moving::mv::lemma_pack(king_start, king_target, 3);
            }
            move_list.push_move(mv);
        }
        proof {
            assert(move_list@ =~= old(move_list)@ + queenside_castle_moves(*board));
        }
    }

    /// Appends the pawn, rook-like, bishop-like, knight and king moves.
    fn gen_piece_and_pawn_moves(&self, move_list: &mut MoveList, board: &Board)
        requires
            gen_ready(*board),
            all_ep_ok(old(move_list)@),
        ensures
            final(move_list)@ == old(move_list)@ + piece_and_pawn_moves(*self, *board),
            all_ep_ok(final(move_list)@),
    {
        let us_piece_set = board.get_pieces(board.us);
        let enemy_piece_set = board.get_pieces(board.enemy);
        let enemy_mask = enemy_piece_set.get_all();
        let occupancy = board.get_occupancy();
        self.gen_pawn_moves(move_list, board);
        self.gen_piece_moves(move_list, us_piece_set.get_orthogonals(), ROOK, occupancy, enemy_mask);
        self.gen_piece_moves(move_list, us_piece_set.get_diagonals(), BISHOP, occupancy, enemy_mask);
        self.gen_piece_moves(move_list, us_piece_set.get_knights(), KNIGHT, occupancy, enemy_mask);
        self.gen_king_moves(move_list, us_piece_set.get_king(), occupancy, enemy_mask);
        proof {
            assert(move_list@ =~= old(move_list)@ + piece_and_pawn_moves(*self, *board));
        }
    }

    fn gen_pseudo_legal_moves(&self, move_list: &mut MoveList, board: &Board)
        requires
            gen_ready(*board),
            all_ep_ok(old(move_list)@),
        ensures
            final(move_list)@ == old(move_list)@ + pseudo_legal_moves(*self, *board),
            all_ep_ok(final(move_list)@),
    {
        self.gen_piece_and_pawn_moves(move_list, board);
        self.gen_kingside_castle(move_list, board);
        self.gen_queenside_castle(move_list, board);
        self.gen_en_passant(move_list, board);
        proof {
            assert(move_list@ =~= old(move_list)@ + pseudo_legal_moves(*self, *board));
        }
    }

    /// The legal moves when the side to move is not in check.
    fn gen_legal_moves(&self, move_list: &mut MoveList, board: &Board)
        requires
            gen_ready(*board),
            old(move_list)@ == Seq::<u16>::empty(),
        ensures
            final(move_list)@ == sweep(pseudo_legal_moves(*self, *board),
                |m: u16| kept_when_free(*self, *board, pinned(*self, *board), m),
                pseudo_legal_moves(*self, *board).len() as int),
    {
        self.gen_pseudo_legal_moves(move_list, board);
        proof {
            assert(move_list@ =~= pseudo_legal_moves(*self, *board));
            lemma_ep_ok_in_range(*board, move_list@);
        }
        self.filter_illegal_moves(move_list, board);
    }

    /// The legal moves under a double check: king moves only.
    fn gen_evasions(&self, move_list: &mut MoveList, board: &Board)
        requires
            gen_ready(*board),
            old(move_list)@ == Seq::<u16>::empty(),
        ensures
            final(move_list)@ == sweep(king_moves(*self, *board), |m: u16| king_move_legal(*self, *board, m),
                king_moves(*self, *board).len() as int),
    {
        let us_piece_set = board.get_pieces(board.us);
        let enemy_piece_set = board.get_pieces(board.enemy);
        let occ = board.get_occupancy();
        self.gen_king_moves(move_list, us_piece_set.get_king(), occ, enemy_piece_set.get_all());
        let ghost keep = |m: u16| king_move_legal(*self, *board, m);
        let ghost goal = sweep(move_list@, keep, move_list@.len() as int);
        proof {
            assert(move_list@ =~= king_moves(*self, *board));
        }
        let mut i = move_list.get_count();
        while i > 0
            invariant
                i <= move_list@.len(),
                sweep(move_list@, keep, i as int) == goal,
                keep == (|m: u16| king_move_legal(*self, *board, m)),
                gen_ready(*board),
            decreases i,
        {
            i -= 1;
            let mv = *move_list.get_move(i);
            let ghost s = move_list@;
            if !self.is_king_move_legal(&mv, board) {
                move_list.remove(i);
            }
            assert(sweep(s, keep, i + 1) == sweep(move_list@, keep, i as int));
        }
    }

    /// The legal moves under a single check by `checker`.
    fn gen_checked(&self, move_list: &mut MoveList, board: &Board, checker: u64)
        requires
            gen_ready(*board),
            old(move_list)@ == Seq::<u16>::empty(),
        ensures
            final(move_list)@ == sweep(check_answers(*self, *board),
                |m: u16| kept_when_checked(*self, *board, checker, m), check_answers(*self, *board).len() as int),
    {
        self.gen_piece_and_pawn_moves(move_list, board);
        self.gen_en_passant(move_list, board);
        proof {
            assert(move_list@ =~= check_answers(*self, *board));
        }
        self.filter_illegal_moves_when_check(move_list, board, checker);
    }

    /// Fills `move_list` with the legal moves of the position.
    pub fn generate_moves(&self, move_list: &mut MoveList, board: &Board)
        requires
            gen_ready(*board),
        ensures
            final(move_list)@ == legal_moves(*self, *board),
    {
        move_list.reset();
        let checkers = board.get_checkers();
        if checkers == 0 {
            self.gen_legal_moves(move_list, board);
        } else if has_more_than_one(checkers) {
            self.gen_evasions(move_list, board);
        } else {
            self.gen_checked(move_list, board, checkers);
        }
    }
}

/// Fills `move_list` with the legal moves of the position, using the attack
/// tables of the position.
pub fn generate_moves(move_list: &mut MoveList, board: &Board)
    requires
        gen_ready(*board),
    ensures
        final(move_list)@ == legal_moves(board.gen(), *board),
{
    board.get_mg().generate_moves(move_list, board);
}

proof fn lemma_ep_ok_in_range(b: Board, s: Seq<u16>)
    requires
        all_ep_ok(s),
    ensures
        ep_moves_in_range(b, s),
{
    assert forall|i: int| 0 <= i < s.len() implies #[trigger] ep_in_range(b, s[i]) by {
        assert(ep_target_ok(s[i]));
    }
}


/// Two boards with the same view and sides in range: what the generator reads
/// of them agrees.
pub open spec fn same_board(b1: Board, b2: Board) -> bool {
    &&& b1@ == b2@
    &&& b1.us < 2
    &&& b1.enemy < 2
}

pub proof fn lemma_same_board_reads(b1: Board, b2: Board)
    requires
        same_board(b1, b2),
    ensures
        b1.us == b2.us,
        b1.enemy == b2.enemy,
        b1.pieces(b1.us as int) == b2.pieces(b2.us as int),
        b1.pieces(b1.enemy as int) == b2.pieces(b2.enemy as int),
        b1.occ() == b2.occ(),
        b1.checkers() == b2.checkers(),
        b1.state() == b2.state(),
{
    assert(b1.players[0]@ == b2.players[0]@);
    assert(b1.players[1]@ == b2.players[1]@);
}

/// The legality tests read a board only through its view.
pub proof fn lemma_legality_reads_view(mg: MoveGenerator, b1: Board, b2: Board)
    requires
        same_board(b1, b2),
    ensures
        pinned(mg, b1) == pinned(mg, b2),
        forall|pins: u64, m: u16| #[trigger] kept_when_free(mg, b1, pins, m) == kept_when_free(mg, b2, pins, m),
        forall|m: u16| #[trigger] king_move_legal(mg, b1, m) == king_move_legal(mg, b2, m),
        forall|c: u64, m: u16| #[trigger] kept_when_checked(mg, b1, c, m) == kept_when_checked(mg, b2, c, m),
        forall|m: u16| #[trigger] crate::moving::legality::move_legal(mg, b1, m)
            == crate::moving::legality::move_legal(mg, b2, m),
{
    lemma_same_board_reads(b1, b2);
    assert forall|lo: int, hi: int| #[trigger] crate::moving::legality::squares_safe(mg, b1, lo, hi)
        == crate::moving::legality::squares_safe(mg, b2, lo, hi) by {
        assert forall|i: int| #[trigger] crate::moving::legality::enemy_attackers(mg, b1, i, b1.occ())
            == crate::moving::legality::enemy_attackers(mg, b2, i, b2.occ()) by {
        }
        if crate::moving::legality::squares_safe(mg, b1, lo, hi) {
            assert forall|i: int| lo <= i <= hi implies #[trigger] crate::moving::legality::enemy_attackers(
                mg,
                b2,
                i,
                b2.occ(),
            ) == 0 by {
                assert(crate::moving::legality::enemy_attackers(mg, b1, i, b1.occ()) == 0);
            }
        }
        if crate::moving::legality::squares_safe(mg, b2, lo, hi) {
            assert forall|i: int| lo <= i <= hi implies #[trigger] crate::moving::legality::enemy_attackers(
                mg,
                b1,
                i,
                b1.occ(),
            ) == 0 by {
                assert(crate::moving::legality::enemy_attackers(mg, b2, i, b2.occ()) == 0);
            }
        }
    }
}

/// The legal moves of a board depend only on its view.
pub proof fn lemma_legal_moves_read_view(mg: MoveGenerator, b1: Board, b2: Board)
    requires
        same_board(b1, b2),
    ensures
        legal_moves(mg, b1) == legal_moves(mg, b2),
{
    lemma_same_board_reads(b1, b2);
    lemma_legality_reads_view(mg, b1, b2);
    assert(pseudo_legal_moves(mg, b1) == pseudo_legal_moves(mg, b2));
    assert(check_answers(mg, b1) == check_answers(mg, b2));
    assert(king_moves(mg, b1) == king_moves(mg, b2));
    let c = b1.checkers();
    let p = pinned(mg, b1);
    let f1 = |m: u16| kept_when_free(mg, b1, p, m);
    let f2 = |m: u16| kept_when_free(mg, b2, pinned(mg, b2), m);
    assert(f1 =~= f2);
    let g1 = |m: u16| king_move_legal(mg, b1, m);
    let g2 = |m: u16| king_move_legal(mg, b2, m);
    assert(g1 =~= g2);
    let h1 = |m: u16| kept_when_checked(mg, b1, c, m);
    let h2 = |m: u16| kept_when_checked(mg, b2, b2.checkers(), m);
    assert(h1 =~= h2);
}
} // verus!
