use vstd::prelude::*;
use crate::constants::{bit, WHITE};
use crate::bitboard_helpers::{get_lsb, lsb, pop_lsb, squares_of, lemma_lsb};
use crate::bits::{lemma_lsb_single, lemma_bit_identities};
use crate::position::board::Board;
use crate::position::piece_set::all_of;
use crate::moving::mv::{Move, start_of, target_of, code_of};
use crate::moving::move_list::MoveList;
use crate::moving::move_generation::MoveGenerator;
use crate::moving::attacks::attackers_spec;

verus! {

/// The pieces of the side not to move that attack square `sq` when `occ`
/// holds the blockers.
pub open spec fn enemy_attackers(mg: MoveGenerator, b: Board, sq: int, occ: u64) -> u64 {
    attackers_spec(mg, b.pieces(b.enemy as int), sq, occ, b.enemy as int)
}

/// The square of the king of the side to move.
pub open spec fn king_square(b: Board) -> int {
    lsb(b.pieces(b.us as int).king)
}

/// A king move is legal when its target is not attacked once the king has
/// left its square.
pub open spec fn king_move_legal(mg: MoveGenerator, b: Board, mv: u16) -> bool {
    enemy_attackers(mg, b, target_of(mv) as int, b.occ() & !b.pieces(b.us as int).king) == 0
}

/// Any other move is legal when, with the piece moved, no piece that the
/// move does not take attacks the king.
pub open spec fn normal_move_legal(mg: MoveGenerator, b: Board, mv: u16) -> bool {
    let t = 1u64 << target_of(mv);
    let occ = (b.occ() & !(1u64 << start_of(mv))) | t;
    enemy_attackers(mg, b, king_square(b), occ) & !t == 0
}

/// The square of the pawn that an en passant move takes.
pub open spec fn ep_capture_sq(b: Board, mv: u16) -> int {
    if b.us == WHITE {
        target_of(mv) - 8
    } else {
        target_of(mv) + 8
    }
}

/// The square of the taken pawn lies on the board.
pub open spec fn ep_in_range(b: Board, mv: u16) -> bool {
    code_of(mv) == 5 ==> 0 <= ep_capture_sq(b, mv) < 64
}

/// An en passant move is legal when the king is not attacked once the moving
/// and the taken pawn have left their squares and the target is filled.
pub open spec fn en_passant_legal(mg: MoveGenerator, b: Board, mv: u16) -> bool {
    let gone = (1u64 << start_of(mv)) | (1u64 << (ep_capture_sq(b, mv) as u64));
    let occ = (b.occ() & !gone) | (1u64 << target_of(mv));
    enemy_attackers(mg, b, king_square(b), occ) == 0
}

/// No square from `lo` to `hi` is attacked.
pub open spec fn squares_safe(mg: MoveGenerator, b: Board, lo: int, hi: int) -> bool {
    forall|i: int| lo <= i <= hi ==> #[trigger] enemy_attackers(mg, b, i, b.occ()) == 0
}

/// Whether a move is legal, by its kind.
pub open spec fn move_legal(mg: MoveGenerator, b: Board, mv: u16) -> bool {
    if code_of(mv) == 5 {
        en_passant_legal(mg, b, mv)
    } else if code_of(mv) == 2 {
        squares_safe(mg, b, start_of(mv) as int, target_of(mv) as int)
    } else if code_of(mv) == 3 {
        squares_safe(mg, b, target_of(mv) as int, start_of(mv) as int)
    } else if start_of(mv) == king_square(b) {
        king_move_legal(mg, b, mv)
    } else {
        normal_move_legal(mg, b, mv)
    }
}

/// An en passant move made while in check is legal when it takes the single
/// checker and leaves the king unattacked by every other piece.
pub open spec fn en_passant_legal_when_check(mg: MoveGenerator, b: Board, mv: u16, checker: u64) -> bool {
    let target_bb = 1u64 << target_of(mv);
    let cap_bb = if b.us == WHITE { target_bb >> 8u64 } else { target_bb << 8u64 };
    let occ = (b.occ() & !((1u64 << start_of(mv)) | cap_bb)) | target_bb;
    enemy_attackers(mg, b, king_square(b), occ) & !(checker & cap_bb) == 0 && checker == cap_bb
}

/// The enemy sliders that see the king through the enemy pieces alone.
pub open spec fn snipers(mg: MoveGenerator, b: Board) -> u64 {
    let k = king_square(b);
    let e = b.pieces(b.enemy as int);
    (mg.slider_bb(true, k, all_of(e)) & e.orthogonals) | (mg.slider_bb(false, k, all_of(e)) & e.diagonals)
}

/// `acc` joined with the own pieces between the king on `k` and each square of `sqs`.
pub open spec fn pins_from(mg: MoveGenerator, k: int, sqs: Seq<int>, allies: u64, acc: u64) -> u64
    decreases sqs.len(),
{
    if sqs.len() == 0 {
        acc
    } else {
        pins_from(mg, k, sqs.drop_first(), allies, acc | (mg.between_bb(k, sqs[0]) & allies))
    }
}

/// The own pieces standing between the king and a sniper.
pub open spec fn pinned(mg: MoveGenerator, b: Board) -> u64 {
    pins_from(mg, king_square(b), squares_of(snipers(mg, b)), all_of(b.pieces(b.us as int)), 0)
}

/// The moves that the filter outside check tests, and keeps when legal: en
/// passant, castles, moves of pinned pieces and king moves.
pub open spec fn kept_when_free(mg: MoveGenerator, b: Board, pins: u64, mv: u16) -> bool {
    let s = 1u64 << start_of(mv);
    let tested = code_of(mv) == 5 || code_of(mv) == 2 || code_of(mv) == 3 || s & pins != 0
        || s & b.pieces(b.us as int).king != 0;
    !(tested && !move_legal(mg, b, mv))
}

/// The squares a move must reach to answer a single check: the checker, and
/// the squares between it and the king when it is a slider.
pub open spec fn check_target_mask(mg: MoveGenerator, b: Board, checker: u64) -> u64 {
    let e = b.pieces(b.enemy as int);
    if (e.diagonals | e.orthogonals) & checker != 0 {
        checker | mg.between_bb(king_square(b), lsb(checker))
    } else {
        checker
    }
}

/// Whether the filter in check keeps a move.
pub open spec fn kept_when_checked(mg: MoveGenerator, b: Board, checker: u64, mv: u16) -> bool {
    if (1u64 << start_of(mv)) & b.pieces(b.us as int).king != 0 {
        king_move_legal(mg, b, mv)
    } else if code_of(mv) == 5 {
        en_passant_legal_when_check(mg, b, mv, checker)
    } else {
        (1u64 << target_of(mv)) & check_target_mask(mg, b, checker) != 0 && normal_move_legal(mg, b, mv)
    }
}

/// The list that results from walking `s` from index `i - 1` down to 0 and
/// removing each move that `keep` rejects, the last move taking its place.
pub open spec fn sweep(s: Seq<u16>, keep: spec_fn(u16) -> bool, i: int) -> Seq<u16>
    decreases i,
{
    if i <= 0 || i > s.len() {
        s
    } else {
        let j = i - 1;
        let next = if keep(s[j]) { s } else { s.update(j, s.last()).drop_last() };
        sweep(next, keep, j)
    }
}

/// Every en passant move of a list takes a pawn on the board.
pub open spec fn ep_moves_in_range(b: Board, s: Seq<u16>) -> bool {
    forall|i: int| 0 <= i < s.len() ==> #[trigger] ep_in_range(b, s[i])
}

impl MoveGenerator {
    /// Removes the moves that leave the king in check, when the side to move
    /// is in check by the single piece `checker`.
    pub fn filter_illegal_moves_when_check(&self, move_list: &mut MoveList, board: &Board, checker: u64)
        requires
            board.sides_ok(),
            board.pieces(board.us as int).king != 0,
        ensures
            final(move_list)@ == sweep(old(move_list)@,
                |m: u16| kept_when_checked(*self, *board, checker, m), old(move_list)@.len() as int),
    {
        let (us, enemy) = board.get_piecesets();
        let king = us.get_king();
        let king_sq = get_lsb(&king);
        let checker_sq = get_lsb(&checker);
        let mut target_mask = checker;
        if (enemy.get_diagonals() | enemy.get_orthogonals()) & checker != 0 {
            proof {
                lemma_lsb(king);
                lemma_bit_identities(enemy@.diagonals | enemy@.orthogonals, 0);
                lemma_lsb(checker);
            }
            target_mask = target_mask | self.get_bb_between(king_sq, checker_sq);
        }
        let ghost keep = |m: u16| kept_when_checked(*self, *board, checker, m);
        let ghost goal = sweep(move_list@, keep, move_list@.len() as int);
        let mut i = move_list.get_count();
        while i > 0
            invariant
                i <= move_list@.len(),
                sweep(move_list@, keep, i as int) == goal,
                keep == (|m: u16| kept_when_checked(*self, *board, checker, m)),
                target_mask == check_target_mask(*self, *board, checker),
                king == board.pieces(board.us as int).king,
                board.sides_ok(),
                board.pieces(board.us as int).king != 0,
            decreases i,
        {
            i -= 1;
            let mv = *move_list.get_move(i);
            let ghost s = move_list@;
            let remove = if mv.get_start_bb() & king != 0 {
                !self.is_king_move_legal(&mv, board)
            } else if mv.is_en_passant() {
                !self.is_en_passant_legal_when_check(board, &mv, checker)
            } else {
                mv.get_target_bb() & target_mask == 0 || !self.is_normal_move_legal(&mv, board)
            };
            assert(remove == !keep(s[i as int]));
            if remove {
                move_list.remove(i);
            }
            assert(sweep(s, keep, i + 1) == sweep(move_list@, keep, i as int));
        }
    }

    /// Removes the moves that leave the king in check, when the side to move
    /// is not in check.
    pub fn filter_illegal_moves(&self, move_list: &mut MoveList, board: &Board)
        requires
            board.sides_ok(),
            board.pieces(board.us as int).king != 0,
            ep_moves_in_range(*board, old(move_list)@),
        ensures
            final(move_list)@ == sweep(old(move_list)@,
                |m: u16| kept_when_free(*self, *board, pinned(*self, *board), m), old(move_list)@.len() as int),
    {
        let pinns = self.get_pinned(board);
        let king = board.get_pieces(board.us).get_king();
        let ghost keep = |m: u16| kept_when_free(*self, *board, pinned(*self, *board), m);
        let ghost goal = sweep(move_list@, keep, move_list@.len() as int);
        let mut i = move_list.get_count();
        while i > 0
            invariant
                i <= move_list@.len(),
                sweep(move_list@, keep, i as int) == goal,
                keep == (|m: u16| kept_when_free(*self, *board, pinned(*self, *board), m)),
                pinns == pinned(*self, *board),
                king == board.pieces(board.us as int).king,
                board.sides_ok(),
                board.pieces(board.us as int).king != 0,
                ep_moves_in_range(*board, move_list@),
            decreases i,
        {
            i -= 1;
            let mv = *move_list.get_move(i);
            let ghost s = move_list@;
            let tested = mv.is_en_passant() || mv.is_kingside_castle() || mv.is_queenside_castle()
                || mv.get_start_bb() & pinns != 0 || mv.get_start_bb() & king != 0;
            assert(ep_in_range(*board, s[i as int]));
            if tested && !self.is_legal(&mv, board) {
                move_list.remove(i);
                assert(ep_moves_in_range(*board, move_list@)) by {
                    assert forall|j: int| 0 <= j < move_list@.len() implies #[trigger] ep_in_range(*board, move_list@[j]) by {
                        if j == i {
                            assert(ep_in_range(*board, s[s.len() - 1]));
                        } else {
                            assert(ep_in_range(*board, s[j]));
                        }
                    }
                }
            }
            assert(sweep(s, keep, i + 1) == sweep(move_list@, keep, i as int));
        }
    }

    /// The own pieces between the king and an enemy slider that sees it.
    pub fn get_pinned(&self, board: &Board) -> (r: u64)
        requires
            board.sides_ok(),
            board.pieces(board.us as int).king != 0,
        ensures
            r == pinned(*self, *board),
    {
        let us_piece_set = board.get_pieces(board.us);
        let enemy_piece_set = board.get_pieces(board.enemy);
        let king_bb = us_piece_set.get_king();
        let allies = us_piece_set.get_all();
        let enemies = enemy_piece_set.get_all();
        let king_sq = get_lsb(&king_bb);
        let mut snipers = (self.get_rook_attacks(king_sq, enemies) & enemy_piece_set.get_orthogonals())
            | (self.get_bishop_attacks(king_sq, enemies) & enemy_piece_set.get_diagonals());
        let mut pinns: u64 = 0;
        let ghost k = king_sq as int;
        while snipers != 0
            invariant
                king_sq < 64,
                k == king_sq as int,
                k == king_square(*board),
                allies == all_of(board.pieces(board.us as int)),
                pins_from(*self, k, squares_of(snipers), allies, pinns) == pinned(*self, *board),
            decreases snipers,
        {
            let ghost old_snipers = snipers;
            let ghost old_pinns = pinns;
            let snip_sq = pop_lsb(&mut snipers);
            pinns = pinns | (self.get_bb_between(king_sq, snip_sq) & allies);
            proof {
                let sq = squares_of(old_snipers);
                assert(sq.drop_first() =~= squares_of(snipers));
                assert(sq[0] == snip_sq as int);
                assert(pins_from(*self, k, sq, allies, old_pinns) == pins_from(*self, k, sq.drop_first(), allies,
                    old_pinns | (self.between_bb(k, sq[0]) & allies)));
            }
        }
        pinns
    }

    /// Whether a move leaves the king of the side to move unattacked.
    pub fn is_legal(&self, mv: &Move, board: &Board) -> (r: bool)
        requires
            board.sides_ok(),
            board.pieces(board.us as int).king != 0,
            ep_in_range(*board, mv@),
        ensures
            r == move_legal(*self, *board, mv@),
    {
        let king = board.players[board.us].get_king();
        let king_i = get_lsb(&king);
        if mv.is_en_passant() {
            self.is_en_passant_legal(mv, board)
        } else if mv.is_kingside_castle() {
            self.is_kingside_castle_legal(mv, board)
        } else if mv.is_queenside_castle() {
            self.is_queenside_castle_legal(mv, board)
        } else if mv.get_start_field() as usize == king_i {
            self.is_king_move_legal(mv, board)
        } else {
            self.is_normal_move_legal(mv, board)
        }
    }

    pub fn is_en_passant_legal(&self, mv: &Move, board: &Board) -> (r: bool)
        requires
            board.sides_ok(),
            board.pieces(board.us as int).king != 0,
            code_of(mv@) == 5 ==> ep_in_range(*board, mv@),
            0 <= ep_capture_sq(*board, mv@) < 64,
        ensures
            r == en_passant_legal(*self, *board, mv@),
    {
        let cap_sq = if board.us == WHITE {
            mv.get_target_field() - 8
        } else {
            mv.get_target_field() + 8
        };
        let king = board.get_pieces(board.us).get_king();
        let start_bb: u64 = mv.get_start_bb();
        let target_bb: u64 = mv.get_target_bb();
        let mut occ = board.get_occupancy();
        let cap_bb: u64 = 1u64 << cap_sq;
        occ = occ & !(start_bb | cap_bb);
        occ = occ | target_bb;
        let attackers = self.attackers_to_exist(board, king, occ, board.enemy);
        attackers == 0
    }

    pub fn is_kingside_castle_legal(&self, mv: &Move, board: &Board) -> (r: bool)
        requires
            board.sides_ok(),
        ensures
            r == squares_safe(*self, *board, start_of(mv@) as int, target_of(mv@) as int),
    {
        let start = mv.get_start_field();
        let target = mv.get_target_field();
        let mut i = start;
        while i < target + 1
            invariant
                start <= i,
                i <= 64,
                target < 64,
                start == start_of(mv@),
                target == target_of(mv@),
                board.sides_ok(),
                forall|j: int| start <= j < i ==> #[trigger] enemy_attackers(*self, *board, j, board.occ()) == 0,
            decreases 64 - i,
        {
            proof {
                lemma_lsb_single(i as int);
            }
            if self.attackers_to_exist(board, 1u64 << i, board.get_occupancy(), board.enemy) != 0 {
                assert(enemy_attackers(*self, *board, i as int, board.occ()) != 0);
                return false;
            }
            i += 1;
        }
        true
    }

    pub fn is_queenside_castle_legal(&self, mv: &Move, board: &Board) -> (r: bool)
        requires
            board.sides_ok(),
        ensures
            r == squares_safe(*self, *board, target_of(mv@) as int, start_of(mv@) as int),
    {
        let start = mv.get_start_field();
        let target = mv.get_target_field();
        let mut i = target;
        while i < start + 1
            invariant
                target <= i,
                i <= 64,
                start < 64,
                start == start_of(mv@),
                target == target_of(mv@),
                board.sides_ok(),
                forall|j: int| target <= j < i ==> #[trigger] enemy_attackers(*self, *board, j, board.occ()) == 0,
            decreases 64 - i,
        {
            proof {
                lemma_lsb_single(i as int);
            }
            if self.attackers_to_exist(board, 1u64 << i, board.get_occupancy(), board.enemy) != 0 {
                assert(enemy_attackers(*self, *board, i as int, board.occ()) != 0);
                return false;
            }
            i += 1;
        }
        true
    }

    pub fn is_king_move_legal(&self, mv: &Move, board: &Board) -> (r: bool)
        requires
            board.sides_ok(),
        ensures
            r == king_move_legal(*self, *board, mv@),
    {
        let occ = board.get_occupancy();
        let king_bb = board.players[board.us].get_king();
        let target = mv.get_target_field();
        let temp_occ = occ & !king_bb;
        proof {
            lemma_lsb_single(target as int);
        }
        self.attackers_to_exist(board, 1u64 << target, temp_occ, board.enemy) == 0
    }

    pub fn is_normal_move_legal(&self, mv: &Move, board: &Board) -> (r: bool)
        requires
            board.sides_ok(),
            board.pieces(board.us as int).king != 0,
        ensures
            r == normal_move_legal(*self, *board, mv@),
    {
        let king = board.players[board.us].get_king();
        let start_bb: u64 = 1u64 << mv.get_start_field();
        let target_bb: u64 = 1u64 << mv.get_target_field();
        let occ = board.get_occupancy();
        let temp_occ = (occ & !start_bb) | target_bb;
        let mut attacker = self.attackers_to_exist(board, king, temp_occ, board.enemy) & !target_bb;
        attacker = attacker & !target_bb;
        proof {
            lemma_bit_identities(attackers_spec(*self, board.pieces(board.enemy as int), lsb(king), temp_occ,
                board.enemy as int), target_bb);
        }
        attacker == 0
    }

    pub fn is_en_passant_legal_when_check(&self, board: &Board, mv: &Move, checker: u64) -> (r: bool)
        requires
            board.sides_ok(),
            board.pieces(board.us as int).king != 0,
        ensures
            r == en_passant_legal_when_check(*self, *board, mv@, checker),
    {
        let cap_bb = if board.us == WHITE {
            mv.get_target_bb() >> 8
        } else {
            mv.get_target_bb() << 8
        };
        let king = board.get_pieces(board.us).get_king();
        let start_bb: u64 = mv.get_start_bb();
        let target_bb: u64 = mv.get_target_bb();
        let mut occ = board.get_occupancy();
        occ = occ & !(start_bb | cap_bb);
        occ = occ | target_bb;
        let mut attackers = self.attackers_to_exist(board, king, occ, board.enemy);
        attackers = attackers & !(checker & cap_bb);
        attackers == 0 && checker == cap_bb
    }
}

} // verus!
