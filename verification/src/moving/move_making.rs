use vstd::prelude::*;
use crate::constants::{WHITE, BLACK, PAWN, KING, NONE};
use crate::position::board::{Board, Position, position_occupancy, position_checkers};
use crate::position::board_state::{BoardState, castling_of, ep_file_of, captured_of, castle_mask, lemma_packed_fields,
    halfmove_of, move_clock_of};
use crate::position::piece_set::{Pieces, piece_at, move_piece_spec, take_spec, add_spec, moved, castle_king_home, pieces_wf,
    all_of};
use crate::constants::bit;
use crate::position::zobrist_hashing::{zobrist_key, piece_key_index};
use crate::moving::mv::{Move, start_of, target_of, code_of};
use crate::moving::move_generation::MoveGenerator;

verus! {

/// A square name: a file letter `a`..`h` followed by a rank digit `1`..`8`.
pub open spec fn square_name_ok(s: Seq<char>) -> bool {
    s.len() >= 2 && 'a' <= s[0] && s[0] <= 'h' && '1' <= s[1] && s[1] <= '8'
}

/// The square a name stands for: eight squares a rank, a1 first.
pub open spec fn square_of_name(s: Seq<char>) -> int {
    (s[1] as int - '1' as int) * 8 + (s[0] as int - 'a' as int)
}

/// The square of a name like "e4".
pub fn field_str_to_num(field_str: &str) -> (r: u16)
    requires
        square_name_ok(field_str@),
    ensures
        r == square_of_name(field_str@),
        r < 64,
{
    let chars = crate::text::chars_of(field_str);
    let file = (chars[0] as u32 - 'a' as u32) as u16;
    let digit = match crate::text::to_digit(chars[1]) {
        Some(d) => d,
        None => 1,
    };
    let rank = (digit - 1) as u16;
    rank * 8 + file
}

/// The move from the square named `start` to the one named `target` with
/// the move code `code`.
pub fn construct_move(start: &str, target: &str, code: u16) -> (r: Move)
    requires
        square_name_ok(start@),
        square_name_ok(target@),
        code < 16,
    ensures
        start_of(r@) == square_of_name(start@),
        target_of(r@) == square_of_name(target@),
        code_of(r@) == code,
{
    let start = field_str_to_num(start);
    let target = field_str_to_num(target);
    Move::new(start, target, code)
}

/// The square of the pawn that a side moving to `t` takes en passant.
pub open spec fn ep_square(us: int, t: int) -> int {
    if us == WHITE {
        t - 8
    } else {
        t + 8
    }
}

/// Removing the piece on `sq`, if there is one (a king stays).
pub open spec fn take_at(o: Pieces, sq: int) -> Pieces {
    if piece_at(o, sq) != NONE {
        take_spec(o, sq)
    } else {
        o
    }
}

/// The squares (from, to) of the rook of a castle.
pub open spec fn castle_rook(mv: u16) -> (int, int) {
    let s = start_of(mv) as int;
    let t = target_of(mv) as int;
    if code_of(mv) == 2 {
        (t + 1, s + 1)
    } else {
        (t - 2, s - 1)
    }
}

/// The hash `h` with the keys of the moving piece and of the piece on the
/// target square toggled.
pub open spec fn step_hash(p: Position, mv: u16, h: u64) -> u64 {
    let us = p.us as int;
    let them = p.enemy as int;
    let s = start_of(mv) as int;
    let t = target_of(mv) as int;
    let moving = piece_at(p.side(us), s) as int;
    let h2 = toggle_piece(toggle_piece(h, s, moving, us), t, moving, us);
    let cap1 = piece_at(p.side(them), t) as int;
    if cap1 != NONE { toggle_piece(h2, t, cap1, them) } else { h2 }
}

/// The position once the moving piece has moved and the piece on its target
/// square has been taken.
pub open spec fn first_step(p: Position, mv: u16) -> Position {
    let us = p.us as int;
    let them = p.enemy as int;
    let s = start_of(mv) as int;
    let t = target_of(mv) as int;
    Position {
        hash: step_hash(p, mv, p.hash),
        ..p.with_side(us, move_piece_spec(p.side(us), s as u64, t as u64)).with_side(them, take_at(p.side(them), t))
    }
}

/// The pieces of the moving side and of the other side after a move, and the
/// piece the move took (`NONE` if none).
pub open spec fn made_pieces(p: Position, mv: u16) -> (Pieces, Pieces, int) {
    let t = target_of(mv) as int;
    let code = code_of(mv);
    let q = first_step(p, mv);
    let own1 = q.side(p.us as int);
    let other1 = q.side(p.enemy as int);
    let cap = piece_at(p.side(p.enemy as int), t) as int;
    if code == 2 || code == 3 {
        let (rs, rt) = castle_rook(mv);
        (move_piece_spec(own1, rs as u64, rt as u64), other1, cap)
    } else if code == 1 {
        (own1, other1, cap)
    } else if code == 5 {
        let e = ep_square(p.us as int, t);
        (own1, take_at(other1, e), piece_at(other1, e) as int)
    } else if mv & 8 != 0 {
        (add_spec(take_at(own1, t), t, ((mv & 3) + 1) as int), other1, cap)
    } else {
        (own1, other1, cap)
    }
}

/// The castling rights after a move from `s` to `t`: a move from or to a
/// corner ends the right of the rook of that corner.
pub open spec fn castling_after(st: u32, s: int, t: int) -> u32 {
    let a = if s == 0 || t == 0 { st & !0b10000u32 } else { st };
    let b = if s == 7 || t == 7 { a & !0b1000u32 } else { a };
    let c = if s == 56 || t == 56 { b & !0b100u32 } else { b };
    if s == 63 || t == 63 { c & !0b10u32 } else { c }
}

/// The packed state after a move of side `us`, given the kind of the moving
/// piece, the piece on the target square and the piece taken en passant.
pub open spec fn state_after(st: u32, us: int, mv: u16, moving: int, cap1: int, cap_ep: int) -> u32 {
    let s = start_of(mv) as int;
    let t = target_of(mv) as int;
    let code = code_of(mv);
    let s1 = ((st & !0x1e0u32) & !0xe0000000u32) | (6u32 << 29u32);
    let s2 = if us == BLACK { (s1 + 0x20000) as u32 } else { s1 };
    let s3 = castling_after(s2, s, t);
    let s4 = (s3 & !0xe0000000u32) | ((cap1 as u32) << 29u32);
    let s5 = if moving == PAWN || mv & 4 != 0 { s4 & !0x1fe00u32 } else { (s4 + 512) as u32 };
    if code == 2 || code == 3 {
        s5 & !castle_mask(us)
    } else if code == 1 {
        (s5 & !0x1e0u32) | (((t % 8 + 1) as u32) << 5u32)
    } else if code == 5 {
        (s5 & !0xe0000000u32) | ((cap_ep as u32) << 29u32)
    } else if mv & 8 != 0 {
        s5
    } else if moving == KING {
        s5 & !castle_mask(us)
    } else {
        s5
    }
}

/// The packed state after a move.
pub open spec fn made_state(p: Position, mv: u16) -> u32 {
    state_after(p.state, p.us as int, mv, piece_at(p.side(p.us as int), start_of(mv) as int) as int,
        piece_at(p.side(p.enemy as int), target_of(mv) as int) as int, made_pieces(p, mv).2)
}

/// `h` with the key of a piece of kind `piece` and side `color` on `sq` toggled.
pub open spec fn toggle_piece(h: u64, sq: int, piece: int, color: int) -> u64 {
    h ^ zobrist_key(piece_key_index(sq, piece, color) as u64)
}

/// The hash `h` with the keys of the pieces that a move moves, takes and
/// promotes toggled.
pub open spec fn pieces_hash(p: Position, mv: u16, h: u64) -> u64 {
    let us = p.us as int;
    let them = p.enemy as int;
    let t = target_of(mv) as int;
    let code = code_of(mv);
    let q = first_step(p, mv);
    let h3 = step_hash(p, mv, h);
    let own1 = q.side(us);
    let other1 = q.side(them);
    if code == 2 || code == 3 {
        let (rs, rt) = castle_rook(mv);
        let rook = piece_at(own1, rs) as int;
        toggle_piece(toggle_piece(h3, rs, rook, us), rt, rook, us)
    } else if code == 1 {
        h3
    } else if code == 5 {
        let e = ep_square(us, t);
        let c = piece_at(other1, e) as int;
        if c != NONE { toggle_piece(h3, e, c, them) } else { h3 }
    } else if mv & 8 != 0 {
        let pc = piece_at(own1, t) as int;
        let h4 = if pc != NONE { toggle_piece(h3, t, pc, us) } else { h3 };
        toggle_piece(h4, t, ((mv & 3) + 1) as int, us)
    } else {
        h3
    }
}

/// The position once all piece moves of a move are done (sides, state and
/// stacks as before).
pub open spec fn pieces_made(p: Position, mv: u16) -> Position {
    Position {
        hash: pieces_hash(p, mv, p.hash),
        ..p.with_side(p.us as int, made_pieces(p, mv).0).with_side(p.enemy as int, made_pieces(p, mv).1)
    }
}

/// The hash after a move: the keys of the old castling rights and en passant
/// file out, the keys of the pieces toggled, then the keys of the new en
/// passant file, the side to move and the new castling rights in.
pub open spec fn made_hash(p: Position, mv: u16) -> u64 {
    let st = p.state;
    let h0 = p.hash ^ zobrist_key((768 + castling_of(st)) as u64);
    let h1 = if ep_file_of(st) != 0 { h0 ^ zobrist_key((784 + ep_file_of(st) - 1) as u64) } else { h0 };
    let h4 = pieces_hash(p, mv, h1);
    let ns = made_state(p, mv);
    let h5 = if ep_file_of(ns) != 0 { h4 ^ zobrist_key((784 + ep_file_of(ns) - 1) as u64) } else { h4 };
    let h6 = h5 ^ zobrist_key(792);
    h6 ^ zobrist_key((768 + castling_of(ns)) as u64)
}

/// The position after a move: pieces moved, sides swapped, the old state and
/// hash saved, occupancy and checkers computed anew.
pub open spec fn made(p: Position, mg: MoveGenerator, mv: u16) -> Position {
    let (own, other, _) = made_pieces(p, mv);
    let q = p.with_side(p.us as int, own).with_side(p.enemy as int, other);
    let q2 = Position {
        us: p.enemy,
        enemy: p.us,
        hash: made_hash(p, mv),
        state: made_state(p, mv),
        state_stack: p.state_stack.push(p.state),
        hash_stack: p.hash_stack.push(p.hash),
        ..q
    };
    Position { occ: position_occupancy(q2), checkers: position_checkers(mg, q2), ..q2 }
}

/// `unmake_kingside_castle` on a set.
pub open spec fn unmake_kingside_spec(o: Pieces) -> Pieces {
    Pieces {
        king: castle_king_home(o.color),
        orthogonals: if o.color == WHITE { moved(o.orthogonals, 5, 7) } else { moved(o.orthogonals, 61, 63) },
        ..o
    }
}

/// `unmake_queenside_castle` on a set.
pub open spec fn unmake_queenside_spec(o: Pieces) -> Pieces {
    Pieces {
        king: castle_king_home(o.color),
        orthogonals: if o.color == WHITE { moved(o.orthogonals, 3, 0) } else { moved(o.orthogonals, 59, 56) },
        ..o
    }
}

/// The pieces of the side that moved and of the other side when a move is
/// taken back from `q` (the position after it).
pub open spec fn unmade_pieces(q: Position, mv: u16) -> (Pieces, Pieces) {
    let us = q.enemy as int;
    let them = q.us as int;
    let s = start_of(mv) as int;
    let t = target_of(mv) as int;
    let code = code_of(mv);
    let own = q.side(us);
    let other = q.side(them);
    if code == 5 {
        (move_piece_spec(own, t as u64, s as u64), add_spec(other, ep_square(us, t), PAWN as int))
    } else if code == 3 {
        (unmake_queenside_spec(own), other)
    } else if code == 2 {
        (unmake_kingside_spec(own), other)
    } else {
        let other2 = if mv & 4 != 0 { add_spec(other, t, captured_of(q.state) as int) } else { other };
        let own2 = if mv & 8 != 0 {
            add_spec(take_spec(own, t), s, PAWN as int)
        } else {
            move_piece_spec(own, t as u64, s as u64)
        };
        (own2, other2)
    }
}

/// The position after taking a move back: sides swapped back, pieces put
/// back, the saved state and hash restored, occupancy and checkers computed anew.
pub open spec fn unmade(q: Position, mg: MoveGenerator, mv: u16) -> Position {
    let (own, other) = unmade_pieces(q, mv);
    let r = q.with_side(q.enemy as int, own).with_side(q.us as int, other);
    let r2 = Position {
        us: q.enemy,
        enemy: q.us,
        state: q.state_stack.last(),
        state_stack: q.state_stack.drop_last(),
        hash: if q.hash_stack.len() > 0 { q.hash_stack.last() } else { q.hash },
        hash_stack: if q.hash_stack.len() > 0 { q.hash_stack.drop_last() } else { q.hash_stack },
        ..r
    };
    Position { occ: position_occupancy(r2), checkers: position_checkers(mg, r2), ..r2 }
}

/// What `make_move` needs of a position and a move: sides set, a piece of the
/// side to move on the start square, a king for the other side, an en passant
/// file in range, the rook squares of a castle and the square of a pawn taken
/// en passant on the board, and a piece on the rook square of a castle.
pub open spec fn make_ready(p: Position, mv: u16) -> bool {
    let s = start_of(mv) as int;
    let t = target_of(mv) as int;
    let code = code_of(mv);
    &&& (p.us == WHITE && p.enemy == BLACK) || (p.us == BLACK && p.enemy == WHITE)
    &&& p.white.color == WHITE
    &&& p.black.color == BLACK
    &&& p.side(p.enemy as int).king != 0
    &&& piece_at(p.side(p.us as int), s) != NONE
    &&& ep_file_of(p.state) <= 8
    &&& code == 2 ==> s + 1 < 64 && t + 1 < 64
    &&& code == 3 ==> s >= 1 && t >= 2
    &&& (code == 2 || code == 3) ==> piece_at(move_piece_spec(p.side(p.us as int), s as u64, t as u64),
        castle_rook(mv).0) != NONE
    &&& code == 5 ==> 0 <= ep_square(p.us as int, t) < 64
}

/// Ends the castling right of a rook whose corner a move leaves or reaches.
fn check_castling_rights(new_state: &mut BoardState, start: usize, target: usize)
    ensures
        final(new_state)@ == castling_after(old(new_state)@, start as int, target as int),
        ep_file_of(final(new_state)@) == ep_file_of(old(new_state)@),
{
    if start == 0 || target == 0 {
        new_state.disable_queenside_castling_rights(WHITE);
    }
    if start == 7 || target == 7 {
        new_state.disable_kingside_castling_rights(WHITE);
    }
    if start == 56 || target == 56 {
        new_state.disable_queenside_castling_rights(BLACK);
    }
    if start == 63 || target == 63 {
        new_state.disable_kingside_castling_rights(BLACK);
    }
}

/// The state after a move of side `us`, from the state before it, the kinds
/// of the moving piece, of the piece on the target square and of the piece
/// taken en passant.
fn state_after_move(state: &BoardState, us: usize, mv: &Move, moving: usize, cap1: usize, cap_ep: usize) -> (r:
    BoardState)
    requires
        us == WHITE || us == BLACK,
        moving < 7,
        cap1 < 7,
        cap_ep < 7,
    ensures
        r@ == state_after(state@, us as int, mv@, moving as int, cap1 as int, cap_ep as int),
        ep_file_of(r@) <= 8,
{
    let mut new_state = state.clone();
    new_state.clear_en_passant_file();
    let ghost a1 = new_state@;
    new_state.set_captured_piece(NONE);
    let ghost a2 = new_state@;
    proof {
        lemma_packed_fields(a1, 6, 0);
        lemma_packed_fields(a2, 0, 0);
    }
    if us == BLACK {
        new_state.increase_move_clock();
    }
    let start = mv.get_start_field() as usize;
    let target = mv.get_target_field() as usize;
    let ghost a3 = new_state@;
    check_castling_rights(&mut new_state, start, target);
    let ghost a4 = new_state@;
    new_state.set_captured_piece(cap1);
    let ghost a5 = new_state@;
    proof {
        lemma_packed_fields(a4, cap1 as u32, 0);
        lemma_packed_fields(a5, 0, 0);
    }
    if moving == PAWN || mv.is_capture() {
        new_state.clear_halfmove_clock();
    } else {
        new_state.increment_halfmove_clock();
    }
    let ghost a6 = new_state@;
    proof {
        assert(ep_file_of(a6) == 0);
    }
    if mv.is_kingside_castle() || mv.is_queenside_castle() {
        new_state.disable_all_castling_rights(us);
    } else if mv.is_double_pawn_move() {
        let file = target % 8 + 1;
        new_state.set_en_passant_file(file);
    } else if mv.is_en_passant() {
        new_state.set_captured_piece(cap_ep);
        proof {
            lemma_packed_fields(a6, cap_ep as u32, 0);
        }
    } else if mv.is_promotion() {
    } else if moving == KING {
        new_state.disable_all_castling_rights(us);
    }
    new_state
}

/// What `unmake_move` needs of the position after a move: sides set, a saved
/// state, a king for the side that moved, the square of a pawn taken en
/// passant on the board, and a piece kind in the captured field of a capture.
pub open spec fn unmake_ready(q: Position, mv: u16) -> bool {
    let t = target_of(mv) as int;
    let code = code_of(mv);
    &&& (q.us == WHITE && q.enemy == BLACK) || (q.us == BLACK && q.enemy == WHITE)
    &&& q.white.color == WHITE
    &&& q.black.color == BLACK
    &&& q.side(q.enemy as int).king != 0
    &&& q.state_stack.len() > 0
    &&& code == 5 ==> 0 <= ep_square(q.enemy as int, t) < 64
    &&& (code != 2 && code != 3 && code != 5 && mv & 4 != 0) ==> captured_of(q.state) < 6
}

impl Board {
    /// Takes `mv` back: the sides swap back, the pieces return, and the saved
    /// state and hash are restored.
    pub fn unmake_move(&mut self, mv: &Move)
        requires
            unmake_ready(old(self)@, mv@),
        ensures
            final(self)@ == unmade(old(self)@, old(self).gen(), mv@),
            final(self).gen() == old(self).gen(),
    {
        let ghost q = self@;
        let us = self.enemy;
        let enemy = self.us;
        self.us = us;
        self.enemy = enemy;
        let start = mv.get_start_field() as usize;
        let target = mv.get_target_field() as usize;
        let popped_state = self.pop_state();
        if mv.is_en_passant() {
            self.players[us].move_piece(target, start);
            let en_passant_square = if us == WHITE {
                target - 8
            } else {
                target + 8
            };
            self.players[enemy].add_piece(en_passant_square, PAWN);
        } else if mv.is_queenside_castle() {
            self.players[us].unmake_queenside_castle();
        } else if mv.is_kingside_castle() {
            self.players[us].unmake_kingside_castle();
        } else {
            if mv.is_capture() {
                let piece = popped_state.get_captured_piece();
                self.players[enemy].add_piece(target, piece as usize);
            }
            if mv.is_promotion() {
                self.players[us].take(target);
                self.players[us].add_piece(start, PAWN);
            } else {
                self.players[us].move_piece(target, start);
            }
        }
        self.pop_hash();
        proof {
            crate::bits::lemma_lsb_single(start as int);
            crate::bits::lemma_square_masks();
            assert(self.players[us as int]@ == unmade_pieces(q, mv@).0);
            assert(self.players[enemy as int]@ == unmade_pieces(q, mv@).1);
        }
        self.compute_occ_and_checkers();
        proof {
            assert(self@ =~= unmade(q, old(self).gen(), mv@));
        }
    }

    /// Plays `mv`: moves the pieces, updates the state and the hash, saves the
    /// old state and hash, and hands the move to the other side.
    #[verifier::rlimit(60)]
    pub fn make_move(&mut self, mv: &Move)
        requires
            make_ready(old(self)@, mv@),
        ensures
            final(self)@ == made(old(self)@, old(self).gen(), mv@),
            final(self).gen() == old(self).gen(),
    {
        let ghost p = self@;
        let state = self.get_state();
        self.push_hash();
        let ep_file = state.get_en_passant_file();
        let castling_rights = state.get_castling_rights();
        self.hasher.toggle_castling_rights(castling_rights as usize);
        if ep_file != 0 {
            self.hasher.toggle_en_passant_file(ep_file - 1);
        }
        let us = self.us;
        let enemy = self.enemy;
        let (moving_piece, captured_piece, ep_piece) = self.make_pieces(mv);
        let new_state = state_after_move(&state, us, mv, moving_piece, captured_piece, ep_piece);
        let new_ep = new_state.get_en_passant_file();
        if new_ep != 0 {
            self.hasher.toggle_en_passant_file(new_ep - 1);
        }
        self.hasher.toggle_moving_side();
        self.hasher.toggle_castling_rights(new_state.get_castling_rights() as usize);
        self.push_state_stack(new_state);
        self.us = enemy;
        self.enemy = us;
        self.compute_occ_and_checkers();
        proof {
            assert(self@ =~= made(p, old(self).gen(), mv@));
        }
    }

    /// The piece moves of `make_move`: the moving piece, the taken piece, the
    /// rook of a castle, the pawn taken en passant and the promotion; returns
    /// the kinds of the moving piece, of the piece on the target square and of
    /// the piece taken en passant.
    fn make_pieces(&mut self, mv: &Move) -> (r: (usize, usize, usize))
        requires
            make_ready(old(self)@, mv@),
        ensures
            r.0 == piece_at(old(self)@.side(old(self)@.us as int), start_of(mv@) as int),
            r.1 == piece_at(old(self)@.side(old(self)@.enemy as int), target_of(mv@) as int),
            r.2 == made_pieces(old(self)@, mv@).2,
            r.0 < 7 && r.1 < 7 && r.2 < 7,
            final(self)@ == pieces_made(old(self)@, mv@),
            final(self).gen() == old(self).gen(),
    {
        let ghost p = self@;
        let start = mv.get_start_field() as usize;
        let target = mv.get_target_field() as usize;
        let us = self.us;
        let enemy = self.enemy;
        let moving_piece = self.move_piece(start, target, us);
        let captured_piece = self.take(target, enemy);
        proof {
            assert(self@ =~= first_step(p, mv@));
        }
        let mut ep_piece = captured_piece;
        if mv.is_kingside_castle() || mv.is_queenside_castle() {
            self.finish_castle(mv, Ghost(p));
        } else if mv.is_en_passant() {
            ep_piece = self.finish_en_passant(mv, Ghost(p));
        } else if mv.is_promotion() && !mv.is_double_pawn_move() {
            self.finish_promotion(mv, Ghost(p));
        } else {
            proof {
                assert(pieces_made(p, mv@) =~= first_step(p, mv@));
            }
        }
        (moving_piece, captured_piece, ep_piece)
    }

    /// Moves the rook of a castle.
    fn finish_castle(&mut self, mv: &Move, Ghost(p): Ghost<Position>)
        requires
            make_ready(p, mv@),
            code_of(mv@) == 2 || code_of(mv@) == 3,
            old(self)@ == first_step(p, mv@),
        ensures
            final(self)@ == pieces_made(p, mv@),
            final(self).gen() == old(self).gen(),
    {
        let start = mv.get_start_field() as usize;
        let target = mv.get_target_field() as usize;
        let us = self.us;
        if mv.is_kingside_castle() {
            self.move_piece(target + 1, start + 1, us);
        } else {
            self.move_piece(target - 2, start - 1, us);
        }
        proof {
            assert(self@ =~= pieces_made(p, mv@));
        }
    }

    /// Takes the pawn captured en passant; returns its kind.
    fn finish_en_passant(&mut self, mv: &Move, Ghost(p): Ghost<Position>) -> (r: usize)
        requires
            make_ready(p, mv@),
            code_of(mv@) == 5,
            old(self)@ == first_step(p, mv@),
        ensures
            final(self)@ == pieces_made(p, mv@),
            r == made_pieces(p, mv@).2,
            final(self).gen() == old(self).gen(),
    {
        let target = mv.get_target_field() as usize;
        let en_passant_field = if self.us == WHITE {
            target - 8
        } else {
            target + 8
        };
        let enemy = self.enemy;
        let taken = self.take(en_passant_field, enemy);
        proof {
            assert(self@ =~= pieces_made(p, mv@));
        }
        taken
    }

    /// Replaces the promoted pawn by the promotion piece.
    fn finish_promotion(&mut self, mv: &Move, Ghost(p): Ghost<Position>)
        requires
            make_ready(p, mv@),
            code_of(mv@) != 2 && code_of(mv@) != 3 && code_of(mv@) != 5 && code_of(mv@) != 1,
            mv@ & 8 != 0,
            old(self)@ == first_step(p, mv@),
        ensures
            final(self)@ == pieces_made(p, mv@),
            final(self).gen() == old(self).gen(),
    {
        let target = mv.get_target_field() as usize;
        let us = self.us;
        let promotion_piece = mv.get_promotion_piece();
        let ghost q = first_step(p, mv@);
        let ghost pc = piece_at(q.side(us as int), target as int) as int;
        let ghost h4 = if pc != NONE { toggle_piece(q.hash, target as int, pc, us as int) } else { q.hash };
        self.take(target, us);
        proof {
            assert(self@ =~= (Position { hash: h4, ..q.with_side(us as int, take_at(q.side(us as int), target as int)) }));
        }
        self.add_piece(target, promotion_piece, us);
        proof {
            assert(pieces_made(p, mv@).hash == toggle_piece(h4, target as int, promotion_piece as int, us as int));
            assert(self@ =~= pieces_made(p, mv@));
        }
    }

    /// Moves the piece of `color` on `start` to `target` and toggles its keys;
    /// returns its kind.
    fn move_piece(&mut self, start: usize, target: usize, color: usize) -> (r: usize)
        requires
            start < 64,
            target < 64,
            color < 2,
            piece_at(old(self)@.side(color as int), start as int) != NONE,
        ensures
            r == piece_at(old(self)@.side(color as int), start as int),
            final(self)@ == (Position {
                hash: toggle_piece(toggle_piece(old(self)@.hash, start as int, r as int, color as int), target as int,
                    r as int, color as int),
                ..old(self)@.with_side(color as int, move_piece_spec(old(self)@.side(color as int), start as u64,
                    target as u64))
            }),
            final(self).gen() == old(self).gen(),
    {
        let piece = self.players[color].get_piece_at(start);
        self.players[color].move_piece(start, target);
        self.hasher.toggle_sq_piece(start, piece, color);
        self.hasher.toggle_sq_piece(target, piece, color);
        proof {
            assert(self@ =~= (Position {
                hash: toggle_piece(toggle_piece(old(self)@.hash, start as int, piece as int, color as int), target
                    as int, piece as int, color as int),
                ..old(self)@.with_side(color as int, move_piece_spec(old(self)@.side(color as int), start as u64,
                    target as u64))
            }));
        }
        piece
    }

    /// Removes the piece of `color` on `square`, if any, toggling its key;
    /// returns its kind (`NONE` if the square was empty).
    fn take(&mut self, square: usize, color: usize) -> (r: usize)
        requires
            square < 64,
            color < 2,
        ensures
            r == piece_at(old(self)@.side(color as int), square as int),
            final(self)@ == (Position {
                hash: if r != NONE { toggle_piece(old(self)@.hash, square as int, r as int, color as int) } else {
                    old(self)@.hash
                },
                ..old(self)@.with_side(color as int, take_at(old(self)@.side(color as int), square as int))
            }),
            final(self).gen() == old(self).gen(),
    {
        let piece = self.players[color].get_piece_at(square);
        if piece != NONE {
            self.players[color].take(square);
            self.hasher.toggle_sq_piece(square, piece, color);
        }
        proof {
            assert(self@ =~= (Position {
                hash: if piece != NONE { toggle_piece(old(self)@.hash, square as int, piece as int, color as int) }
                else { old(self)@.hash },
                ..old(self)@.with_side(color as int, take_at(old(self)@.side(color as int), square as int))
            }));
        }
        piece
    }

    /// Puts a piece of kind `piece` and side `color` on `square`, toggling its key.
    fn add_piece(&mut self, square: usize, piece: usize, color: usize)
        requires
            square < 64,
            piece < 6,
            color < 2,
        ensures
            final(self)@ == (Position {
                hash: toggle_piece(old(self)@.hash, square as int, piece as int, color as int),
                ..old(self)@.with_side(color as int, add_spec(old(self)@.side(color as int), square as int, piece as int))
            }),
            final(self).gen() == old(self).gen(),
    {
        self.players[color].add_piece(square, piece);
        self.hasher.toggle_sq_piece(square, piece, color);
        proof {
            assert(self@ =~= (Position {
                hash: toggle_piece(old(self)@.hash, square as int, piece as int, color as int),
                ..old(self)@.with_side(color as int, add_spec(old(self)@.side(color as int), square as int, piece as int))
            }));
        }
    }
}

/// A consistent position: sides set with their colours, well-formed piece
/// sets that share no square, a king on each side, and occupancy and checkers
/// that agree with the pieces.
pub open spec fn position_wf(p: Position, mg: MoveGenerator) -> bool {
    &&& (p.us == WHITE && p.enemy == BLACK) || (p.us == BLACK && p.enemy == WHITE)
    &&& p.white.color == WHITE
    &&& p.black.color == BLACK
    &&& pieces_wf(p.white)
    &&& pieces_wf(p.black)
    &&& all_of(p.white) & all_of(p.black) == 0
    &&& p.white.king != 0
    &&& p.black.king != 0
    &&& ep_file_of(p.state) <= 8
    &&& p.occ == position_occupancy(p)
    &&& p.checkers == position_checkers(mg, p)
}

/// A castle that fits a position: the king on its home square, the rook on
/// its corner, and the squares that king and rook land on free.
pub open spec fn castle_fits(p: Position, mv: u16) -> bool {
    let s = start_of(mv) as int;
    let t = target_of(mv) as int;
    let own = p.side(p.us as int);
    let home: int = if p.us == WHITE { 0 } else { 56 };
    &&& s == home + 4
    &&& own.king == 1u64 << (s as u64)
    &&& code_of(mv) == 2 ==> t == home + 6 && bit(own.orthogonals, home + 7) && !bit(own.diagonals, home + 7)
        && !bit(all_of(own), home + 5)
    &&& code_of(mv) == 3 ==> t == home + 2 && bit(own.orthogonals, home) && !bit(own.diagonals, home)
        && !bit(all_of(own), home + 3)
}

/// A move that fits a position: a piece of the side to move on its start
/// square, no own piece on its target, a single king if the king moves, a
/// piece of the other side (not its king) on the target exactly when the move
/// is a capture, a pawn for a promotion, and for en passant and castles the
/// pieces they need.
pub open spec fn move_fits(p: Position, mv: u16) -> bool {
    let s = start_of(mv) as int;
    let t = target_of(mv) as int;
    let code = code_of(mv);
    let own = p.side(p.us as int);
    let other = p.side(p.enemy as int);
    &&& s != t
    &&& bit(all_of(own), s)
    &&& !bit(all_of(own), t)
    &&& bit(own.king, s) ==> own.king == 1u64 << (s as u64)
    &&& (code == 2 || code == 3) ==> castle_fits(p, mv) && !bit(all_of(other), t)
    &&& code == 5 ==> {
        let e = ep_square(p.us as int, t);
        &&& 0 <= e < 64
        &&& bit(own.pawns, s)
        &&& bit(other.pawns, e)
        &&& !bit(all_of(other), t)
    }
    &&& (code != 2 && code != 3 && code != 5) ==> {
        &&& mv & 4 != 0 ==> bit(all_of(other), t) && !bit(other.king, t)
        &&& mv & 4 == 0 ==> !bit(all_of(other), t)
        &&& mv & 8 != 0 ==> bit(own.pawns, s)
    }
}

/// The captured field of the state after a capture holds the taken piece.
proof fn lemma_made_state_captured(p: Position, mv: u16)
    requires
        code_of(mv) != 2 && code_of(mv) != 3 && code_of(mv) != 5,
        mv & 4 != 0,
        piece_at(p.side(p.enemy as int), target_of(mv) as int) < 7,
        p.us == WHITE || p.us == BLACK,
    ensures
        captured_of(made_state(p, mv)) == piece_at(p.side(p.enemy as int), target_of(mv) as int),
{
    let s = start_of(mv) as int;
    let t = target_of(mv) as int;
    let cap1 = piece_at(p.side(p.enemy as int), t);
    let moving = piece_at(p.side(p.us as int), s);
    let cap_ep = made_pieces(p, mv).2;
    crate::moving::mv::lemma_move_fields(mv);
    assert(made_state(p, mv) == state_after(p.state, p.us as int, mv, moving as int, cap1 as int, cap_ep));
    let s1 = ((p.state & !0x1e0u32) & !0xe0000000u32) | (6u32 << 29u32);
    let s2 = if p.us == BLACK { (s1 + 0x20000) as u32 } else { s1 };
    let s3 = castling_after(s2, s, t);
    let s4 = (s3 & !0xe0000000u32) | ((cap1 as u32) << 29u32);
    lemma_packed_fields(s3, cap1 as u32, 0);
    lemma_packed_fields(s4, 0, castle_mask(p.us as int));
    let s5 = s4 & !0x1fe00u32;
    lemma_packed_fields(s5, 0, castle_mask(p.us as int));
}

/// A moved king or a king left alone is still on the board.
proof fn lemma_king_stays(o: Pieces, s: int, t: int)
    requires
        0 <= s < 64,
        0 <= t < 64,
        o.king != 0,
    ensures
        move_piece_spec(o, s as u64, t as u64).king != 0,
{
    crate::bits::lemma_lsb_single(t);
}

/// Promoting a pawn and taking the promotion back restores the pieces.
proof fn lemma_promotion_round_trip(o: Pieces, s: int, t: int, promo: int)
    requires
        pieces_wf(o),
        0 <= s < 64,
        0 <= t < 64,
        s != t,
        bit(o.pawns, s),
        !bit(all_of(o), t),
        1 <= promo <= 4,
    ensures
        ({
            let o1 = move_piece_spec(o, s as u64, t as u64);
            let o2 = add_spec(take_at(o1, t), t, promo);
            add_spec(take_spec(o2, t), s, PAWN as int) == o
        }),
{
    let o1 = move_piece_spec(o, s as u64, t as u64);
    crate::position::piece_set::lemma_wf_square(o, s);
    crate::position::piece_set::lemma_wf_square(o, t);
    crate::position::piece_set::lemma_moved_bits_pub(o.pawns, s as u64, t as u64);
    assert(o1 == Pieces { pawns: moved(o.pawns, s as u64, t as u64), ..o });
    assert(piece_at(o1, t) == PAWN);
    let ms = 1u64 << (s as u64);
    let mt = 1u64 << (t as u64);
    let o2 = add_spec(take_spec(o1, t), t, promo);
    let o3 = take_spec(o2, t);
    // pawns: moved(p, s, t) & !t, cleared of t again, plus s
    assert(o3.pawns == (moved(o.pawns, s as u64, t as u64) & !mt) & !mt);
    crate::bits::lemma_bit_identities(moved(o.pawns, s as u64, t as u64), mt);
    assert forall|q: int| 0 <= q < 64 implies #[trigger] bit(moved(o.pawns, s as u64, t as u64) & !mt, q) == bit(
        o.pawns & !ms, q) by {
        crate::bits::lemma_bits(moved(o.pawns, s as u64, t as u64), !mt, q);
        crate::bits::lemma_bits(o.pawns, !ms, q);
        crate::bits::lemma_bits(mt, 0, q);
        crate::bits::lemma_bits(ms, 0, q);
        crate::bits::lemma_bit_single(t, q);
        crate::bits::lemma_bit_single(s, q);
    }
    crate::bits::lemma_bits_ext(moved(o.pawns, s as u64, t as u64) & !mt, o.pawns & !ms);
    crate::position::piece_set::lemma_clear_set(o.pawns, s);
    crate::position::piece_set::lemma_clear_set(o.orthogonals, t);
    crate::position::piece_set::lemma_clear_set(o.diagonals, t);
    crate::position::piece_set::lemma_clear_set(o.knights, t);
    crate::bits::lemma_bit_identities(o.orthogonals & !mt, mt);
    crate::bits::lemma_bit_identities(o.diagonals & !mt, mt);
    crate::bits::lemma_bit_identities(o.knights & !mt, mt);
    assert(add_spec(o3, s, PAWN as int) =~= o);
}

/// A consistent position and a move that fits it meet what `make_move` needs.
proof fn lemma_fits_ready(p: Position, mg: MoveGenerator, mv: u16)
    requires
        position_wf(p, mg),
        move_fits(p, mv),
    ensures
        make_ready(p, mv),
{
    let s = start_of(mv) as int;
    let t = target_of(mv) as int;
    let own = p.side(p.us as int);
    crate::moving::mv::lemma_move_fields(mv);
    crate::position::piece_set::lemma_wf_square(own, s);
    if code_of(mv) == 2 || code_of(mv) == 3 {
        crate::bits::lemma_bit_single(s, s);
        let (rs, rt) = castle_rook(mv);
        let own1 = move_piece_spec(own, s as u64, t as u64);
        assert(bit(own1.orthogonals, rs));
    }
}

/// Taking back an en passant capture restores both sides.
proof fn lemma_restore_en_passant(p: Position, mg: MoveGenerator, mv: u16)
    requires
        position_wf(p, mg),
        move_fits(p, mv),
        code_of(mv) == 5,
    ensures
        unmade_pieces(made(p, mg, mv), mv) == (p.side(p.us as int), p.side(p.enemy as int)),
        made_pieces(p, mv).0.king != 0,
{
    let s = start_of(mv) as int;
    let t = target_of(mv) as int;
    let own = p.side(p.us as int);
    let other = p.side(p.enemy as int);
    let e = ep_square(p.us as int, t);
    crate::moving::mv::lemma_move_fields(mv);
    crate::position::piece_set::lemma_take_empty(other, t);
    crate::position::piece_set::lemma_wf_square(other, e);
    crate::position::piece_set::lemma_wf_square(own, s);
    crate::position::piece_set::lemma_take_add(other, e);
    crate::position::piece_set::law_move_piece_round_trip(own, s as u64, t as u64);
    lemma_king_stays(own, s, t);
    let q = made(p, mg, mv);
    assert(q.side(p.us as int) == made_pieces(p, mv).0);
    assert(q.side(p.enemy as int) == made_pieces(p, mv).1);
}

/// Taking back a castle restores both sides.
proof fn lemma_restore_castle(p: Position, mg: MoveGenerator, mv: u16)
    requires
        position_wf(p, mg),
        move_fits(p, mv),
        code_of(mv) == 2 || code_of(mv) == 3,
    ensures
        unmade_pieces(made(p, mg, mv), mv) == (p.side(p.us as int), p.side(p.enemy as int)),
        made_pieces(p, mv).0.king != 0,
{
    let s = start_of(mv) as int;
    let t = target_of(mv) as int;
    let own = p.side(p.us as int);
    let other = p.side(p.enemy as int);
    crate::moving::mv::lemma_move_fields(mv);
    crate::position::piece_set::lemma_take_empty(other, t);
    crate::bits::lemma_bit_single(s, s);
    crate::bits::lemma_bit_single(s, t);
    crate::bits::lemma_lsb_single(t);
    crate::bits::lemma_square_masks();
    crate::position::piece_set::lemma_wf_square(own, s);
    let (rs, rt) = castle_rook(mv);
    crate::position::piece_set::lemma_wf_square(own, rs);
    crate::bits::lemma_bit_single(t, rs);
    let own1 = move_piece_spec(own, s as u64, t as u64);
    assert(own1 == Pieces { king: 1u64 << (t as u64), ..own });
    let own2 = move_piece_spec(own1, rs as u64, rt as u64);
    assert(own2 == Pieces { king: 1u64 << (t as u64), orthogonals: moved(own.orthogonals, rs as u64, rt as u64),
        ..own });
    crate::position::piece_set::lemma_wf_square(own, rt);
    crate::position::piece_set::lemma_moved_bits_pub(own.orthogonals, rs as u64, rt as u64);
    let q = made(p, mg, mv);
    assert(q.side(p.us as int) == made_pieces(p, mv).0);
    assert(q.side(p.enemy as int) == made_pieces(p, mv).1);
    assert(unmade_pieces(q, mv).0 =~= own);
}

/// Taking back any other move restores both sides.
proof fn lemma_restore_plain(p: Position, mg: MoveGenerator, mv: u16)
    requires
        position_wf(p, mg),
        move_fits(p, mv),
        code_of(mv) != 2 && code_of(mv) != 3 && code_of(mv) != 5,
    ensures
        unmade_pieces(made(p, mg, mv), mv) == (p.side(p.us as int), p.side(p.enemy as int)),
        made_pieces(p, mv).0.king != 0,
{
    let s = start_of(mv) as int;
    let t = target_of(mv) as int;
    let own = p.side(p.us as int);
    let other = p.side(p.enemy as int);
    crate::moving::mv::lemma_move_fields(mv);
    crate::position::piece_set::lemma_wf_square(own, s);
    crate::position::piece_set::lemma_wf_square(other, t);
    lemma_king_stays(own, s, t);
    let q = made(p, mg, mv);
    assert(q.side(p.us as int) == made_pieces(p, mv).0);
    assert(q.side(p.enemy as int) == made_pieces(p, mv).1);
    if mv & 4 != 0 {
        crate::position::piece_set::lemma_take_add(other, t);
        lemma_made_state_captured(p, mv);
    } else {
        crate::position::piece_set::lemma_take_empty(other, t);
    }
    if mv & 8 != 0 {
        lemma_promotion_round_trip(own, s, t, ((mv & 3) + 1) as int);
        crate::moving::mv::lemma_move_fields(mv);
    } else {
        crate::position::piece_set::law_move_piece_round_trip(own, s as u64, t as u64);
    }
}

/// Taking back a move restores the position it was made in: for a consistent
/// position and a move that fits it, `make_move` can be applied, `unmake_move`
/// can then be applied, and it gives back the pieces, the side to move, the
/// state, the hash, both stacks, the occupancy and the checkers.
pub proof fn law_unmake_undoes_make(p: Position, mg: MoveGenerator, mv: u16)
    requires
        position_wf(p, mg),
        move_fits(p, mv),
    ensures
        make_ready(p, mv),
        unmake_ready(made(p, mg, mv), mv),
        unmade(made(p, mg, mv), mg, mv) == p,
{
    lemma_fits_ready(p, mg, mv);
    let q = made(p, mg, mv);
    crate::moving::mv::lemma_move_fields(mv);
    if code_of(mv) == 5 {
        lemma_restore_en_passant(p, mg, mv);
    } else if code_of(mv) == 2 || code_of(mv) == 3 {
        lemma_restore_castle(p, mg, mv);
    } else {
        lemma_restore_plain(p, mg, mv);
        if mv & 4 != 0 {
            lemma_made_state_captured(p, mv);
            crate::position::piece_set::lemma_wf_square(p.side(p.enemy as int), target_of(mv) as int);
        }
    }
    assert(q.side(p.us as int) == made_pieces(p, mv).0);
    assert(q.state_stack.drop_last() =~= p.state_stack);
    assert(q.hash_stack.drop_last() =~= p.hash_stack);
    assert(unmade(q, mg, mv) =~= p);
}

/// The en passant file after a move: the file of the square passed over
/// (counted from 1) after a double pawn push, and none after any other move.
pub proof fn law_en_passant_file(p: Position, mg: MoveGenerator, mv: u16)
    ensures
        ep_file_of(made(p, mg, mv).state) == if code_of(mv) == 1 {
            (target_of(mv) % 8 + 1) as u32
        } else {
            0u32
        },
{
    let st = p.state;
    let us = p.us as int;
    let s = start_of(mv) as int;
    let t = target_of(mv) as int;
    let moving = piece_at(p.side(us), s) as int;
    let cap1 = piece_at(p.side(p.enemy as int), t) as int;
    let cap_ep = made_pieces(p, mv).2;
    let s0 = st & !0x1e0u32;
    let s1 = ((st & !0x1e0u32) & !0xe0000000u32) | (6u32 << 29u32);
    lemma_packed_fields(st, 0, 0);
    lemma_packed_fields(s0, 6, 0);
    let s2 = if us == BLACK { (s1 + 0x20000) as u32 } else { s1 };
    lemma_packed_fields(s1, 0, 0);
    let a = if s == 0 || t == 0 { s2 & !0b10000u32 } else { s2 };
    lemma_packed_fields(s2, 0, 0);
    let b = if s == 7 || t == 7 { a & !0b1000u32 } else { a };
    lemma_packed_fields(a, 0, 0);
    let c = if s == 56 || t == 56 { b & !0b100u32 } else { b };
    lemma_packed_fields(b, 0, 0);
    let s3 = castling_after(s2, s, t);
    lemma_packed_fields(c, 0, 0);
    let s4 = (s3 & !0xe0000000u32) | ((cap1 as u32) << 29u32);
    lemma_packed_fields(s3, cap1 as u32, 0);
    let s5 = if moving == PAWN || mv & 4 != 0 { s4 & !0x1fe00u32 } else { (s4 + 512) as u32 };
    lemma_packed_fields(s4, 0, 0);
    lemma_packed_fields(s5, ((t % 8 + 1) as u32), castle_mask(us));
    lemma_packed_fields(s5, cap_ep as u32, 0);
    assert(made(p, mg, mv).state == made_state(p, mv));
    assert(made_state(p, mv) == state_after(st, us, mv, moving, cap1, cap_ep));
    assert(cap1 < 8 && cap_ep < 8);
    assert(ep_file_of(s3) == 0);
    assert(ep_file_of(s5) == 0);
}

/// Castling rights after a move: a move of the king (castling included)
/// ends both rights of its side, and a move from or to a rook's corner ends
/// the right of that corner (a1 white queenside, h1 white kingside, a8 black
/// queenside, h8 black kingside).
pub proof fn law_castling_rights(p: Position, mg: MoveGenerator, mv: u16)
    requires
        p.us == WHITE || p.us == BLACK,
    ensures
        piece_at(p.side(p.us as int), start_of(mv) as int) == KING && (code_of(mv) == 0 || code_of(mv) == 2
            || code_of(mv) == 3 || code_of(mv) == 4) ==> castling_of(made(p, mg, mv).state) & (if p.us == WHITE {
            0b1100u32
        } else {
            0b11u32
        }) == 0,
        (start_of(mv) == 0 || target_of(mv) == 0) ==> castling_of(made(p, mg, mv).state) & 8 == 0,
        (start_of(mv) == 7 || target_of(mv) == 7) ==> castling_of(made(p, mg, mv).state) & 4 == 0,
        (start_of(mv) == 56 || target_of(mv) == 56) ==> castling_of(made(p, mg, mv).state) & 2 == 0,
        (start_of(mv) == 63 || target_of(mv) == 63) ==> castling_of(made(p, mg, mv).state) & 1 == 0,
{
    let st = p.state;
    let us = p.us as int;
    let s = start_of(mv) as int;
    let t = target_of(mv) as int;
    let moving = piece_at(p.side(us), s) as int;
    let cap1 = piece_at(p.side(p.enemy as int), t) as int;
    let cap_ep = made_pieces(p, mv).2;
    let s0 = st & !0x1e0u32;
    let s1 = ((st & !0x1e0u32) & !0xe0000000u32) | (6u32 << 29u32);
    lemma_packed_fields(st, 0, 0);
    lemma_packed_fields(s0, 6, 0);
    let s2 = if us == BLACK { (s1 + 0x20000) as u32 } else { s1 };
    lemma_packed_fields(s1, 0, 0);
    let a = if s == 0 || t == 0 { s2 & !0b10000u32 } else { s2 };
    lemma_packed_fields(s2, 0, 0);
    let b = if s == 7 || t == 7 { a & !0b1000u32 } else { a };
    lemma_packed_fields(a, 0, 0);
    let c = if s == 56 || t == 56 { b & !0b100u32 } else { b };
    lemma_packed_fields(b, 0, 0);
    let s3 = castling_after(s2, s, t);
    lemma_packed_fields(c, 0, 0);
    let s4 = (s3 & !0xe0000000u32) | ((cap1 as u32) << 29u32);
    lemma_packed_fields(s3, cap1 as u32, 0);
    let s5 = if moving == PAWN || mv & 4 != 0 { s4 & !0x1fe00u32 } else { (s4 + 512) as u32 };
    lemma_packed_fields(s4, 0, 0);
    lemma_packed_fields(s5, ((t % 8 + 1) as u32), castle_mask(us));
    lemma_packed_fields(s5, cap_ep as u32, 0);
    assert(made(p, mg, mv).state == made_state(p, mv));
    assert(made_state(p, mv) == state_after(st, us, mv, moving, cap1, cap_ep));
    crate::moving::mv::lemma_move_fields(mv);
    lemma_packed_fields(a, 8, 0b1000u32);
    lemma_packed_fields(a, 8, 0b100u32);
    lemma_packed_fields(a, 8, 0b10u32);
    lemma_packed_fields(b, 8, 0b100u32);
    lemma_packed_fields(b, 8, 0b10u32);
    lemma_packed_fields(b, 4, 0b100u32);
    lemma_packed_fields(b, 4, 0b10u32);
    lemma_packed_fields(c, 8, 0b10u32);
    lemma_packed_fields(c, 4, 0b10u32);
    lemma_packed_fields(c, 2, 0b10u32);
    lemma_packed_fields(s5, 8, castle_mask(us));
    lemma_packed_fields(s5, 4, castle_mask(us));
    lemma_packed_fields(s5, 2, castle_mask(us));
    lemma_packed_fields(s5, 1, castle_mask(us));
    lemma_packed_fields(s5, 0b1100, castle_mask(us));
    lemma_packed_fields(s5, 0b11, castle_mask(us));
}

/// The halfmove clock: a pawn move or a capture sets it to 0; any other move
/// (by a knight, bishop, rook, queen or king, castles included) adds one to
/// it, while it is below its largest value.
pub proof fn law_halfmove_clock(p: Position, mg: MoveGenerator, mv: u16)
    ensures
        (piece_at(p.side(p.us as int), start_of(mv) as int) == PAWN || mv & 4 != 0) ==> halfmove_of(
            made(p, mg, mv).state,
        ) == 0,
        (piece_at(p.side(p.us as int), start_of(mv) as int) != PAWN && mv & 4 == 0 && halfmove_of(p.state) < 255)
            ==> halfmove_of(made(p, mg, mv).state) == halfmove_of(p.state) + 1,
{
    let st = p.state;
    let us = p.us as int;
    let s = start_of(mv) as int;
    let t = target_of(mv) as int;
    let moving = piece_at(p.side(us), s) as int;
    let cap1 = piece_at(p.side(p.enemy as int), t) as int;
    let cap_ep = made_pieces(p, mv).2;
    let s0 = st & !0x1e0u32;
    let s1 = ((st & !0x1e0u32) & !0xe0000000u32) | (6u32 << 29u32);
    lemma_packed_fields(st, 0, 0);
    lemma_packed_fields(s0, 6, 0);
    let s2 = if us == BLACK { (s1 + 0x20000) as u32 } else { s1 };
    lemma_packed_fields(s1, 0, 0);
    let a = if s == 0 || t == 0 { s2 & !0b10000u32 } else { s2 };
    lemma_packed_fields(s2, 0, 0);
    let b = if s == 7 || t == 7 { a & !0b1000u32 } else { a };
    lemma_packed_fields(a, 0, 0);
    let c = if s == 56 || t == 56 { b & !0b100u32 } else { b };
    lemma_packed_fields(b, 0, 0);
    let s3 = castling_after(s2, s, t);
    lemma_packed_fields(c, 0, 0);
    assert(halfmove_of(s3) == halfmove_of(st));
    let s4 = (s3 & !0xe0000000u32) | ((cap1 as u32) << 29u32);
    lemma_packed_fields(s3, cap1 as u32, 0);
    assert(halfmove_of(s4) == halfmove_of(st));
    let s5 = if moving == PAWN || mv & 4 != 0 { s4 & !0x1fe00u32 } else { (s4 + 512) as u32 };
    lemma_packed_fields(s4, 0, 0);
    lemma_packed_fields(s5, ((t % 8 + 1) as u32), castle_mask(us));
    lemma_packed_fields(s5, cap_ep as u32, 0);
    assert(made(p, mg, mv).state == made_state(p, mv));
    assert(made_state(p, mv) == state_after(st, us, mv, moving, cap1, cap_ep));
}

/// The move number goes up by one after each move of black and stays the
/// same after a move of white (while neither clock is at its largest value).
pub proof fn law_move_clock(p: Position, mg: MoveGenerator, mv: u16)
    requires
        halfmove_of(p.state) < 255,
        move_clock_of(p.state) < 4095,
    ensures
        move_clock_of(made(p, mg, mv).state) == move_clock_of(p.state) + if p.us == BLACK {
            1int
        } else {
            0int
        },
{
    let st = p.state;
    let us = p.us as int;
    let s = start_of(mv) as int;
    let t = target_of(mv) as int;
    let moving = piece_at(p.side(us), s) as int;
    let cap1 = piece_at(p.side(p.enemy as int), t) as int;
    let cap_ep = made_pieces(p, mv).2;
    let s0 = st & !0x1e0u32;
    let s1 = ((st & !0x1e0u32) & !0xe0000000u32) | (6u32 << 29u32);
    lemma_packed_fields(st, 0, 0);
    lemma_packed_fields(s0, 6, 0);
    let s2 = if us == BLACK { (s1 + 0x20000) as u32 } else { s1 };
    lemma_packed_fields(s1, 0, 0);
    let a = if s == 0 || t == 0 { s2 & !0b10000u32 } else { s2 };
    lemma_packed_fields(s2, 0, 0);
    let b = if s == 7 || t == 7 { a & !0b1000u32 } else { a };
    lemma_packed_fields(a, 0, 0);
    let c = if s == 56 || t == 56 { b & !0b100u32 } else { b };
    lemma_packed_fields(b, 0, 0);
    let s3 = castling_after(s2, s, t);
    lemma_packed_fields(c, 0, 0);
    assert(halfmove_of(s3) == halfmove_of(st));
    assert(move_clock_of(s3) == move_clock_of(st) + if us == BLACK {
        1int
    } else {
        0int
    });
    let s4 = (s3 & !0xe0000000u32) | ((cap1 as u32) << 29u32);
    lemma_packed_fields(s3, cap1 as u32, 0);
    assert(halfmove_of(s4) == halfmove_of(st));
    assert(move_clock_of(s4) == move_clock_of(s3));
    let s5 = if moving == PAWN || mv & 4 != 0 { s4 & !0x1fe00u32 } else { (s4 + 512) as u32 };
    lemma_packed_fields(s4, 0, 0);
    lemma_packed_fields(s5, ((t % 8 + 1) as u32), castle_mask(us));
    lemma_packed_fields(s5, cap_ep as u32, 0);
    assert(made(p, mg, mv).state == made_state(p, mv));
    assert(made_state(p, mv) == state_after(st, us, mv, moving, cap1, cap_ep));
}

} // verus!
