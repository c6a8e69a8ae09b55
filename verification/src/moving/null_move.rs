use vstd::prelude::*;
use crate::constants::{WHITE, BLACK};
use crate::position::board::{Board, Position, position_occupancy, position_checkers};
use crate::position::zobrist_hashing::{zobrist_key, pieces_key, position_hash};
use crate::position::board_state::{castling_of, ep_file_of};
use crate::moving::move_generation::MoveGenerator;
use crate::moving::move_making::position_wf;

verus! {

/// The position after passing the move: en passant file cleared, side key
/// toggled, old state and hash saved, sides swapped.
pub open spec fn null_made(p: Position, mg: MoveGenerator) -> Position {
    let q = Position {
        us: p.enemy,
        enemy: p.us,
        hash: p.hash ^ zobrist_key(792),
        state: p.state & !0x1e0u32,
        state_stack: p.state_stack.push(p.state),
        hash_stack: p.hash_stack.push(p.hash),
        ..p
    };
    Position { occ: position_occupancy(q), checkers: position_checkers(mg, q), ..q }
}

/// The position after taking a pass back: saved hash and state restored,
/// sides swapped back.
pub open spec fn null_unmade(q: Position, mg: MoveGenerator) -> Position {
    let r = Position {
        us: q.enemy,
        enemy: q.us,
        hash: if q.hash_stack.len() > 0 { q.hash_stack.last() } else { q.hash },
        hash_stack: if q.hash_stack.len() > 0 { q.hash_stack.drop_last() } else { q.hash_stack },
        state: q.state_stack.last(),
        state_stack: q.state_stack.drop_last(),
        ..q
    };
    Position { occ: position_occupancy(r), checkers: position_checkers(mg, r), ..r }
}

/// Sides set with their colours and a king for the side not to move.
pub open spec fn null_ready(p: Position) -> bool {
    &&& (p.us == WHITE && p.enemy == BLACK) || (p.us == BLACK && p.enemy == WHITE)
    &&& p.white.color == WHITE
    &&& p.black.color == BLACK
    &&& p.side(p.enemy as int).king != 0
}

impl Board {
    /// Passes the move to the other side.
    pub fn make_null_mv(&mut self)
        requires
            null_ready(old(self)@),
        ensures
            final(self)@ == null_made(old(self)@, old(self).gen()),
            final(self).gen() == old(self).gen(),
    {
        self.push_hash();
        let state = self.get_state();
        let mut new_state = state.clone();
        new_state.clear_en_passant_file();
        self.hasher.toggle_moving_side();
        self.push_state_stack(new_state);
        let us = self.us;
        self.us = self.enemy;
        self.enemy = us;
        self.compute_occ_and_checkers();
        proof {
            assert(self@ =~= null_made(old(self)@, old(self).gen()));
        }
    }

    /// Takes a pass back.
    pub fn unmake_null_move(&mut self)
        requires
            null_ready(old(self)@),
            old(self)@.state_stack.len() > 0,
        ensures
            final(self)@ == null_unmade(old(self)@, old(self).gen()),
            final(self).gen() == old(self).gen(),
    {
        self.pop_hash();
        self.pop_state();
        let us = self.us;
        self.us = self.enemy;
        self.enemy = us;
        self.compute_occ_and_checkers();
        proof {
            assert(self@ =~= null_unmade(old(self)@, old(self).gen()));
        }
    }
}

/// Taking back a pass restores the position it was made in.
pub proof fn law_unmake_null_undoes_null(p: Position, mg: MoveGenerator)
    requires
        position_wf(p, mg),
    ensures
        null_ready(p),
        null_ready(null_made(p, mg)),
        null_made(p, mg).state_stack.len() > 0,
        null_unmade(null_made(p, mg), mg) == p,
{
    let q = null_made(p, mg);
    assert(q.state_stack.drop_last() =~= p.state_stack);
    assert(q.hash_stack.drop_last() =~= p.hash_stack);
    assert(null_unmade(q, mg) =~= p);
}


/// Passing the move keeps the hash that the board carries equal to the hash
/// of the position computed from scratch, when no en passant file is set
/// (passing clears the file from the state but leaves its key in the hash).
pub proof fn law_null_keeps_hash(p: Position, mg: MoveGenerator)
    requires
        (p.us == WHITE && p.enemy == BLACK) || (p.us == BLACK && p.enemy == WHITE),
        ep_file_of(p.state) == 0,
        p.hash == position_hash(p),
    ensures
        null_made(p, mg).hash == position_hash(null_made(p, mg)),
{
    let st = p.state;
    let ns = st & !0x1e0u32;
    assert(castling_of(ns) == castling_of(st) && ep_file_of(ns) == 0) by (bit_vector)
        requires
            ns == st & !0x1e0u32,
    ;
    let pk = pieces_key(p.white, p.black, 64);
    let c = zobrist_key((768 + castling_of(st)) as u64);
    let sk = zobrist_key(792);
    assert((pk ^ c) ^ sk ^ sk == pk ^ c) by (bit_vector);
}
} // verus!
