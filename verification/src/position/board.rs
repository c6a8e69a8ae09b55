use vstd::prelude::*;
use std::sync::Arc;
use crate::constants::{BLACK, WHITE, bit};
use crate::bitboard_helpers::lsb;
use crate::position::board_state::BoardState;
use crate::position::piece_set::{PieceSet, Pieces, all_of};
use crate::position::zobrist_hashing::ZobristHasher;
use crate::moving::move_generation::MoveGenerator;
use crate::moving::attacks::attackers_spec;

verus! {

/// A chess position with the history needed to take moves back.
pub struct Board {
    pub players: [PieceSet; 2],
    pub us: usize,
    pub enemy: usize,
    pub hasher: ZobristHasher,
    pub board_state: BoardState,
    pub state_stack: Vec<BoardState>,
    pub hash_stack: Vec<u64>,
    pub checkers: u64,
    pub occ: u64,
    pub mg: Arc<MoveGenerator>,
}

/// `Arc::clone`: the documentation promises a pointer to the same allocation,
/// so the clone holds the same value.
#[verifier::external_body]
fn arc_clone(a: &Arc<MoveGenerator>) -> (r: Arc<MoveGenerator>)
    ensures
        *r == **a,
{
    Arc::clone(a)
}

/// Occupied squares of a position.
pub open spec fn occupancy_of(white: Pieces, black: Pieces) -> u64 {
    all_of(white) | all_of(black)
}

/// The mathematical content of a `Board`, its attack tables aside.
#[verifier::ext_equal]
pub struct Position {
    pub black: Pieces,
    pub white: Pieces,
    pub us: usize,
    pub enemy: usize,
    pub hash: u64,
    pub state: u32,
    pub state_stack: Seq<u32>,
    pub hash_stack: Seq<u64>,
    pub checkers: u64,
    pub occ: u64,
}

impl Position {
    /// The pieces of `color`.
    pub open spec fn side(self, color: int) -> Pieces {
        if color == WHITE {
            self.white
        } else {
            self.black
        }
    }

    /// The position with the pieces of `color` replaced by `x`.
    pub open spec fn with_side(self, color: int, x: Pieces) -> Position {
        if color == WHITE {
            Position { white: x, ..self }
        } else {
            Position { black: x, ..self }
        }
    }
}

/// Occupied squares of a position.
pub open spec fn position_occupancy(p: Position) -> u64 {
    occupancy_of(p.white, p.black)
}

/// The pieces of the side not to move that attack the king of the side to move.
pub open spec fn position_checkers(mg: MoveGenerator, p: Position) -> u64 {
    attackers_spec(mg, p.side(p.enemy as int), lsb(p.side(p.us as int).king), position_occupancy(p), p.enemy as int)
}

impl View for Board {
    type V = Position;

    open spec fn view(&self) -> Position {
        Position {
            black: self.players[0]@,
            white: self.players[1]@,
            us: self.us,
            enemy: self.enemy,
            hash: self.hasher@,
            state: self.state(),
            state_stack: self.state_stack(),
            hash_stack: self.hash_stack(),
            checkers: self.checkers,
            occ: self.occ,
        }
    }
}

impl Board {
    /// The current irreversible state.
    pub open spec fn state(&self) -> u32 {
        self.board_state@
    }

    /// The saved states, oldest first.
    pub open spec fn state_stack(&self) -> Seq<u32> {
        self.state_stack@.map_values(|s: BoardState| s@)
    }

    /// The saved hashes, oldest first.
    pub open spec fn hash_stack(&self) -> Seq<u64> {
        self.hash_stack@
    }

    /// The cached checkers bitboard.
    pub open spec fn checkers(&self) -> u64 {
        self.checkers
    }

    /// The cached occupancy.
    pub open spec fn occ(&self) -> u64 {
        self.occ
    }

    /// The attack tables the position uses.
    pub open spec fn gen(&self) -> MoveGenerator {
        *self.mg
    }

    /// The pieces of `color`.
    pub open spec fn pieces(&self, color: int) -> Pieces {
        self.players[color]@
    }

    /// Occupied squares computed from the pieces.
    pub open spec fn occupancy_spec(&self) -> u64 {
        occupancy_of(self.pieces(WHITE as int), self.pieces(BLACK as int))
    }

    /// The pieces of the side not to move attacking the king of the side to move.
    pub open spec fn checkers_spec(&self) -> u64 {
        attackers_spec(self.gen(), self.pieces(self.enemy as int), lsb(self.pieces(self.us as int).king),
            self.occupancy_spec(), self.enemy as int)
    }

    /// Sides are set consistently and the side to move has a king.
    pub open spec fn sides_ok(&self) -> bool {
        &&& (self.us == WHITE && self.enemy == BLACK) || (self.us == BLACK && self.enemy == WHITE)
        &&& self.pieces(WHITE as int).color == WHITE
        &&& self.pieces(BLACK as int).color == BLACK
    }

    /// A consistent position: sides set, the side to move has a king, and the
    /// cached occupancy and checkers agree with the pieces.
    pub open spec fn wf(&self) -> bool {
        &&& self.sides_ok()
        &&& self.pieces(self.us as int).king != 0
        &&& self.occ() == self.occupancy_spec()
        &&& self.checkers() == self.checkers_spec()
    }

    /// An empty board, white to move, with the given hasher and attack tables.
    pub fn new(hasher: ZobristHasher, mg: Arc<MoveGenerator>) -> (r: Board)
        ensures
            r.players[0]@ == (Pieces { pawns: 0, orthogonals: 0, diagonals: 0, knights: 0, king: 0, color: BLACK }),
            r.players[1]@ == (Pieces { pawns: 0, orthogonals: 0, diagonals: 0, knights: 0, king: 0, color: WHITE }),
            r.us == WHITE,
            r.enemy == BLACK,
            r.hasher@ == hasher@,
            r.state() == 0,
            r.state_stack() == Seq::<u32>::empty(),
            r.hash_stack() == Seq::<u64>::empty(),
            r.checkers() == 0,
            r.occ() == 0,
            r.gen() == *mg,
            r.sides_ok(),
    {
        let r = Board {
            players: [PieceSet::new(BLACK), PieceSet::new(WHITE)],
            us: WHITE,
            hasher,
            enemy: BLACK,
            board_state: BoardState::new(),
            state_stack: Vec::new(),
            hash_stack: Vec::new(),
            checkers: 0,
            occ: 0,
            mg,
        };
        proof {
            assert(r.state_stack() =~= Seq::<u32>::empty());
        }
        r
    }

    /// The attack tables of this position.
    pub fn get_mg(&self) -> (r: &MoveGenerator)
        ensures
            *r == self.gen(),
    {
        &self.mg
    }

    pub fn set_state(&mut self, new_state: BoardState)
        ensures
            final(self).state() == new_state@,
            final(self).players == old(self).players,
            final(self).us == old(self).us,
            final(self).enemy == old(self).enemy,
            final(self).hasher == old(self).hasher,
            final(self).state_stack() == old(self).state_stack(),
            final(self).hash_stack() == old(self).hash_stack(),
            final(self).checkers() == old(self).checkers(),
            final(self).occ() == old(self).occ(),
            final(self).gen() == old(self).gen(),
    {
        self.board_state = new_state;
    }

    /// The state of the position, to change in place.
    pub fn get_mut_state(&mut self) -> (r: &mut BoardState)
        ensures
            *r == old(self).board_state,
            *final(self) == (Board { board_state: *final(r), ..*old(self) }),
    {
        &mut self.board_state
    }

    pub fn get_state(&self) -> (r: BoardState)
        ensures
            r@ == self.state(),
    {
        self.board_state.clone()
    }

    /// Pushes the current state on the stack and makes `new_state` current.
    pub fn push_state_stack(&mut self, new_state: BoardState)
        ensures
            final(self).state() == new_state@,
            final(self).state_stack() == old(self).state_stack().push(old(self).state()),
            final(self).players == old(self).players,
            final(self).us == old(self).us,
            final(self).enemy == old(self).enemy,
            final(self).hasher == old(self).hasher,
            final(self).hash_stack() == old(self).hash_stack(),
            final(self).checkers() == old(self).checkers(),
            final(self).occ() == old(self).occ(),
            final(self).gen() == old(self).gen(),
    {
        let cur = self.board_state.clone();
        self.state_stack.push(cur);
        self.board_state = new_state;
        proof {
            assert(self.state_stack() =~= old(self).state_stack().push(old(self).state()));
        }
    }

    /// Makes the last saved state current again and returns the state it replaces.
    pub fn pop_state(&mut self) -> (r: BoardState)
        requires
            old(self).state_stack().len() > 0,
        ensures
            r@ == old(self).state(),
            final(self).state() == old(self).state_stack().last(),
            final(self).state_stack() == old(self).state_stack().drop_last(),
            final(self).players == old(self).players,
            final(self).us == old(self).us,
            final(self).enemy == old(self).enemy,
            final(self).hasher == old(self).hasher,
            final(self).hash_stack() == old(self).hash_stack(),
            final(self).checkers() == old(self).checkers(),
            final(self).occ() == old(self).occ(),
            final(self).gen() == old(self).gen(),
    {
        let state = self.state_stack.pop().unwrap();
        let cur = self.board_state.clone();
        self.board_state = state;
        proof {
            assert(self.state_stack() =~= old(self).state_stack().drop_last());
        }
        cur
    }

    /// Saves the current hash.
    pub fn push_hash(&mut self)
        ensures
            final(self).hash_stack() == old(self).hash_stack().push(old(self).hasher@),
            final(self).players == old(self).players,
            final(self).us == old(self).us,
            final(self).enemy == old(self).enemy,
            final(self).hasher == old(self).hasher,
            final(self).state() == old(self).state(),
            final(self).state_stack() == old(self).state_stack(),
            final(self).checkers() == old(self).checkers(),
            final(self).occ() == old(self).occ(),
            final(self).gen() == old(self).gen(),
    {
        let hash = self.hasher.get_hash();
        self.hash_stack.push(hash);
    }

    /// Restores the last saved hash, if there is one.
    pub fn pop_hash(&mut self)
        ensures
            old(self).hash_stack().len() > 0 ==> final(self).hasher@ == old(self).hash_stack().last()
                && final(self).hash_stack() == old(self).hash_stack().drop_last(),
            old(self).hash_stack().len() == 0 ==> final(self).hasher == old(self).hasher
                && final(self).hash_stack() == old(self).hash_stack(),
            final(self).players == old(self).players,
            final(self).us == old(self).us,
            final(self).enemy == old(self).enemy,
            final(self).state() == old(self).state(),
            final(self).state_stack() == old(self).state_stack(),
            final(self).checkers() == old(self).checkers(),
            final(self).occ() == old(self).occ(),
            final(self).gen() == old(self).gen(),
    {
        let hash_o = self.hash_stack.pop();
        if let Some(hash) = hash_o {
            self.hasher.set_hash(hash);
        }
    }

    /// Sets the side to move (the side not to move is left as it is).
    pub fn set_side_to_move(&mut self, color: usize)
        ensures
            final(self).us == color,
            final(self).players == old(self).players,
            final(self).enemy == old(self).enemy,
            final(self).hasher == old(self).hasher,
            final(self).state() == old(self).state(),
            final(self).state_stack() == old(self).state_stack(),
            final(self).hash_stack() == old(self).hash_stack(),
            final(self).checkers() == old(self).checkers(),
            final(self).occ() == old(self).occ(),
            final(self).gen() == old(self).gen(),
    {
        self.us = color;
    }

    /// Sets the side to move (the side not to move is left as it is).
    pub fn set_size_to_move(&mut self, color: usize)
        ensures
            final(self).us == color,
            final(self).players == old(self).players,
            final(self).enemy == old(self).enemy,
            final(self).hasher == old(self).hasher,
            final(self).state() == old(self).state(),
            final(self).state_stack() == old(self).state_stack(),
            final(self).hash_stack() == old(self).hash_stack(),
            final(self).checkers() == old(self).checkers(),
            final(self).occ() == old(self).occ(),
            final(self).gen() == old(self).gen(),
    {
        self.us = color;
    }

    pub fn get_pieces(&self, color: usize) -> (r: &PieceSet)
        requires
            color < 2,
        ensures
            *r == self.players[color as int],
    {
        &self.players[color]
    }

    /// The pieces of the side to move and of the other side.
    pub fn get_piecesets(&self) -> (r: (&PieceSet, &PieceSet))
        requires
            self.us < 2,
            self.enemy < 2,
        ensures
            *r.0 == self.players[self.us as int],
            *r.1 == self.players[self.enemy as int],
    {
        (&self.players[self.us], &self.players[self.enemy])
    }

    /// The pieces of the side to move.
    pub fn get_ally_pieces(&self) -> (r: &PieceSet)
        requires
            self.us < 2,
        ensures
            *r == self.players[self.us as int],
    {
        &self.players[self.us]
    }

    pub fn get_occupancy(&self) -> (r: u64)
        ensures
            r == self.occ(),
    {
        self.occ
    }

    /// Recomputes the cached occupancy and checkers from the pieces.
    pub fn compute_occ_and_checkers(&mut self)
        requires
            old(self).sides_ok(),
            old(self).pieces(old(self).us as int).king != 0,
        ensures
            final(self).wf(),
            final(self).players == old(self).players,
            final(self).us == old(self).us,
            final(self).enemy == old(self).enemy,
            final(self).hasher == old(self).hasher,
            final(self).state() == old(self).state(),
            final(self).state_stack() == old(self).state_stack(),
            final(self).hash_stack() == old(self).hash_stack(),
            final(self).gen() == old(self).gen(),
    {
        self.compute_occupancy();
        self.compute_checkers();
    }

    fn compute_occupancy(&mut self)
        requires
            old(self).sides_ok(),
        ensures
            final(self).occ() == final(self).occupancy_spec(),
            final(self).players == old(self).players,
            final(self).us == old(self).us,
            final(self).enemy == old(self).enemy,
            final(self).hasher == old(self).hasher,
            final(self).state() == old(self).state(),
            final(self).state_stack() == old(self).state_stack(),
            final(self).hash_stack() == old(self).hash_stack(),
            final(self).gen() == old(self).gen(),
            final(self).checkers() == old(self).checkers(),
    {
        self.occ = self.players[WHITE].get_all() | self.players[BLACK].get_all();
    }

    fn compute_checkers(&mut self)
        requires
            old(self).sides_ok(),
            old(self).pieces(old(self).us as int).king != 0,
            old(self).occ() == old(self).occupancy_spec(),
        ensures
            final(self).checkers() == old(self).checkers_spec(),
            final(self).players == old(self).players,
            final(self).us == old(self).us,
            final(self).enemy == old(self).enemy,
            final(self).hasher == old(self).hasher,
            final(self).state() == old(self).state(),
            final(self).state_stack() == old(self).state_stack(),
            final(self).hash_stack() == old(self).hash_stack(),
            final(self).gen() == old(self).gen(),
            final(self).occ() == old(self).occ(),
    {
        let king = self.players[self.us].get_king();
        let occ = self.get_occupancy();
        let c = self.mg.attackers_to_exist(self, king, occ, self.enemy);
        self.checkers = c;
    }

    pub fn get_checkers(&self) -> (r: u64)
        ensures
            r == self.checkers(),
    {
        self.checkers
    }

    pub fn get_hash(&self) -> (r: u64)
        ensures
            r == self.hasher@,
    {
        self.hasher.get_hash()
    }

    pub fn set_hasher(&mut self, hasher: ZobristHasher)
        ensures
            final(self).hasher == hasher,
            final(self).players == old(self).players,
            final(self).us == old(self).us,
            final(self).enemy == old(self).enemy,
            final(self).state() == old(self).state(),
            final(self).state_stack() == old(self).state_stack(),
            final(self).hash_stack() == old(self).hash_stack(),
            final(self).checkers() == old(self).checkers(),
            final(self).occ() == old(self).occ(),
            final(self).gen() == old(self).gen(),
    {
        self.hasher = hasher;
    }

    /// The saved hashes, oldest first.
    pub fn get_hash_stack(&self) -> (r: &Vec<u64>)
        ensures
            r@ == self.hash_stack(),
    {
        &self.hash_stack
    }

    /// Whether the side to move is in check.
    pub fn is_check(&self) -> (r: bool)
        ensures
            r == (self.checkers() != 0),
    {
        self.get_checkers() != 0
    }
}

impl Clone for Board {
    fn clone(&self) -> (r: Self)
        ensures
            r.players == self.players,
            r.us == self.us,
            r.enemy == self.enemy,
            r.hasher == self.hasher,
            r.state() == self.state(),
            r.state_stack() == self.state_stack(),
            r.hash_stack() == self.hash_stack(),
            r.checkers() == self.checkers(),
            r.occ() == self.occ(),
            r.gen() == self.gen(),
    {
        let r = Board {
            players: self.players,
            us: self.us,
            enemy: self.enemy,
            hasher: self.hasher,
            board_state: self.board_state.clone(),
            state_stack: self.state_stack.clone(),
            hash_stack: self.hash_stack.clone(),
            checkers: self.checkers,
            occ: self.occ,
            mg: arc_clone(&self.mg),
        };
        proof {
            assert(r.state_stack() =~= self.state_stack());
        }
        r
    }
}

} // verus!
