use vstd::prelude::*;
use crate::constants::{WHITE, BLACK, NONE};
use crate::position::piece_set::{Pieces, piece_at};
use crate::position::board::{Board, Position};
use crate::position::board_state::{castling_of, ep_file_of};

verus! {

/// Index of the side-to-move key.
pub const SIDE_KEY: u64 = 792;
/// First index of the castling-rights keys (16 of them).
pub const CASTLING_KEYS: u64 = 768;
/// First index of the en passant file keys (8 of them).
pub const EN_PASSANT_KEYS: u64 = 784;

/// Key number `i`: the splitmix64 output for `i`.
#[verifier::opaque]
pub open spec fn zobrist_key(i: u64) -> u64 {
    let z0 = i.wrapping_add(1).wrapping_mul(0x9E3779B97F4A7C15u64);
    let z1 = (z0 ^ (z0 >> 30u64)).wrapping_mul(0xBF58476D1CE4E5B9u64);
    let z2 = (z1 ^ (z1 >> 27u64)).wrapping_mul(0x94D049BB133111EBu64);
    z2 ^ (z2 >> 31u64)
}

/// Index of the key of a piece of `color` and kind `piece` on `sq`.
pub open spec fn piece_key_index(sq: int, piece: int, color: int) -> int {
    color * 384 + piece * 64 + sq
}

/// Zobrist key number `i`.
pub fn key(i: u64) -> (r: u64)
    ensures
        r == zobrist_key(i),
{
    reveal(zobrist_key);
    let z0 = i.wrapping_add(1).wrapping_mul(0x9E3779B97F4A7C15u64);
    let z1 = (z0 ^ (z0 >> 30u64)).wrapping_mul(0xBF58476D1CE4E5B9u64);
    let z2 = (z1 ^ (z1 >> 27u64)).wrapping_mul(0x94D049BB133111EBu64);
    z2 ^ (z2 >> 31u64)
}

/// A running Zobrist hash: each feature of a position toggles its key in or out.
#[derive(Clone, Copy)]
pub struct ZobristHasher {
    hash: u64,
}

impl View for ZobristHasher {
    type V = u64;

    closed spec fn view(&self) -> u64 {
        self.hash
    }
}

impl ZobristHasher {
    pub fn new() -> (r: Self)
        ensures
            r@ == 0,
    {
        ZobristHasher { hash: 0 }
    }

    pub fn get_hash(&self) -> (r: u64)
        ensures
            r == self@,
    {
        self.hash
    }

    pub fn set_hash(&mut self, hash: u64)
        ensures
            final(self)@ == hash,
    {
        self.hash = hash;
    }

    pub fn toggle_moving_side(&mut self)
        ensures
            final(self)@ == old(self)@ ^ zobrist_key(SIDE_KEY),
    {
        self.hash = self.hash ^ key(SIDE_KEY);
    }

    /// Toggles the key of a 4-bit castling-rights value.
    pub fn toggle_castling_rights(&mut self, castling_rights: usize)
        requires
            castling_rights < 16,
        ensures
            final(self)@ == old(self)@ ^ zobrist_key((CASTLING_KEYS + castling_rights) as u64),
    {
        self.hash = self.hash ^ key(CASTLING_KEYS + castling_rights as u64);
    }

    /// Toggles the key of an en passant file (0..8).
    pub fn toggle_en_passant_file(&mut self, file: usize)
        requires
            file < 8,
        ensures
            final(self)@ == old(self)@ ^ zobrist_key((EN_PASSANT_KEYS + file) as u64),
    {
        self.hash = self.hash ^ key(EN_PASSANT_KEYS + file as u64);
    }

    /// Toggles the key of a piece of kind `piece` and side `color` on `sq`.
    pub fn toggle_sq_piece(&mut self, sq: usize, piece: usize, color: usize)
        requires
            sq < 64,
            piece < 6,
            color < 2,
        ensures
            final(self)@ == old(self)@ ^ zobrist_key(piece_key_index(sq as int, piece as int, color as int) as u64),
    {
        let i = (color * 384 + piece * 64 + sq) as u64;
        self.hash = self.hash ^ key(i);
    }
}

/// The XOR of the keys of the pieces on the squares below `n`.
pub open spec fn pieces_key(white: Pieces, black: Pieces, n: int) -> u64
    decreases n,
{
    if n <= 0 {
        0
    } else {
        let sq = n - 1;
        let h = pieces_key(white, black, n - 1);
        let pw = piece_at(white, sq);
        let pb = piece_at(black, sq);
        let hw = if pw != NONE { h ^ zobrist_key(piece_key_index(sq, pw as int, WHITE as int) as u64) } else { h };
        if pb != NONE { hw ^ zobrist_key(piece_key_index(sq, pb as int, BLACK as int) as u64) } else { hw }
    }
}

/// The hash of a position computed from scratch: the keys of all pieces, of
/// the castling rights, of the en passant file if any, and of the side to
/// move when black is to move.
pub open spec fn position_hash(p: Position) -> u64 {
    let h = pieces_key(p.white, p.black, 64) ^ zobrist_key((CASTLING_KEYS + castling_of(p.state)) as u64);
    let h2 = if ep_file_of(p.state) != 0 {
        h ^ zobrist_key((EN_PASSANT_KEYS + ep_file_of(p.state) - 1) as u64)
    } else {
        h
    };
    if p.us == BLACK { h2 ^ zobrist_key(SIDE_KEY) } else { h2 }
}

impl Board {
    /// Computes the hash of the position from scratch.
    pub fn compute_hash(&mut self)
        requires
            ep_file_of(old(self)@.state) <= 8,
        ensures
            final(self)@ == (Position { hash: position_hash(old(self)@), ..old(self)@ }),
            final(self).gen() == old(self).gen(),
    {
        let mut h: u64 = 0;
        let mut sq: usize = 0;
        while sq < 64
            invariant
                sq <= 64,
                h == pieces_key(self.players[1]@, self.players[0]@, sq as int),
            decreases 64 - sq,
        {
            let pw = self.players[WHITE].get_piece_at(sq);
            let pb = self.players[BLACK].get_piece_at(sq);
            if pw != NONE {
                h = h ^ key((WHITE * 384 + pw * 64 + sq) as u64);
            }
            if pb != NONE {
                h = h ^ key((BLACK * 384 + pb * 64 + sq) as u64);
            }
            sq = sq + 1;
        }
        let state = self.get_state();
        h = h ^ key(CASTLING_KEYS + state.get_castling_rights() as u64);
        let ep = state.get_en_passant_file();
        if ep != 0 {
            h = h ^ key(EN_PASSANT_KEYS + (ep - 1) as u64);
        }
        if self.us == BLACK {
            h = h ^ key(SIDE_KEY);
        }
        self.hasher.set_hash(h);
        proof {
            assert(self@ =~= (Position { hash: position_hash(old(self)@), ..old(self)@ }));
        }
    }
}

} // verus!
