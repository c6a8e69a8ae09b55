use vstd::prelude::*;
use crate::constants::{BLACK, KING, QUEEN, WHITE};

verus! {

/// The irreversible part of a position, packed into one 32-bit word:
/// bit 0 side to move, bits 1..5 castling rights (black kingside, black
/// queenside, white kingside, white queenside), bits 5..9 en passant file
/// (0 = none, 1..8 = files a..h), bits 9..17 halfmove clock, bits 17..29
/// move clock, bits 29..32 captured piece.
pub struct BoardState {
    value: u32,
}

/// Side-to-move field of a packed state.
pub open spec fn side_of(v: u32) -> u32 {
    v & 1
}

/// Castling-rights field (4 bits) of a packed state.
pub open spec fn castling_of(v: u32) -> u32 {
    (v & 0x1e) >> 1
}

/// En passant file field (4 bits) of a packed state.
pub open spec fn ep_file_of(v: u32) -> u32 {
    (v & 0x1e0) >> 5
}

/// Halfmove clock field (8 bits) of a packed state.
pub open spec fn halfmove_of(v: u32) -> u32 {
    (v & 0x1fe00) >> 9
}

/// Move clock field (12 bits) of a packed state.
pub open spec fn move_clock_of(v: u32) -> u32 {
    (v & 0x1ffe0000) >> 17
}

/// Captured piece field (3 bits) of a packed state.
pub open spec fn captured_of(v: u32) -> u32 {
    (v & 0xe0000000) >> 29
}

/// Mask of the kingside castling right of `color` inside the packed word.
pub open spec fn kingside_mask(color: int) -> u32 {
    if color == WHITE { 0b1000 } else { 0b10 }
}

/// Mask of the queenside castling right of `color` inside the packed word.
pub open spec fn queenside_mask(color: int) -> u32 {
    if color == WHITE { 0b10000 } else { 0b100 }
}

/// Mask of both castling rights of `color`.
pub open spec fn castle_mask(color: int) -> u32 {
    if color == WHITE { 0b11000 } else { 0b110 }
}

/// Two packed states agree on every field but the castling rights.
pub open spec fn same_but_castling(a: u32, b: u32) -> bool {
    &&& side_of(a) == side_of(b)
    &&& ep_file_of(a) == ep_file_of(b)
    &&& halfmove_of(a) == halfmove_of(b)
    &&& move_clock_of(a) == move_clock_of(b)
    &&& captured_of(a) == captured_of(b)
}

impl View for BoardState {
    type V = u32;

    closed spec fn view(&self) -> u32 {
        self.value
    }
}

impl Clone for BoardState {
    fn clone(&self) -> (r: Self)
        ensures
            r@ == self@,
    {
        BoardState { value: self.value }
    }
}

impl Default for BoardState {
    fn default() -> (r: Self)
        ensures
            r@ == 0,
    {
        BoardState { value: 0 }
    }
}

impl BoardState {
    /// The empty state: white... every field zero.
    pub fn new() -> (r: Self)
        ensures
            r@ == 0,
    {
        BoardState { value: 0 }
    }

    pub fn get_side_to_move(&self) -> (r: u8)
        ensures
            r == side_of(self@),
    {
        let v = self.value;
        proof {
            lemma_packed_fields(v, 0, 0);
        }
        (self.value & SIDE_TO_MOVE_MASK) as u8
    }

    /// Stores `side_to_move` in bit 0; a value above 1 spills into the castling rights.
    pub fn set_side_to_move(&mut self, side_to_move: u8)
        ensures
            final(self)@ == (old(self)@ & !1u32) | (side_to_move as u32),
            side_to_move < 2 ==> side_of(final(self)@) == side_to_move,
            side_to_move < 2 ==> castling_of(final(self)@) == castling_of(old(self)@)
                && same_but_castling(final(self)@ & !1u32, old(self)@ & !1u32),
    {
        let v = self.value;
        let s = side_to_move as u32;
        proof {
            lemma_packed_fields(v, s, 0);
        }
        self.value = (self.value & !SIDE_TO_MOVE_MASK) | s;
    }

    pub fn flip_side_to_move(&mut self)
        ensures
            final(self)@ == old(self)@ ^ 1u32,
            side_of(final(self)@) == 1 - side_of(old(self)@),
            castling_of(final(self)@) == castling_of(old(self)@),
            same_but_castling(final(self)@ & !1u32, old(self)@ & !1u32),
    {
        let v = self.value;
        proof {
            lemma_packed_fields(v, 0, 0);
        }
        self.value = self.value ^ SIDE_TO_MOVE_MASK;
    }

    pub fn can_castle_kingside(&self, color: usize) -> (r: bool)
        requires
            color < 2,
        ensures
            r == (self@ & kingside_mask(color as int) != 0),
    {
        if color == WHITE {
            self.value & WHITE_KINGSIDE_CASTLE_MASK != 0
        } else {
            self.value & BLACK_KINGSIDE_CASTLE_MASK != 0
        }
    }

    pub fn can_castle_queenside(&self, color: usize) -> (r: bool)
        requires
            color < 2,
        ensures
            r == (self@ & queenside_mask(color as int) != 0),
    {
        if color == WHITE {
            self.value & WHITE_QUEENSIDE_CASTLE_MASK != 0
        } else {
            self.value & BLACK_QUEENSIDE_CASTLE_MASK != 0
        }
    }

    /// Replaces the four castling bits; bits of `castling_rights` above the
    /// fourth spill into the following fields.
    pub fn set_castling_rights(&mut self, castling_rights: u32)
        ensures
            final(self)@ == (old(self)@ & !CASTLING_RIGHTS_MASK) | ((castling_rights << 1u32) as u32),
            castling_rights < 16 ==> castling_of(final(self)@) == castling_rights,
            castling_rights < 16 ==> same_but_castling(final(self)@, old(self)@),
    {
        let v = self.value;
        let c = castling_rights;
        proof {
            lemma_packed_fields(v, c, 0);
            lemma_packed_fields((v & !0x1eu32) | (c << 1u32), 0, 0);
            if c < 16 {
                lemma_packed_fields(v, (v & !0x1eu32) | (c << 1u32), 0);
            }
        }
        self.value = (self.value & !CASTLING_RIGHTS_MASK) | (castling_rights << 1);
    }

    pub fn get_castling_rights(&self) -> (r: u32)
        ensures
            r == castling_of(self@),
            r < 16,
    {
        let v = self.value;
        proof {
            lemma_packed_fields(v, 0, 0);
        }
        (self.value & CASTLING_RIGHTS_MASK) >> 1
    }

    pub fn disable_all_castling_rights(&mut self, color: usize)
        requires
            color < 2,
        ensures
            final(self)@ == old(self)@ & !castle_mask(color as int),
            same_but_castling(final(self)@, old(self)@),
    {
        let v = self.value;
        proof {
            lemma_castling_bits(v, 0b11000);
            lemma_castling_bits(v, 0b110);
        }
        if color == WHITE {
            self.value = self.value & !WHITE_CASTLING_RIGHTS_MASK;
        } else {
            self.value = self.value & !BLACK_CASTLING_RIGHTS_MASK;
        }
    }

    pub fn disable_kingside_castling_rights(&mut self, color: usize)
        requires
            color < 2,
        ensures
            final(self)@ == old(self)@ & !kingside_mask(color as int),
            same_but_castling(final(self)@, old(self)@),
    {
        let v = self.value;
        proof {
            lemma_castling_bits(v, 0b1000);
            lemma_castling_bits(v, 0b10);
        }
        if color == WHITE {
            self.value = self.value & !WHITE_KINGSIDE_CASTLE_MASK;
        } else {
            self.value = self.value & !BLACK_KINGSIDE_CASTLE_MASK;
        }
    }

    pub fn disable_queenside_castling_rights(&mut self, color: usize)
        requires
            color < 2,
        ensures
            final(self)@ == old(self)@ & !queenside_mask(color as int),
            same_but_castling(final(self)@, old(self)@),
    {
        let v = self.value;
        proof {
            lemma_castling_bits(v, 0b10000);
            lemma_castling_bits(v, 0b100);
        }
        if color == WHITE {
            self.value = self.value & !WHITE_QUEENSIDE_CASTLE_MASK;
        } else {
            self.value = self.value & !BLACK_QUEENSIDE_CASTLE_MASK;
        }
    }

    /// Grants the castling right of `color` on `side` (`KING` or `QUEEN`).
    pub fn set_castling_rights_for(&mut self, color: usize, side: usize)
        requires
            color == WHITE || color == BLACK,
            side == KING || side == QUEEN,
        ensures
            side == KING ==> final(self)@ == old(self)@ | kingside_mask(color as int),
            side == QUEEN ==> final(self)@ == old(self)@ | queenside_mask(color as int),
            same_but_castling(final(self)@, old(self)@),
    {
        let mask = if color == WHITE && side == KING {
            WHITE_KINGSIDE_CASTLE_MASK
        } else if color == WHITE && side == QUEEN {
            WHITE_QUEENSIDE_CASTLE_MASK
        } else if color == BLACK && side == KING {
            BLACK_KINGSIDE_CASTLE_MASK
        } else {
            BLACK_QUEENSIDE_CASTLE_MASK
        };
        let v = self.value;
        proof {
            lemma_castling_bits(v, mask);
        }
        self.value = self.value | mask;
    }

    pub fn get_en_passant_file(&self) -> (r: usize)
        ensures
            r == ep_file_of(self@),
            r < 16,
    {
        let v = self.value;
        proof {
            lemma_packed_fields(v, 0, 0);
        }
        ((self.value & EN_PASSANT_FILE_MASK) >> 5) as usize
    }

    /// Stores `file` (0 = none, 1..8 = files a..h) in the en passant field.
    pub fn set_en_passant_file(&mut self, file: usize)
        requires
            file < 16,
        ensures
            final(self)@ == (old(self)@ & !EN_PASSANT_FILE_MASK) | ((file as u32) << 5u32),
            ep_file_of(final(self)@) == file,
            side_of(final(self)@) == side_of(old(self)@),
            castling_of(final(self)@) == castling_of(old(self)@),
            halfmove_of(final(self)@) == halfmove_of(old(self)@),
            move_clock_of(final(self)@) == move_clock_of(old(self)@),
            captured_of(final(self)@) == captured_of(old(self)@),
    {
        let file = file as u32;
        let v = self.value;
        proof {
            lemma_packed_fields(v, file, 0);
        }
        self.value = (self.value & !EN_PASSANT_FILE_MASK) | (file << 5);
    }

    pub fn clear_en_passant_file(&mut self)
        ensures
            ep_file_of(final(self)@) == 0,
            final(self)@ == old(self)@ & !EN_PASSANT_FILE_MASK,
            side_of(final(self)@) == side_of(old(self)@),
            castling_of(final(self)@) == castling_of(old(self)@),
            halfmove_of(final(self)@) == halfmove_of(old(self)@),
            move_clock_of(final(self)@) == move_clock_of(old(self)@),
            captured_of(final(self)@) == captured_of(old(self)@),
    {
        let v = self.value;
        proof {
            lemma_packed_fields(v, 0, 0);
        }
        self.value = self.value & !EN_PASSANT_FILE_MASK;
    }

    pub fn get_halfmove_clock(&self) -> (r: u32)
        ensures
            r == halfmove_of(self@),
            r < 256,
    {
        let v = self.value;
        proof {
            lemma_packed_fields(v, 0, 0);
        }
        (self.value & HALFMOVE_CLOCK_MASK) >> 9
    }

    /// Stores the halfmove clock; only its low 8 bits are kept apart, higher
    /// bits spill into the following fields.
    pub fn set_halfmove_clock(&mut self, halfmove_clock: u32)
        ensures
            final(self)@ == (old(self)@ & !HALFMOVE_CLOCK_MASK) | ((halfmove_clock << 9u32) as u32),
            halfmove_clock < 256 ==> {
                &&& halfmove_of(final(self)@) == halfmove_clock
                &&& side_of(final(self)@) == side_of(old(self)@)
                &&& castling_of(final(self)@) == castling_of(old(self)@)
                &&& ep_file_of(final(self)@) == ep_file_of(old(self)@)
                &&& move_clock_of(final(self)@) == move_clock_of(old(self)@)
                &&& captured_of(final(self)@) == captured_of(old(self)@)
            },
    {
        let v = self.value;
        let h = halfmove_clock;
        proof {
            lemma_packed_fields(v, h, 0);
        }
        self.value = (self.value & !HALFMOVE_CLOCK_MASK) | (halfmove_clock << 9);
    }

    /// Adds one to the halfmove clock; at 255 the carry runs into the move clock.
    pub fn increment_halfmove_clock(&mut self)
        requires
            old(self)@ + 512 <= u32::MAX,
        ensures
            final(self)@ == old(self)@ + 512,
            halfmove_of(old(self)@) < 255 ==> {
                &&& halfmove_of(final(self)@) == halfmove_of(old(self)@) + 1
                &&& side_of(final(self)@) == side_of(old(self)@)
                &&& castling_of(final(self)@) == castling_of(old(self)@)
                &&& ep_file_of(final(self)@) == ep_file_of(old(self)@)
                &&& move_clock_of(final(self)@) == move_clock_of(old(self)@)
                &&& captured_of(final(self)@) == captured_of(old(self)@)
            },
    {
        let v = self.value;
        proof {
            lemma_packed_fields(v, 0, 0);
        }
        self.value = self.value + 512;
    }

    pub fn clear_halfmove_clock(&mut self)
        ensures
            final(self)@ == old(self)@ & !HALFMOVE_CLOCK_MASK,
            halfmove_of(final(self)@) == 0,
            side_of(final(self)@) == side_of(old(self)@),
            castling_of(final(self)@) == castling_of(old(self)@),
            ep_file_of(final(self)@) == ep_file_of(old(self)@),
            move_clock_of(final(self)@) == move_clock_of(old(self)@),
            captured_of(final(self)@) == captured_of(old(self)@),
    {
        let v = self.value;
        proof {
            lemma_packed_fields(v, 0, 0);
        }
        self.value = self.value & !HALFMOVE_CLOCK_MASK;
    }

    /// Stores the move clock; only its low 12 bits are kept apart, higher bits
    /// spill into the captured-piece field.
    pub fn set_move_clock(&mut self, move_clock: u32)
        ensures
            final(self)@ == (old(self)@ & !MOVE_CLOCK_MASK) | ((move_clock << 17u32) as u32),
            move_clock < 4096 ==> {
                &&& move_clock_of(final(self)@) == move_clock
                &&& side_of(final(self)@) == side_of(old(self)@)
                &&& castling_of(final(self)@) == castling_of(old(self)@)
                &&& ep_file_of(final(self)@) == ep_file_of(old(self)@)
                &&& halfmove_of(final(self)@) == halfmove_of(old(self)@)
                &&& captured_of(final(self)@) == captured_of(old(self)@)
            },
    {
        let v = self.value;
        let m = move_clock;
        proof {
            lemma_packed_fields(v, m, 0);
        }
        self.value = (self.value & !MOVE_CLOCK_MASK) | (move_clock << 17);
    }

    /// Adds one to the move clock; at 4095 the carry runs into the captured piece.
    pub fn increase_move_clock(&mut self)
        requires
            old(self)@ + 0x20000 <= u32::MAX,
        ensures
            final(self)@ == old(self)@ + 0x20000,
            move_clock_of(old(self)@) < 4095 ==> {
                &&& move_clock_of(final(self)@) == move_clock_of(old(self)@) + 1
                &&& side_of(final(self)@) == side_of(old(self)@)
                &&& castling_of(final(self)@) == castling_of(old(self)@)
                &&& ep_file_of(final(self)@) == ep_file_of(old(self)@)
                &&& halfmove_of(final(self)@) == halfmove_of(old(self)@)
                &&& captured_of(final(self)@) == captured_of(old(self)@)
            },
    {
        let v = self.value;
        proof {
            lemma_packed_fields(v, 0, 0);
        }
        self.value = self.value + 0x20000;
    }

    pub fn get_move_clock(&self) -> (r: u32)
        ensures
            r == move_clock_of(self@),
            r < 4096,
    {
        let v = self.value;
        proof {
            lemma_packed_fields(v, 0, 0);
        }
        (self.value & MOVE_CLOCK_MASK) >> 17
    }

    pub fn get_captured_piece(&self) -> (r: u32)
        ensures
            r == captured_of(self@),
            r < 8,
    {
        let v = self.value;
        proof {
            lemma_packed_fields(v, 0, 0);
        }
        (self.value & CAPTURED_PIECE_MASK) >> 29
    }

    /// Stores the captured piece (a piece code below 8).
    pub fn set_captured_piece(&mut self, piece: usize)
        requires
            piece < 8,
        ensures
            final(self)@ == (old(self)@ & !CAPTURED_PIECE_MASK) | ((piece as u32) << 29u32),
            captured_of(final(self)@) == piece,
            side_of(final(self)@) == side_of(old(self)@),
            castling_of(final(self)@) == castling_of(old(self)@),
            ep_file_of(final(self)@) == ep_file_of(old(self)@),
            halfmove_of(final(self)@) == halfmove_of(old(self)@),
            move_clock_of(final(self)@) == move_clock_of(old(self)@),
    {
        let v = self.value;
        let p = piece as u32;
        proof {
            lemma_packed_fields(v, p, 0);
        }
        self.value = (self.value & !CAPTURED_PIECE_MASK) | (p << 29);
    }
}

/// How the packed fields read after each kind of write to the word `v`:
/// storing `x` in one field, clearing a field, adding one to a counter,
/// flipping the side to move, and setting or clearing castling bits `m`.
pub proof fn lemma_packed_fields(v: u32, x: u32, m: u32)
    by (bit_vector)
    ensures
        side_of(v) < 2,
        castling_of(v) < 16,
        ep_file_of(v) < 16,
        halfmove_of(v) < 256,
        move_clock_of(v) < 4096,
        captured_of(v) < 8,
        captured_of(v) < 7 ==> v <= 0xdfffffffu32,
        halfmove_of((v & !0xe0000000u32) | (x << 29u32)) == halfmove_of(v),
        (v & !0xe0000000u32) | (6u32 << 29u32) <= 0xdfffffffu32,
        halfmove_of(v & !0b10000u32) == halfmove_of(v) && halfmove_of(v & !0b1000u32) == halfmove_of(v)
            && halfmove_of(v & !0b100u32) == halfmove_of(v) && halfmove_of(v & !0b10u32) == halfmove_of(v)
            && halfmove_of(v & !0b11000u32) == halfmove_of(v) && halfmove_of(v & !0b110u32) == halfmove_of(v),
        halfmove_of(v) < 255 ==> halfmove_of((v + 512) as u32) == halfmove_of(v) + 1,
        move_clock_of((v & !0xe0000000u32) | (x << 29u32)) == move_clock_of(v),
        move_clock_of(v & !0b10000u32) == move_clock_of(v) && move_clock_of(v & !0b1000u32) == move_clock_of(v)
            && move_clock_of(v & !0b100u32) == move_clock_of(v) && move_clock_of(v & !0b10u32) == move_clock_of(v)
            && move_clock_of(v & !0b11000u32) == move_clock_of(v) && move_clock_of(v & !0b110u32) == move_clock_of(v),
        halfmove_of(v) < 255 ==> move_clock_of((v + 512) as u32) == move_clock_of(v),
        castling_of((v & !0xe0000000u32) | (x << 29u32)) == castling_of(v),
        castling_of((v + 512) as u32) == castling_of(v),
        ep_file_of((v + 512) as u32) == ep_file_of(v),
        ep_file_of(v & !0b10000u32) == ep_file_of(v) && ep_file_of(v & !0b1000u32) == ep_file_of(v)
            && ep_file_of(v & !0b100u32) == ep_file_of(v) && ep_file_of(v & !0b10u32) == ep_file_of(v)
            && ep_file_of(v & !0b11000u32) == ep_file_of(v) && ep_file_of(v & !0b110u32) == ep_file_of(v),
        castling_of(v & !0b10000u32) & 8 == 0 && castling_of(v & !0b1000u32) & 4 == 0 && castling_of(
            v & !0b100u32,
        ) & 2 == 0 && castling_of(v & !0b10u32) & 1 == 0,
        castling_of(v & !0b11000u32) & 0b1100 == 0 && castling_of(v & !0b110u32) & 0b11 == 0,
        castling_of(v) & x == 0 ==> castling_of(v & !m) & x == 0,
        v == 0 ==> ep_file_of(v) == 0 && castling_of(v) == 0 && side_of(v) == 0,
        v <= 0xffffffffu32 - 512 ==> {
            let n = (v + 512) as u32;
            &&& side_of(n) == side_of(v)
            &&& castling_of(n) == castling_of(v)
            &&& ep_file_of(n) == ep_file_of(v)
        },
        v <= 0xffffffffu32 - 0x20000 ==> {
            let n = (v + 0x20000) as u32;
            &&& side_of(n) == side_of(v)
            &&& castling_of(n) == castling_of(v)
            &&& ep_file_of(n) == ep_file_of(v)
            &&& halfmove_of(n) == halfmove_of(v)
        },
        x < 8 ==> ep_file_of((v & !0xe0000000u32) | (x << 29u32)) == ep_file_of(v),
        ep_file_of(v & !0x1fe00u32) == ep_file_of(v),
        ep_file_of((v & !0x1fe00u32) | ((x << 9u32) as u32)) == ep_file_of(v),
        ep_file_of((v & !0x1ffe0000u32) | ((x << 17u32) as u32)) == ep_file_of(v),
        ep_file_of(v | 0b10u32) == ep_file_of(v) && ep_file_of(v | 0b100u32) == ep_file_of(v)
            && ep_file_of(v | 0b1000u32) == ep_file_of(v) && ep_file_of(v | 0b10000u32) == ep_file_of(v),
        x < 16 ==> ep_file_of((v & !0x1e0u32) | (x << 5u32)) == x,
        ep_file_of(v & !0x1eu32) == ep_file_of(v),
        ep_file_of(v & !m) == ep_file_of(v) || m & !0x1eu32 != 0,
        x < 2 ==> side_of((v & !1u32) | x) == x,
        x < 2 ==> castling_of((v & !1u32) | x) == castling_of(v),
        x < 2 ==> ((v & !1u32) | x) & !1u32 == v & !1u32,
        side_of(v ^ 1u32) == 1 - side_of(v),
        castling_of(v ^ 1u32) == castling_of(v),
        (v ^ 1u32) & !1u32 == v & !1u32,
        x < 16 ==> castling_of((v & !0x1eu32) | (x << 1u32)) == x,
        x < 16 ==> ((v & !0x1eu32) | (x << 1u32)) & !0x1eu32 == v & !0x1eu32,
        x & !0x1eu32 == v & !0x1eu32 ==> same_but_castling(x, v),
        x < 16 ==> {
            let n = (v & !0x1e0u32) | (x << 5u32);
            &&& ep_file_of(n) == x
            &&& side_of(n) == side_of(v)
            &&& castling_of(n) == castling_of(v)
            &&& halfmove_of(n) == halfmove_of(v)
            &&& move_clock_of(n) == move_clock_of(v)
            &&& captured_of(n) == captured_of(v)
        },
        ({
            let n = v & !0x1e0u32;
            &&& ep_file_of(n) == 0
            &&& side_of(n) == side_of(v)
            &&& castling_of(n) == castling_of(v)
            &&& halfmove_of(n) == halfmove_of(v)
            &&& move_clock_of(n) == move_clock_of(v)
            &&& captured_of(n) == captured_of(v)
        }),
        x < 256 ==> {
            let n = (v & !0x1fe00u32) | (x << 9u32);
            &&& halfmove_of(n) == x
            &&& side_of(n) == side_of(v)
            &&& castling_of(n) == castling_of(v)
            &&& ep_file_of(n) == ep_file_of(v)
            &&& move_clock_of(n) == move_clock_of(v)
            &&& captured_of(n) == captured_of(v)
        },
        ({
            let n = v & !0x1fe00u32;
            &&& halfmove_of(n) == 0
            &&& side_of(n) == side_of(v)
            &&& castling_of(n) == castling_of(v)
            &&& ep_file_of(n) == ep_file_of(v)
            &&& move_clock_of(n) == move_clock_of(v)
            &&& captured_of(n) == captured_of(v)
        }),
        v <= 0xffffffffu32 - 512 && halfmove_of(v) < 255 ==> {
            let n = (v + 512) as u32;
            &&& halfmove_of(n) == halfmove_of(v) + 1
            &&& side_of(n) == side_of(v)
            &&& castling_of(n) == castling_of(v)
            &&& ep_file_of(n) == ep_file_of(v)
            &&& move_clock_of(n) == move_clock_of(v)
            &&& captured_of(n) == captured_of(v)
        },
        x < 4096 ==> {
            let n = (v & !0x1ffe0000u32) | (x << 17u32);
            &&& move_clock_of(n) == x
            &&& side_of(n) == side_of(v)
            &&& castling_of(n) == castling_of(v)
            &&& ep_file_of(n) == ep_file_of(v)
            &&& halfmove_of(n) == halfmove_of(v)
            &&& captured_of(n) == captured_of(v)
        },
        v <= 0xffffffffu32 - 0x20000 && move_clock_of(v) < 4095 ==> {
            let n = (v + 0x20000) as u32;
            &&& move_clock_of(n) == move_clock_of(v) + 1
            &&& side_of(n) == side_of(v)
            &&& castling_of(n) == castling_of(v)
            &&& ep_file_of(n) == ep_file_of(v)
            &&& halfmove_of(n) == halfmove_of(v)
            &&& captured_of(n) == captured_of(v)
        },
        x < 8 ==> {
            let n = (v & !0xe0000000u32) | (x << 29u32);
            &&& captured_of(n) == x
            &&& side_of(n) == side_of(v)
            &&& castling_of(n) == castling_of(v)
            &&& ep_file_of(n) == ep_file_of(v)
            &&& halfmove_of(n) == halfmove_of(v)
            &&& move_clock_of(n) == move_clock_of(v)
        },
        m == 0b10 || m == 0b100 || m == 0b1000 || m == 0b10000 || m == 0b110 || m == 0b11000
            ==> same_but_castling(v & !m, v) && same_but_castling(v | m, v),
{
}

/// Setting or clearing bits inside the castling field leaves the other fields.
proof fn lemma_castling_bits(v: u32, m: u32)
    requires
        m == 0b10 || m == 0b100 || m == 0b1000 || m == 0b10000 || m == 0b110 || m == 0b11000,
    ensures
        same_but_castling(v & !m, v),
        same_but_castling(v | m, v),
{
    lemma_packed_fields(v, 0, m);
}

/// Setting a field and reading it back gives the value stored, for every field
/// and every value that fits its width; the other fields keep their values.
pub proof fn law_fields_read_back(v: u32, c: u32, e: u32, h: u32, m: u32, p: u32)
    requires
        c < 16,
        e < 16,
        h < 256,
        m < 4096,
        p < 8,
    ensures
        castling_of((v & !0x1eu32) | (c << 1u32)) == c,
        ep_file_of((v & !0x1e0u32) | (e << 5u32)) == e,
        halfmove_of((v & !0x1fe00u32) | (h << 9u32)) == h,
        move_clock_of((v & !0x1ffe0000u32) | (m << 17u32)) == m,
        captured_of((v & !0xe0000000u32) | (p << 29u32)) == p,
{
    lemma_packed_fields(v, c, 0);
    lemma_packed_fields(v, e, 0);
    lemma_packed_fields(v, h, 0);
    lemma_packed_fields(v, m, 0);
    lemma_packed_fields(v, p, 0);
}

/// A packed state is determined by its six fields.
pub proof fn law_fields_determine_state(a: u32, b: u32)
    requires
        side_of(a) == side_of(b),
        castling_of(a) == castling_of(b),
        ep_file_of(a) == ep_file_of(b),
        halfmove_of(a) == halfmove_of(b),
        move_clock_of(a) == move_clock_of(b),
        captured_of(a) == captured_of(b),
    ensures
        a == b,
{
    lemma_fields_determine(a, b);
}

proof fn lemma_fields_determine(a: u32, b: u32)
    by (bit_vector)
    requires
        side_of(a) == side_of(b),
        castling_of(a) == castling_of(b),
        ep_file_of(a) == ep_file_of(b),
        halfmove_of(a) == halfmove_of(b),
        move_clock_of(a) == move_clock_of(b),
        captured_of(a) == captured_of(b),
    ensures
        a == b,
{
}

pub const SIDE_TO_MOVE_MASK: u32 = 1;
pub const BLACK_KINGSIDE_CASTLE_MASK: u32 = 0b10;
pub const BLACK_QUEENSIDE_CASTLE_MASK: u32 = 0b100;
pub const WHITE_KINGSIDE_CASTLE_MASK: u32 = 0b1000;
pub const WHITE_QUEENSIDE_CASTLE_MASK: u32 = 0b10000;
pub const WHITE_CASTLING_RIGHTS_MASK: u32 = 0b11000;
pub const BLACK_CASTLING_RIGHTS_MASK: u32 = 0b110;
pub const CASTLING_RIGHTS_MASK: u32 = 0b11110;
pub const EN_PASSANT_FILE_MASK: u32 = 0x1e0;
pub const HALFMOVE_CLOCK_MASK: u32 = 0x1fe00;
pub const MOVE_CLOCK_MASK: u32 = 0x1ffe0000;
pub const CAPTURED_PIECE_MASK: u32 = 0xe0000000;

} // verus!
