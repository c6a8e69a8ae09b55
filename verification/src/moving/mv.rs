use vstd::prelude::*;
use crate::constants::{KNIGHT, QUEEN};
use crate::text::{push_char, file_char, digit_char};

verus! {

/// A move packed into 16 bits: start square in bits 10..16, target square in
/// bits 4..10 and a 4-bit code in bits 0..4 (0 quiet, 1 double pawn push,
/// 2 kingside castle, 3 queenside castle, 4 capture, 5 en passant,
/// 8..11 promotion to knight, bishop, rook, queen, 12..15 the same with a capture).
#[derive(PartialEq, Eq, Structural, Clone, Copy)]
pub struct Move {
    value: u16,
}

/// Start square of a packed move.
pub open spec fn start_of(v: u16) -> u16 {
    (v & 0xfc00) >> 10
}

/// Target square of a packed move.
pub open spec fn target_of(v: u16) -> u16 {
    (v & 0x3f0) >> 4
}

/// Code of a packed move.
pub open spec fn code_of(v: u16) -> u16 {
    v & 0xf
}

/// The packed value of a move with the given fields.
pub open spec fn pack(start: u16, target: u16, code: u16) -> u16 {
    ((start << 10u16) | (target << 4u16) | code) as u16
}

impl View for Move {
    type V = u16;

    closed spec fn view(&self) -> u16 {
        self.value
    }
}

/// Two moves are equal exactly when their packed values are.
pub proof fn lemma_move_eq(a: Move, b: Move)
    ensures
        (a == b) <==> a@ == b@,
{
}

impl Default for Move {
    fn default() -> (r: Self)
        ensures
            r@ == 0,
    {
        Move { value: 0 }
    }
}

/// The fields of a packed move read back, for fields that fit their widths.
pub proof fn lemma_pack(start: u16, target: u16, code: u16)
    by (bit_vector)
    requires
        start < 64,
        target < 64,
        code < 16,
    ensures
        start_of(pack(start, target, code)) == start,
        target_of(pack(start, target, code)) == target,
        code_of(pack(start, target, code)) == code,
{
}

/// The fields of a packed move fit their widths.
pub proof fn lemma_move_fields(v: u16)
    by (bit_vector)
    ensures
        (v & 0xfc00) >> 10 < 64,
        (v & 0x3f0) >> 4 < 64,
        v & 0xf < 16,
        v & 3 < 4,
        v & 0xf == 0 ==> v & 4 == 0 && v & 8 == 0,
        v & 0xf == 1 ==> v & 4 == 0 && v & 8 == 0,
        v & 0xf == 2 ==> v & 4 == 0 && v & 8 == 0,
        v & 0xf == 3 ==> v & 4 == 0 && v & 8 == 0,
        v & 0xf == 4 ==> v & 4 != 0 && v & 8 == 0,
        v & 0xf == 5 ==> v & 4 != 0 && v & 8 == 0,
        v & 8 != 0 ==> v & 0xf >= 8,
        v == 0 ==> (v & 0xfc00) >> 10 == 0 && (v & 0x3f0) >> 4 == 0,
{
}

/// A move is determined by its start, target and code.
pub proof fn law_move_fields_determine(a: u16, b: u16)
    requires
        start_of(a) == start_of(b),
        target_of(a) == target_of(b),
        code_of(a) == code_of(b),
    ensures
        a == b,
{
    lemma_move_determined(a, b);
}

proof fn lemma_move_determined(a: u16, b: u16)
    by (bit_vector)
    requires
        (a & 0xfc00) >> 10 == (b & 0xfc00) >> 10,
        (a & 0x3f0) >> 4 == (b & 0x3f0) >> 4,
        a & 0xf == b & 0xf,
    ensures
        a == b,
{
}

impl Move {
    /// Packs `start`, `target` and `code`; out-of-range fields are cut off by the shifts.
    pub fn new(start: u16, target: u16, code: u16) -> (r: Move)
        ensures
            r@ == pack(start, target, code),
            start < 64 && target < 64 && code < 16 ==> start_of(r@) == start && target_of(r@)
                == target && code_of(r@) == code,
    {
        proof {
            if start < 64 && target < 64 && code < 16 {
                lemma_pack(start, target, code);
            }
        }
        Move { value: (start << 10) | (target << 4) | code }
    }

    pub fn get_start_bb(&self) -> (r: u64)
        ensures
            r == 1u64 << (start_of(self@) as u64),
    {
        let v = self.value;
        proof {
            lemma_move_fields(v);
        }
        1u64 << self.get_start_field()
    }

    pub fn get_target_bb(&self) -> (r: u64)
        ensures
            r == 1u64 << (target_of(self@) as u64),
    {
        let v = self.value;
        proof {
            lemma_move_fields(v);
        }
        1u64 << self.get_target_field()
    }

    /// The null move (every field zero).
    pub fn new_null_mv() -> (r: Move)
        ensures
            r@ == 0,
    {
        Move { value: 0 }
    }

    /// The null move (every field zero).
    pub fn null() -> (r: Move)
        ensures
            r@ == 0,
    {
        Move { value: 0 }
    }

    pub fn is_null(&self) -> (r: bool)
        ensures
            r == (self@ == 0),
    {
        self.value == 0
    }

    /// The packed 16-bit value.
    pub fn get_value(&self) -> (r: u16)
        ensures
            r == self@,
    {
        self.value
    }

    pub fn new_quiet(start: u16, target: u16) -> (r: Move)
        ensures
            r@ == pack(start, target, 0),
    {
        Self::new(start, target, 0)
    }

    pub fn new_double_pawn_push(start: u16, target: u16) -> (r: Move)
        ensures
            r@ == pack(start, target, 1),
    {
        Self::new(start, target, 1)
    }

    pub fn new_kingside_castle(start: u16, target: u16) -> (r: Move)
        ensures
            r@ == pack(start, target, 2),
    {
        Self::new(start, target, 2)
    }

    pub fn new_queenside_castle(start: u16, target: u16) -> (r: Move)
        ensures
            r@ == pack(start, target, 3),
    {
        Self::new(start, target, 3)
    }

    pub fn new_capture(start: u16, target: u16) -> (r: Move)
        ensures
            r@ == pack(start, target, 4),
    {
        Self::new(start, target, 4)
    }

    pub fn new_en_passant(start: u16, target: u16) -> (r: Move)
        ensures
            r@ == pack(start, target, 5),
    {
        Self::new(start, target, 5)
    }

    /// A promotion to `piece` (`KNIGHT` ..= `QUEEN` give the four promotion
    /// codes; the sum is taken in a byte, as the piece codes are).
    pub fn new_promotion(start: u16, target: u16, piece: usize) -> (r: Move)
        requires
            piece <= 246,
        ensures
            r@ == pack(start, target, (7 + piece) as u16),
    {
        let code = 8 + piece - 1;
        Self::new(start, target, code as u16)
    }

    /// A capturing promotion to `piece` (`KNIGHT` ..= `QUEEN` give the four
    /// capturing promotion codes; the sum is taken in a byte).
    pub fn new_promotion_capture(start: u16, target: u16, piece: usize) -> (r: Move)
        requires
            piece <= 242,
        ensures
            r@ == pack(start, target, (11 + piece) as u16),
    {
        let code = 12 + piece - 1;
        Self::new(start, target, code as u16)
    }

    pub fn is_capture(&self) -> (r: bool)
        ensures
            r == (self@ & 4 != 0),
    {
        self.value & 4 != 0
    }

    pub fn is_en_passant(&self) -> (r: bool)
        ensures
            r == (code_of(self@) == 5),
    {
        self.get_move_code() == 5
    }

    pub fn is_promotion(&self) -> (r: bool)
        ensures
            r == (self@ & 8 != 0),
    {
        self.value & 8 != 0
    }

    /// Capture or promotion.
    pub fn is_non_quiet(&self) -> (r: bool)
        ensures
            r == (self@ & 12 != 0),
    {
        self.value & 12 != 0
    }

    /// The promotion piece encoded in the low two bits (does not check that
    /// the move is a promotion).
    pub fn get_promotion_piece(&self) -> (r: usize)
        ensures
            r == (self@ & 3) + 1,
            KNIGHT <= r <= QUEEN,
    {
        let v = self.value;
        proof {
            lemma_move_fields(v);
        }
        ((self.value & 3) + 1) as usize
    }

    pub fn is_double_pawn_move(&self) -> (r: bool)
        ensures
            r == (code_of(self@) == 1),
    {
        self.value & CODE_MASK == 1
    }

    pub fn is_kingside_castle(&self) -> (r: bool)
        ensures
            r == (code_of(self@) == 2),
    {
        self.value & CODE_MASK == 2
    }

    pub fn is_queenside_castle(&self) -> (r: bool)
        ensures
            r == (code_of(self@) == 3),
    {
        self.value & CODE_MASK == 3
    }

    pub fn get_start_field(&self) -> (r: u16)
        ensures
            r == start_of(self@),
            r < 64,
    {
        let v = self.value;
        proof {
            lemma_move_fields(v);
        }
        (self.value & START_MASK) >> 10
    }

    pub fn get_target_field(&self) -> (r: u16)
        ensures
            r == target_of(self@),
            r < 64,
    {
        let v = self.value;
        proof {
            lemma_move_fields(v);
        }
        (self.value & TARGET_MASK) >> 4
    }

    pub fn get_move_code(&self) -> (r: u16)
        ensures
            r == code_of(self@),
            r < 16,
    {
        let v = self.value;
        proof {
            lemma_move_fields(v);
        }
        self.value & CODE_MASK
    }

    /// The move in coordinate notation, start square then target square ("e2e4").
    pub fn to_str(&self) -> (r: String)
        ensures
            r@ == square_name(start_of(self@) as int) + square_name(target_of(self@) as int),
    {
        let mut s = String::new();
        push_field_str(&mut s, self.get_start_field());
        push_field_str(&mut s, self.get_target_field());
        proof {
            assert(s@ =~= square_name(start_of(self@) as int) + square_name(target_of(self@) as int));
        }
        s
    }
}

/// The two-character name of a square ("a1" .. "h8").
pub open spec fn square_name(sq: int) -> Seq<char> {
    seq![file_char(sq % 8), digit_char(sq / 8 + 1)]
}

fn push_field_str(s: &mut String, field: u16)
    requires
        field < 64,
    ensures
        final(s)@ == old(s)@ + square_name(field as int),
{
    let row = field / 8;
    let file = field % 8;
    let file_char = (97 + file) as u8 as char;
    let row_char = (49 + row) as u8 as char;
    push_char(s, file_char);
    push_char(s, row_char);
    proof {
        assert(final(s)@ =~= old(s)@ + square_name(field as int));
    }
}

pub const CODE_MASK: u16 = 0xF;
pub const TARGET_MASK: u16 = 0x3F0;
pub const START_MASK: u16 = 0xFC00;

} // verus!
