use vstd::prelude::*;

verus! {

pub const PAWN: usize = 0;
pub const KNIGHT: usize = 1;
pub const BISHOP: usize = 2;
pub const ROOK: usize = 3;
pub const QUEEN: usize = 4;
pub const KING: usize = 5;
pub const NONE: usize = 6;

pub const WHITE: usize = 1;
pub const BLACK: usize = 0;

pub const VERTICAL_SHIFT: u8 = 8;
pub const HORIZONTAL_SHIFT: u8 = 1;

pub const RANK1: u64 = 0xff;
pub const RANK2: u64 = 0xff00;
pub const RANK3: u64 = 0xff0000;
pub const RANK4: u64 = 0xff000000;
pub const RANK5: u64 = 0xff00000000;
pub const RANK6: u64 = 0xff0000000000;
pub const RANK7: u64 = 0xff000000000000;
pub const RANK8: u64 = 0xff00000000000000;

pub const RANKS: [u64; 8] = [RANK1, RANK2, RANK3, RANK4, RANK5, RANK6, RANK7, RANK8];

pub const FILEA: u64 = 0x0101010101010101;
pub const FILEB: u64 = 0x0202020202020202;
pub const FILEC: u64 = 0x0404040404040404;
pub const FILED: u64 = 0x0808080808080808;
pub const FILEE: u64 = 0x1010101010101010;
pub const FILEF: u64 = 0x2020202020202020;
pub const FILEG: u64 = 0x4040404040404040;
pub const FILEH: u64 = 0x8080808080808080;

pub const FILES: [u64; 8] = [FILEA, FILEB, FILEC, FILED, FILEE, FILEF, FILEG, FILEH];

pub const KINGSIDE_CASTLE_MASK: u64 = 0x60;
pub const QUEENSIDE_CATLE_MASK: u64 = 0xE;

/// The board square of bit `sq` lies on file `sq % 8` and rank `sq / 8`.
pub open spec fn file_of(sq: int) -> int {
    sq % 8
}

pub open spec fn rank_of(sq: int) -> int {
    sq / 8
}

/// Whether bit `i` of `b` is set.
pub open spec fn bit(b: u64, i: int) -> bool {
    0 <= i < 64 && (b >> (i as u64)) & 1 == 1
}

} // verus!
