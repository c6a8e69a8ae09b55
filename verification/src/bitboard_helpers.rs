use vstd::prelude::*;
use vstd::std_specs::bits::{u64_trailing_zeros, u64_leading_zeros, axiom_u64_trailing_zeros, axiom_u64_leading_zeros};
use crate::constants::{bit, RANK1, RANK8, FILEA, FILEH, WHITE, BLACK};

verus! {

/// Number of set bits of a bitboard.
pub open spec fn popcount(x: u64) -> nat
    decreases x,
{
    if x == 0 {
        0
    } else {
        (x % 2) as nat + popcount(x / 2)
    }
}

/// Index of the lowest set bit (64 for the empty board).
pub open spec fn lsb(x: u64) -> int {
    u64_trailing_zeros(x) as int
}

/// Index of the highest set bit (-1 for the empty board).
pub open spec fn msb(x: u64) -> int {
    63 - u64_leading_zeros(x)
}

/// The squares of a bitboard, lowest first.
pub open spec fn squares_of(b: u64) -> Seq<int>
    decreases b,
{
    if b == 0 {
        Seq::empty()
    } else {
        proof {
            lemma_clear_lowest_decreases(b);
        }
        seq![lsb(b)].add(squares_of(b & ((b - 1) as u64)))
    }
}

pub proof fn lemma_clear_lowest_decreases(b: u64)
    requires
        b != 0,
    ensures
        b & ((b - 1) as u64) < b,
{
    lemma_low_bits(b, 0);
}

/// Facts about the lowest bits of a word: clearing the lowest set bit, its
/// one-bit mask, and the halving steps of a bit count.
proof fn lemma_low_bits(x: u64, t: u64)
    by (bit_vector)
    ensures
        x != 0 ==> x & ((x - 1) as u64) < x,
        t < 64 && (x >> t) & 1u64 == 1u64 && x << ((64 - t) as u64) == 0 ==> x & ((x - 1) as u64)
            == x & !(1u64 << t) && x & !((x - 1) as u64) == 1u64 << t,
        (x >> t) & 1u64 != 0u64 ==> (x >> t) & 1u64 == 1u64,
        x % 2 == 1 ==> x & ((x - 1) as u64) == ((x - 1) as u64) && ((x - 1) as u64) / 2 == x / 2 && ((x
            - 1) as u64) % 2 == 0,
        x != 0 && x % 2 == 0 ==> x / 2 != 0,
        x % 2 == 0 ==> (x & ((x - 1) as u64)) / 2 == (x / 2) & (((x / 2) - 1) as u64) && (x & ((x - 1)
            as u64)) % 2 == 0,
        x < (1u64 << 0u64) ==> x == 0,
        t < 64 ==> (t + 1 < 64 ==> x < (1u64 << ((t + 1) as u64))) ==> x / 2 < (1u64 << t),
{
}

/// Facts about the lowest set bit of a non-empty bitboard.
pub proof fn lemma_lsb(b: u64)
    requires
        b != 0,
    ensures
        0 <= lsb(b) < 64,
        bit(b, lsb(b)),
        b & ((b - 1) as u64) == b & !(1u64 << (lsb(b) as u64)),
        forall|i: int| 0 <= i < lsb(b) ==> !bit(b, i),
{
    axiom_u64_trailing_zeros(b);
    let t = u64_trailing_zeros(b) as u64;
    lemma_low_bits(b, t);
    assert forall|i: int| 0 <= i < lsb(b) implies !bit(b, i) by {
        let j = i as u64;
        assert((b >> j) & 1u64 == 0u64);
    }
}

/// Facts about the highest set bit of a non-empty bitboard.
pub proof fn lemma_msb(b: u64)
    requires
        b != 0,
    ensures
        0 <= msb(b) < 64,
        bit(b, msb(b)),
        forall|i: int| msb(b) < i < 64 ==> !bit(b, i),
{
    axiom_u64_leading_zeros(b);
    let m = (63 - u64_leading_zeros(b)) as u64;
    lemma_low_bits(b, m);
    assert forall|i: int| msb(b) < i < 64 implies !bit(b, i) by {
        let j = i as u64;
        assert((b >> j) & 1u64 == 0u64);
    }
}

/// Clearing the lowest bit removes exactly one set bit.
pub proof fn lemma_popcount_clear_lowest(x: u64)
    requires
        x != 0,
    ensures
        popcount(x) == popcount(x & ((x - 1) as u64)) + 1,
    decreases x,
{
    if x % 2 == 1 {
        lemma_low_bits(x, 0);
        let y = ((x - 1) as u64);
        if y != 0 {
            assert(popcount(y) == (y % 2) as nat + popcount(y / 2));
        }
    } else {
        let h = x / 2;
        lemma_low_bits(x, 0);
        lemma_popcount_clear_lowest(h);
        let y = x & ((x - 1) as u64);
        if y != 0 {
            assert(popcount(y) == (y % 2) as nat + popcount(y / 2));
        } else {
            assert(h & ((h - 1) as u64) == 0);
        }
    }
}

proof fn lemma_add_bit_halves(u: u64, t: u64)
    by (bit_vector)
    requires
        t < 64,
        u & (1u64 << t) == 0,
    ensures
        t == 0 ==> (u | (1u64 << t)) % 2 == 1 && (u | (1u64 << t)) / 2 == u / 2 && u % 2 == 0,
        t > 0 ==> (u | (1u64 << t)) % 2 == u % 2 && (u | (1u64 << t)) / 2 == (u / 2) | (1u64 << ((t - 1)
            as u64)) && (u / 2) & (1u64 << ((t - 1) as u64)) == 0,
        u | (1u64 << t) != 0,
{
}

/// Setting a bit that a bitboard lacks adds one to its count.
pub proof fn lemma_popcount_add_bit(u: u64, t: u64)
    requires
        t < 64,
        u & (1u64 << t) == 0,
    ensures
        popcount(u | (1u64 << t)) == popcount(u) + 1,
    decreases t,
{
    lemma_add_bit_halves(u, t);
    let x = u | (1u64 << t);
    assert(popcount(x) == (x % 2) as nat + popcount(x / 2));
    if u != 0 {
        assert(popcount(u) == (u % 2) as nat + popcount(u / 2));
    }
    if t > 0 {
        lemma_popcount_add_bit(u / 2, (t - 1) as u64);
    } else {
        if u / 2 != 0 {
        }
    }
}

/// A bitboard has as many squares as set bits, at most 64.
pub proof fn lemma_squares_len(b: u64)
    ensures
        squares_of(b).len() == popcount(b),
        squares_of(b).len() <= 64,
    decreases b,
{
    lemma_popcount_le_64(b);
    if b != 0 {
        lemma_clear_lowest_decreases(b);
        lemma_popcount_clear_lowest(b);
        lemma_squares_len(b & ((b - 1) as u64));
    }
}

/// A bitboard has at most 64 set bits.
pub proof fn lemma_popcount_le_64(x: u64)
    ensures
        popcount(x) <= 64,
{
    lemma_popcount_bound(x, 64);
}

proof fn lemma_popcount_bound(x: u64, k: nat)
    requires
        k <= 64,
        k < 64 ==> x < (1u64 << (k as u64)),
    ensures
        popcount(x) <= k,
    decreases k,
{
    if x == 0 {
    } else if k == 0 {
        lemma_low_bits(x, 0);
    } else {
        let h = x / 2;
        let km = (k - 1) as u64;
        lemma_low_bits(x, km);
        lemma_popcount_bound(h, (k - 1) as nat);
    }
}

/// `u64::count_ones`: the documentation promises the number of ones in the
/// binary representation; this contract claims exactly that.
#[verifier::external_body]
pub(crate) fn count_ones(x: u64) -> (r: u32)
    ensures
        r == popcount(x),
{
    x.count_ones()
}

/// `u64::rotate_left`: the documentation promises a left rotation, bits shifted
/// out at the top coming back in at the bottom; the contract states it for
/// `0 < n < 64`.
#[verifier::external_body]
pub(crate) fn rotate_left(x: u64, n: u32) -> (r: u64)
    requires
        0 < n < 64,
    ensures
        r == (x << (n as u64)) | (x >> ((64 - n) as u64)),
{
    x.rotate_left(n)
}

/// Removes the lowest set bit of `bitboard` and returns its index.
pub fn pop_lsb(bitboard: &mut u64) -> (r: usize)
    requires
        *old(bitboard) != 0,
    ensures
        r == lsb(*old(bitboard)),
        r < 64,
        bit(*old(bitboard), r as int),
        *final(bitboard) == *old(bitboard) & ((*old(bitboard) - 1) as u64),
        *final(bitboard) == *old(bitboard) & !(1u64 << (r as u64)),
        *final(bitboard) < *old(bitboard),
        squares_of(*old(bitboard)) == seq![r as int].add(squares_of(*final(bitboard))),
{
    proof {
        lemma_lsb(*bitboard);
        lemma_clear_lowest_decreases(*bitboard);
    }
    let result = bitboard.trailing_zeros();
    *bitboard = *bitboard & (*bitboard - 1);
    result as usize
}

/// The highest set bit of a non-empty bitboard, as a one-bit bitboard.
pub fn isolate_msb(bitboard: u64) -> (r: u64)
    requires
        bitboard != 0,
    ensures
        0 <= msb(bitboard) < 64,
        r == 1u64 << (msb(bitboard) as u64),
        bit(bitboard, msb(bitboard)),
{
    proof {
        lemma_msb(bitboard);
    }
    let lz = bitboard.leading_zeros();
    1u64 << (63 - lz)
}

/// The lowest set bit of a bitboard as a one-bit bitboard (0 for the empty board).
pub fn isolate_lsb(bitboard: u64) -> (r: u64)
    ensures
        bitboard == 0 ==> r == 0,
        bitboard != 0 ==> r == 1u64 << (lsb(bitboard) as u64),
{
    if bitboard == 0 {
        0
    } else {
        proof {
            axiom_u64_trailing_zeros(bitboard);
            let t = u64_trailing_zeros(bitboard) as u64;
            lemma_low_bits(bitboard, t);
        }
        bitboard & !(bitboard - 1)
    }
}

/// Whether a non-empty bitboard holds at least two set bits.
pub fn has_more_than_one(bitboard: u64) -> (r: bool)
    requires
        bitboard != 0,
    ensures
        r == (bitboard & ((bitboard - 1) as u64) != 0),
        r == (popcount(bitboard) > 1),
{
    proof {
        lemma_popcount_clear_lowest(bitboard);
        let y = bitboard & ((bitboard - 1) as u64);
        if y != 0 {
            lemma_popcount_clear_lowest(y);
        }
    }
    bitboard & (bitboard - 1) != 0
}

/// Index of the lowest set bit (64 for the empty board).
pub fn get_lsb(bitboard: &u64) -> (r: usize)
    ensures
        r == lsb(*bitboard),
        *bitboard != 0 ==> r < 64 && bit(*bitboard, r as int),
        *bitboard == 0 ==> r == 64,
{
    proof {
        axiom_u64_trailing_zeros(*bitboard);
        if *bitboard != 0 {
            lemma_lsb(*bitboard);
        }
    }
    bitboard.trailing_zeros() as usize
}

/// Index of the highest set bit of a non-empty bitboard.
pub fn get_msb(bitboard: &u64) -> (r: usize)
    requires
        *bitboard != 0,
    ensures
        r == msb(*bitboard),
        r < 64,
        bit(*bitboard, r as int),
{
    proof {
        lemma_msb(*bitboard);
    }
    (63 - bitboard.leading_zeros()) as usize
}

/// Byte `r` (rank `r`) of a bitboard.
pub open spec fn rank_byte(bb: u64, r: u64) -> u64 {
    (bb >> ((8 * r) as u64)) & 0xff
}

/// Mirrors a bitboard vertically: rank `r` of the result is rank `7 - r` of the input.
pub fn reverse(bb: u64) -> (r: u64)
    ensures
        forall|k: u64| k < 8 ==> #[trigger] rank_byte(r, k) == rank_byte(bb, ((7 - k) as u64)),
{
    let b0 = bb;
    let b1 = ((b0 >> 8) & 0x00FF00FF00FF00FF) | ((b0 & 0x00FF00FF00FF00FF) << 8);
    let b2 = ((b1 >> 16) & 0x0000FFFF0000FFFF) | ((b1 & 0x0000FFFF0000FFFF) << 16);
    let res = rotate_left(b2, 32);
    proof {
        assert forall|k: u64| k < 8 implies #[trigger] rank_byte(res, k) == rank_byte(bb, ((7 - k) as u64)) by {
            assert(k < 8 ==> (res >> ((8 * k) as u64)) & 0xff == (bb >> ((8 * ((7 - k) as u64)) as u64)) & 0xff)
                by (bit_vector)
                requires
                    b1 == ((bb >> 8) & 0x00FF00FF00FF00FFu64) | ((bb & 0x00FF00FF00FF00FFu64) << 8),
                    b2 == ((b1 >> 16) & 0x0000FFFF0000FFFFu64) | ((b1 & 0x0000FFFF0000FFFFu64) << 16),
                    res == (b2 << 32u64) | (b2 >> 32u64),
            ;
        }
    }
    res
}

/// The number of set bits, modulo 8.
pub fn get_file(bb: u64) -> (r: usize)
    ensures
        r == popcount(bb) % 8,
{
    proof {
        lemma_popcount_le_64(bb);
    }
    (count_ones(bb) % 8) as usize
}

/// The number of set bits, divided by 8.
pub fn get_rank(bb: u64) -> (r: usize)
    ensures
        r == popcount(bb) / 8,
{
    proof {
        lemma_popcount_le_64(bb);
    }
    (count_ones(bb) / 8) as usize
}

/// Every piece of `sq` one step north; pieces on rank 8 fall off.
pub fn move_n(sq: u64) -> (r: u64)
    ensures
        r == (sq & !RANK8) << 8u64,
{
    (sq & !RANK8) << 8
}

/// One step north-east; pieces on rank 8 or file h fall off.
pub fn move_ne(sq: u64) -> (r: u64)
    ensures
        r == (sq & !(RANK8 | FILEH)) << 9u64,
{
    (sq & !(RANK8 | FILEH)) << 9
}

/// One step east; pieces on file h fall off.
pub fn move_e(sq: u64) -> (r: u64)
    ensures
        r == (sq & !FILEH) << 1u64,
{
    (sq & !FILEH) << 1
}

/// One step south-east; pieces on rank 1 or file h fall off.
pub fn move_se(sq: u64) -> (r: u64)
    ensures
        r == (sq & !(RANK1 | FILEH)) >> 7u64,
{
    (sq & !(RANK1 | FILEH)) >> 7
}

/// One step south; pieces on rank 1 fall off.
pub fn move_s(sq: u64) -> (r: u64)
    ensures
        r == (sq & !RANK1) >> 8u64,
{
    (sq & !RANK1) >> 8
}

/// One step south-west; pieces on rank 1 or file a fall off.
pub fn move_sw(sq: u64) -> (r: u64)
    ensures
        r == (sq & !(RANK1 | FILEA)) >> 9u64,
{
    (sq & !(RANK1 | FILEA)) >> 9
}

/// One step west; pieces on file a fall off.
pub fn move_w(sq: u64) -> (r: u64)
    ensures
        r == (sq & !FILEA) >> 1u64,
{
    (sq & !FILEA) >> 1
}

/// One step north-west; pieces on rank 8 or file a fall off.
pub fn move_nw(sq: u64) -> (r: u64)
    ensures
        r == (sq & !(RANK8 | FILEA)) << 7u64,
{
    (sq & !(RANK8 | FILEA)) << 7
}

/// The other side.
pub fn flip_color(color: usize) -> (r: usize)
    ensures
        r == color ^ 1,
        color == WHITE ==> r == BLACK,
        color == BLACK ==> r == WHITE,
{
    proof {
        assert((color == 1usize ==> color ^ 1 == 0usize) && (color == 0usize ==> color ^ 1 == 1usize))
            by (bit_vector);
    }
    color ^ 1
}

} // verus!
