use vstd::prelude::*;
use crate::constants::bit;
use crate::bitboard_helpers::{lemma_lsb, lsb};

verus! {

/// Bitwise operators read bit by bit, shifts move bits, and a one-bit mask
/// holds exactly its own bit.
proof fn lemma_bits_raw(a: u64, b: u64, i: u64, j: u64)
    by (bit_vector)
    requires
        i < 64,
        j < 64,
    ensures
        ((a & b) >> i) & 1 == 1 <==> ((a >> i) & 1 == 1 && (b >> i) & 1 == 1),
        ((a | b) >> i) & 1 == 1 <==> ((a >> i) & 1 == 1 || (b >> i) & 1 == 1),
        ((a ^ b) >> i) & 1 == 1 <==> ((a >> i) & 1 == 1) != ((b >> i) & 1 == 1),
        (!a >> i) & 1 == 1 <==> (a >> i) & 1 != 1,
        ((1u64 << i) >> j) & 1 == 1 <==> i == j,
        (a & (1u64 << i) != 0) <==> (a >> i) & 1 == 1,
        ((1u64 << i) & a != 0) <==> (a >> i) & 1 == 1,
        (0u64 >> i) & 1 != 1,
        a ^ b == 0 ==> a == b,
        ((a << j) >> i) & 1 == 1 <==> (i >= j && (a >> ((i - j) as u64)) & 1 == 1),
        ((a >> j) >> i) & 1 == 1 <==> (i + j < 64 && (a >> ((i + j) as u64)) & 1 == 1),
        (a >> i) & 1 != 1 ==> (a >> i) & 1 == 0,
{
}

/// The one-bit masks of the squares that castling touches.
pub proof fn lemma_square_masks()
    by (bit_vector)
    ensures
        1u64 << 0u64 == 1u64,
        1u64 << 2u64 == 4u64,
        1u64 << 3u64 == 8u64,
        1u64 << 4u64 == 0x10u64,
        1u64 << 5u64 == 0x20u64,
        1u64 << 6u64 == 0x40u64,
        1u64 << 7u64 == 0x80u64,
        1u64 << 56u64 == 0x100000000000000u64,
        1u64 << 58u64 == 0x400000000000000u64,
        1u64 << 59u64 == 0x800000000000000u64,
        1u64 << 60u64 == 0x1000000000000000u64,
        1u64 << 61u64 == 0x2000000000000000u64,
        1u64 << 62u64 == 0x4000000000000000u64,
        1u64 << 63u64 == 0x8000000000000000u64,
{
}

/// The bitwise operators on one square.
pub proof fn lemma_bits(a: u64, b: u64, i: int)
    requires
        0 <= i < 64,
    ensures
        bit(a & b, i) == (bit(a, i) && bit(b, i)),
        bit(a | b, i) == (bit(a, i) || bit(b, i)),
        bit(a ^ b, i) == (bit(a, i) != bit(b, i)),
        bit(!a, i) == !bit(a, i),
        !bit(0, i),
        (a & (1u64 << (i as u64)) != 0) == bit(a, i),
        ((1u64 << (i as u64)) & a != 0) == bit(a, i),
{
    lemma_bits_raw(a, b, i as u64, 0);
}

/// A one-bit mask holds exactly its bit.
pub proof fn lemma_bit_single(i: int, j: int)
    requires
        0 <= i < 64,
    ensures
        bit(1u64 << (i as u64), j) == (i == j),
{
    if 0 <= j < 64 {
        lemma_bits_raw(0, 0, i as u64, j as u64);
    }
}

/// Shifting left by `k` moves bit `i - k` to bit `i`.
pub proof fn lemma_bit_shl(a: u64, k: int, i: int)
    requires
        0 <= k < 64,
        0 <= i < 64,
    ensures
        bit(a << (k as u64), i) == (i >= k && bit(a, i - k)),
{
    lemma_bits_raw(a, 0, i as u64, k as u64);
}

/// Shifting right by `k` moves bit `i + k` to bit `i`.
pub proof fn lemma_bit_shr(a: u64, k: int, i: int)
    requires
        0 <= k < 64,
        0 <= i < 64,
    ensures
        bit(a >> (k as u64), i) == (i + k < 64 && bit(a, i + k)),
{
    lemma_bits_raw(a, 0, i as u64, k as u64);
}

/// The bitwise operators on every square.
pub proof fn lemma_bits_all(a: u64, b: u64)
    ensures
        forall|i: int| 0 <= i < 64 ==> #[trigger] bit(a & b, i) == (bit(a, i) && bit(b, i)),
        forall|i: int| 0 <= i < 64 ==> #[trigger] bit(a | b, i) == (bit(a, i) || bit(b, i)),
        forall|i: int| 0 <= i < 64 ==> #[trigger] bit(a ^ b, i) == (bit(a, i) != bit(b, i)),
        forall|i: int| 0 <= i < 64 ==> #[trigger] bit(!a, i) == !bit(a, i),
        forall|i: int| !#[trigger] bit(0, i),
{
    assert forall|i: int| 0 <= i < 64 implies #[trigger] bit(a & b, i) == (bit(a, i) && bit(b, i)) by {
        lemma_bits(a, b, i);
    }
    assert forall|i: int| 0 <= i < 64 implies #[trigger] bit(a | b, i) == (bit(a, i) || bit(b, i)) by {
        lemma_bits(a, b, i);
    }
    assert forall|i: int| 0 <= i < 64 implies #[trigger] bit(a ^ b, i) == (bit(a, i) != bit(b, i)) by {
        lemma_bits(a, b, i);
    }
    assert forall|i: int| 0 <= i < 64 implies #[trigger] bit(!a, i) == !bit(a, i) by {
        lemma_bits(a, b, i);
    }
    assert forall|i: int| !#[trigger] bit(0, i) by {
        if 0 <= i < 64 {
            lemma_bits(a, b, i);
        }
    }
}

/// The lowest set bit of a one-bit mask is its bit, and the mask is not empty.
pub proof fn lemma_lsb_single(t: int)
    requires
        0 <= t < 64,
    ensures
        lsb(1u64 << (t as u64)) == t,
        1u64 << (t as u64) != 0,
{
    let b = 1u64 << (t as u64);
    lemma_bit_single(t, t);
    lemma_bits(0, 0, t);
    lemma_lsb(b);
    lemma_bit_single(t, lsb(b));
}

/// Two bitboards with the same squares are equal.
pub proof fn lemma_bits_ext(a: u64, b: u64)
    requires
        forall|i: int| 0 <= i < 64 ==> bit(a, i) == bit(b, i),
    ensures
        a == b,
{
    let x = a ^ b;
    if x != 0 {
        lemma_lsb(x);
        let t = lsb(x);
        lemma_bits(a, b, t);
        assert(false);
    } else {
        lemma_bits_raw(a, b, 0, 0);
    }
}

/// Identities of the bitwise operators that the solver does not see by itself.
pub proof fn lemma_bit_identities(a: u64, b: u64)
    ensures
        a & 0 == 0,
        0 & a == 0,
        a | 0 == a,
        0 | a == a,
        (a & !b) & !b == a & !b,
        a & b == b & a,
        a | b == b | a,
{
    lemma_bits_all(a, b);
    lemma_bits_all(b, a);
    lemma_bits_all(a, 0);
    lemma_bits_all(0, a);
    lemma_bits_all(a & !b, !b);
    lemma_bits_all(a, !b);
    lemma_bits_all(b, 0);
    lemma_bits_ext(a & 0, 0);
    lemma_bits_ext(0 & a, 0);
    lemma_bits_ext(a | 0, a);
    lemma_bits_ext(0 | a, a);
    lemma_bits_ext((a & !b) & !b, a & !b);
    lemma_bits_ext(a & b, b & a);
    lemma_bits_ext(a | b, b | a);
}

} // verus!
