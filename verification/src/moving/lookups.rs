use vstd::prelude::*;
use crate::bits::{lemma_bits, lemma_bit_single};
use crate::constants::{bit, WHITE, BLACK};

verus! {

/// Distance between two integers.
pub open spec fn abs_diff(a: int, b: int) -> int {
    if a >= b { a - b } else { b - a }
}

/// `q` is a knight's jump away from `s`.
pub open spec fn knight_rel(s: int, q: int) -> bool {
    let df = abs_diff(s % 8, q % 8);
    let dr = abs_diff(s / 8, q / 8);
    (df == 1 && dr == 2) || (df == 2 && dr == 1)
}

/// `q` is a king's step away from `s`.
pub open spec fn king_rel(s: int, q: int) -> bool {
    let df = abs_diff(s % 8, q % 8);
    let dr = abs_diff(s / 8, q / 8);
    df <= 1 && dr <= 1 && (df == 1 || dr == 1)
}

/// A pawn of `color` on `q` attacks `s`.
pub open spec fn pawn_attacks_to_rel(color: int, s: int, q: int) -> bool {
    &&& abs_diff(s % 8, q % 8) == 1
    &&& if color == WHITE { q / 8 == s / 8 - 1 } else { q / 8 == s / 8 + 1 }
}

/// The step between squares `i` and `j` used for the squares between them:
/// 1 on a rank, 8 on a file, else 9 or 7 when the distance is a multiple of it.
pub open spec fn between_step(i: int, j: int) -> int {
    if i / 8 == j / 8 {
        1
    } else if i % 8 == j % 8 {
        8
    } else if abs_diff(i, j) % 9 == 0 {
        9
    } else if abs_diff(i, j) % 7 == 0 {
        7
    } else {
        0
    }
}

/// `q` lies strictly between `i` and `j`, a whole number of steps from the lower one.
pub open spec fn between_rel(i: int, j: int, q: int) -> bool {
    let d = between_step(i, j);
    let lo = if i < j { i } else { j };
    let hi = if i < j { j } else { i };
    &&& i != j
    &&& d != 0
    &&& lo < q < hi
    &&& (q - lo) % d == 0
}

pub fn knight_attacks_of(i: usize) -> (r: u64)
    requires
        i < 64,
    ensures
        forall|q: int| 0 <= q < 64 ==> (#[trigger] bit(r, q) <==> knight_rel(i as int, q)),
{
    let bitboard: u64 = 1u64 << i;
    let a: u64 = 0x0101010101010101;
    let b: u64 = 0x0202020202020202;
    let g: u64 = 0x4040404040404040;
    let h: u64 = 0x8080808080808080;
    let attacks: u64 = ((bitboard & !a & !b) << 6u64)
        | ((bitboard & !a & !b) >> 10u64)
        | ((bitboard & !a) << 15u64)
        | ((bitboard & !a) >> 17u64)
        | ((bitboard & !g & !h) << 10u64)
        | ((bitboard & !g & !h) >> 6u64)
        | ((bitboard & !h) << 17u64)
        | ((bitboard & !h) >> 15u64);
    proof {
        let ii = i as u64;
        assert forall|q: int| 0 <= q < 64 implies (#[trigger] bit(attacks, q) <==> knight_rel(i as int, q)) by {
            let qq = q as u64;
            assert(ii < 64 && qq < 64 ==> (((attacks >> qq) & 1 == 1) <==>
              (((ii % 8 == qq % 8 + 1 || qq % 8 == ii % 8 + 1) && (ii / 8 == qq / 8 + 2 || qq / 8 == ii / 8 + 2))
              || ((ii % 8 == qq % 8 + 2 || qq % 8 == ii % 8 + 2) && (ii / 8 == qq / 8 + 1 || qq / 8 == ii / 8 + 1)))))
              by (bit_vector)
              requires
                bitboard == 1u64 << ii,
                a == 0x0101010101010101u64, b == 0x0202020202020202u64,
                g == 0x4040404040404040u64, h == 0x8080808080808080u64,
                attacks == ((bitboard & !a & !b) << 6u64)
                    | ((bitboard & !a & !b) >> 10u64)
                    | ((bitboard & !a) << 15u64)
                    | ((bitboard & !a) >> 17u64)
                    | ((bitboard & !g & !h) << 10u64)
                    | ((bitboard & !g & !h) >> 6u64)
                    | ((bitboard & !h) << 17u64)
                    | ((bitboard & !h) >> 15u64);
        }
    }
    attacks
}

pub fn king_attacks_of(i: usize) -> (r: u64)
    requires
        i < 64,
    ensures
        forall|q: int| 0 <= q < 64 ==> (#[trigger] bit(r, q) <==> king_rel(i as int, q)),
{
    let king_bit: u64 = 1u64 << i;
    let r1: u64 = 0xff;
    let r8: u64 = 0xff00000000000000;
    let fa: u64 = 0x0101010101010101;
    let fh: u64 = 0x8080808080808080;
    let map: u64 = ((king_bit & !fh) << 1u64)
        | ((king_bit & !(r8 | fh)) << 9u64)
        | ((king_bit & !r8) << 8u64)
        | ((king_bit & !(r8 | fa)) << 7u64)
        | ((king_bit & !fa) >> 1u64)
        | ((king_bit & !(r1 | fa)) >> 9u64)
        | ((king_bit & !r1) >> 8u64)
        | ((king_bit & !(r1 | fh)) >> 7u64);
    proof {
        let ii = i as u64;
        assert forall|q: int| 0 <= q < 64 implies (#[trigger] bit(map, q) <==> king_rel(i as int, q)) by {
            let qq = q as u64;
            assert(ii < 64 && qq < 64 ==> (((map >> qq) & 1 == 1) <==>
                ((ii % 8 <= qq % 8 + 1 && qq % 8 <= ii % 8 + 1) && (ii / 8 <= qq / 8 + 1 && qq / 8 <= ii / 8 + 1)
                && ii != qq))) by (bit_vector)
                requires
                    king_bit == 1u64 << ii,
                    r1 == 0xffu64, r8 == 0xff00000000000000u64,
                    fa == 0x0101010101010101u64, fh == 0x8080808080808080u64,
                    map == ((king_bit & !fh) << 1u64)
                        | ((king_bit & !(r8 | fh)) << 9u64)
                        | ((king_bit & !r8) << 8u64)
                        | ((king_bit & !(r8 | fa)) << 7u64)
                        | ((king_bit & !fa) >> 1u64)
                        | ((king_bit & !(r1 | fa)) >> 9u64)
                        | ((king_bit & !r1) >> 8u64)
                        | ((king_bit & !(r1 | fh)) >> 7u64);
        }
    }
    map
}

/// Squares from which a pawn of `color` attacks square `i`.
pub fn pawn_attacks_to_of(color: usize, i: usize) -> (r: u64)
    requires
        i < 64,
        color == WHITE || color == BLACK,
    ensures
        forall|q: int| 0 <= q < 64 ==> (#[trigger] bit(r, q) <==> pawn_attacks_to_rel(color as int, i as int, q)),
{
    let bb: u64 = 1u64 << i;
    let r1: u64 = 0xff;
    let r8: u64 = 0xff00000000000000;
    let fa: u64 = 0x0101010101010101;
    let fh: u64 = 0x8080808080808080;
    let r = if color == WHITE {
        ((bb & !(fa | r1)) >> 9u64) | ((bb & !(fh | r1)) >> 7u64)
    } else {
        ((bb & !(fa | r8)) << 7u64) | ((bb & !(fh | r8)) << 9u64)
    };
    proof {
        let ii = i as u64;
        assert forall|q: int| 0 <= q < 64 implies (#[trigger] bit(r, q) <==> pawn_attacks_to_rel(color as int, i as int, q)) by {
            let qq = q as u64;
            if color == WHITE {
                assert(ii < 64 && qq < 64 ==> (((r >> qq) & 1 == 1) <==>
                    ((ii % 8 == qq % 8 + 1 || qq % 8 == ii % 8 + 1) && qq / 8 + 1 == ii / 8))) by (bit_vector)
                    requires
                        bb == 1u64 << ii, r1 == 0xffu64,
                        fa == 0x0101010101010101u64, fh == 0x8080808080808080u64,
                        r == ((bb & !(fa | r1)) >> 9u64) | ((bb & !(fh | r1)) >> 7u64);
            } else {
                assert(ii < 64 && qq < 64 ==> (((r >> qq) & 1 == 1) <==>
                    ((ii % 8 == qq % 8 + 1 || qq % 8 == ii % 8 + 1) && qq / 8 == ii / 8 + 1))) by (bit_vector)
                    requires
                        bb == 1u64 << ii, r8 == 0xff00000000000000u64,
                        fa == 0x0101010101010101u64, fh == 0x8080808080808080u64,
                        r == ((bb & !(fa | r8)) << 7u64) | ((bb & !(fh | r8)) << 9u64);
            }
        }
    }
    r
}

proof fn lemma_bit_or_single(b: u64, t: u64, q: int)
    requires
        t < 64,
        0 <= q < 64,
    ensures
        bit(b | (1u64 << t), q) == (bit(b, q) || q == t),
{
    lemma_bits(b, 1u64 << t, q);
    lemma_bit_single(t as int, q);
}

proof fn lemma_bit_zero(q: int)
    ensures
        !bit(0u64, q),
{
    if 0 <= q < 64 {
        lemma_bits(0, 0, q);
    }
}

/// Squares strictly between `i` and `j`, as `between_rel` describes them.
pub fn between_of(i: usize, j: usize) -> (r: u64)
    requires
        i < 64,
        j < 64,
    ensures
        forall|q: int| 0 <= q < 64 ==> (#[trigger] bit(r, q) <==> between_rel(i as int, j as int, q)),
{
    if i == j {
        proof {
            assert forall|q: int| 0 <= q < 64 implies (#[trigger] bit(0u64, q) <==> between_rel(i as int, j as int, q)) by {
                lemma_bit_zero(q);
            }
        }
        return 0;
    }
    let ad: usize = if i < j { j - i } else { i - j };
    let diff: usize = if i / 8 == j / 8 {
        1
    } else if i % 8 == j % 8 {
        8
    } else if ad % 9 == 0 {
        9
    } else if ad % 7 == 0 {
        7
    } else {
        0
    };
    if diff == 0 {
        proof {
            assert forall|q: int| 0 <= q < 64 implies (#[trigger] bit(0u64, q) <==> between_rel(i as int, j as int, q)) by {
                lemma_bit_zero(q);
            }
        }
        return 0;
    }
    let lo: usize = if i < j { i } else { j };
    let hi: usize = if i < j { j } else { i };
    let mut s: usize = lo + diff;
    let mut bb: u64 = 0;
    let ghost d = diff as int;
    proof {
        assert((hi - lo) % d == 0);
        assert(s <= hi) by (nonlinear_arith)
            requires (hi - lo) % d == 0, s == lo + d, 1 <= d, lo < hi;
        assert(diff as int == between_step(i as int, j as int));
        assert forall|q: int| 0 <= q < 64 implies (#[trigger] bit(bb, q) <==> (lo < q < s && (q - lo) % d == 0)) by {
            lemma_bit_zero(q);
            if lo < q < s {
                assert(0 < q - lo < d);
                assert((q - lo) % d != 0);
            }
        }
    }
    while s < hi
        invariant
            lo < hi < 64,
            d == diff as int,
            1 <= d <= 9,
            lo < s <= hi,
            (s - lo) % d == 0,
            (hi - lo) % d == 0,
            forall|q: int| 0 <= q < 64 ==> (#[trigger] bit(bb, q) <==> (lo < q < s && (q - lo) % d == 0)),
        decreases hi as int - s as int,
    {
        let ghost old_bb = bb;
        let ghost old_s = s as int;
        bb = bb | (1u64 << s);
        s = s + diff;
        proof {
            assert forall|q: int| 0 <= q < 64 implies (#[trigger] bit(bb, q) <==> (lo < q < s && (q - lo) % d == 0)) by {
                lemma_bit_or_single(old_bb, old_s as u64, q);
                if old_s < q < s {
                    assert((q - lo) % d != 0) by (nonlinear_arith)
                        requires (old_s - lo) % d == 0, old_s < q < old_s + d, 1 <= d, lo < old_s;
                }
            }
            assert((s - lo) % d == 0) by (nonlinear_arith)
                requires (old_s - lo) % d == 0, s == old_s + d, 1 <= d;
            assert(s <= hi) by (nonlinear_arith)
                requires (old_s - lo) % d == 0, (hi - lo) % d == 0, s == old_s + d, 1 <= d, old_s < hi, lo < old_s;
        }
    }
    proof {
        assert forall|q: int| 0 <= q < 64 implies (#[trigger] bit(bb, q) <==> between_rel(i as int, j as int, q)) by {
            if hi <= q < s {
                assert((q - lo) % d != 0 || q >= hi);
            }
        }
    }
    bb
}

} // verus!
