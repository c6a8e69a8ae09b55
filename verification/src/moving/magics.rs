use vstd::prelude::*;
use crate::bits::{lemma_bits, lemma_bit_single};
use crate::constants::{bit, FILEA, FILEH, RANK1, RANK8};

verus! {

/// Square index of file `f`, rank `r`.
pub open spec fn sq_at(f: int, r: int) -> int {
    r * 8 + f
}

/// Whether file `f` and rank `r` lie on the board.
pub open spec fn on_board(f: int, r: int) -> bool {
    0 <= f < 8 && 0 <= r < 8
}

/// Number of steps from `sq` to `q` along direction (`df`, `dr`).
pub open spec fn ray_dist(sq: int, q: int, df: int, dr: int) -> int {
    if df != 0 { (q % 8 - sq % 8) * df } else { (q / 8 - sq / 8) * dr }
}

/// `q` lies on the ray from `sq` in direction (`df`, `dr`).
pub open spec fn on_ray(sq: int, q: int, df: int, dr: int) -> bool {
    let k = ray_dist(sq, q, df, dr);
    &&& 0 <= q < 64
    &&& k >= 1
    &&& q % 8 == sq % 8 + k * df
    &&& q / 8 == sq / 8 + k * dr
}

/// The first `k - 1` squares of the ray are empty in `occ`.
pub open spec fn ray_clear(sq: int, df: int, dr: int, occ: u64, k: int) -> bool {
    forall|j: int| 1 <= j < k ==> !#[trigger] bit(occ, sq_at(sq % 8 + j * df, sq / 8 + j * dr))
}

/// `q` is attacked from `sq` along direction (`df`, `dr`) given the blockers `occ`.
pub open spec fn ray_attacks(sq: int, q: int, df: int, dr: int, occ: u64) -> bool {
    on_ray(sq, q, df, dr) && ray_clear(sq, df, dr, occ, ray_dist(sq, q, df, dr))
}

proof fn lemma_bit_or_single(b: u64, t: u64, q: u64)
    requires t < 64, q < 64,
    ensures bit(b | (1u64 << t), q as int) == (bit(b, q as int) || q == t),
{
    lemma_bits(b, 1u64 << t, q as int);
    lemma_bit_single(t as int, q as int);
}

proof fn lemma_bit_zero(q: int)
    ensures !bit(0u64, q),
{
    if 0 <= q < 64 {
        lemma_bits(0, 0, q);
    }
}

/// Squares attacked from `sq` along one direction, up to and including the first blocker.
#[verifier::spinoff_prover]
fn walk_ray(occ: u64, sq: usize, df: i8, dr: i8) -> (r: u64)
    requires
        sq < 64,
        -1 <= df <= 1,
        -1 <= dr <= 1,
        df != 0 || dr != 0,
    ensures
        forall|q: int| 0 <= q < 64 ==> (bit(r, q) <==> #[trigger] ray_attacks(sq as int, q, df as int, dr as int, occ)),
{
    let mut result: u64 = 0;
    let mut f: i8 = (sq % 8) as i8;
    let mut rk: i8 = (sq / 8) as i8;
    let mut k: i8 = 0;
    let mut blocked = false;
    let ghost f0 = sq as int % 8;
    let ghost r0 = sq as int / 8;
    proof {
        assert forall|q: int| 0 <= q < 64 implies (bit(result, q) <==> (1 <= #[trigger] ray_dist(sq as int, q, df as int, dr as int) <= 0 && ray_attacks(sq as int, q, df as int, dr as int, occ))) by {
            lemma_bit_zero(q);
        }
    }
    while !blocked && 0 <= f + df && f + df < 8 && 0 <= rk + dr && rk + dr < 8
        invariant
            -1 <= df <= 1,
            -1 <= dr <= 1,
            df != 0 || dr != 0,
            sq < 64,
            f0 == sq as int % 8,
            r0 == sq as int / 8,
            0 <= k <= 8,
            f == f0 + k * df,
            rk == r0 + k * dr,
            0 <= f < 8,
            0 <= rk < 8,
            !blocked ==> ray_clear(sq as int, df as int, dr as int, occ, k + 1),
            blocked ==> k >= 1 && ray_clear(sq as int, df as int, dr as int, occ, k as int) && bit(occ, sq_at(f as int, rk as int)),
            forall|q: int| 0 <= q < 64 ==> (bit(result, q) <==> (1 <= #[trigger] ray_dist(sq as int, q, df as int, dr as int) <= k && ray_attacks(sq as int, q, df as int, dr as int, occ))),
        decreases 8 - k,
    {
        let ghost k0 = k;
        f = f + df;
        rk = rk + dr;
        k = k + 1;
        proof {
            assert((k0 + 1) * df == k0 * df + df) by (nonlinear_arith);
            assert((k0 + 1) * dr == k0 * dr + dr) by (nonlinear_arith);
        }
        let t: usize = (rk as usize) * 8 + (f as usize);
        proof {
            assert(t as int % 8 == f as int && t as int / 8 == rk as int) by (nonlinear_arith)
                requires t as int == rk as int * 8 + f as int, 0 <= f < 8, 0 <= rk < 8;
        }
        let ghost old_result = result;
        result = result | (1u64 << t);
        proof {
            assert forall|q: int| 0 <= q < 64 implies (bit(result, q) <==> (1 <= #[trigger] ray_dist(sq as int, q, df as int, dr as int) <= k && ray_attacks(sq as int, q, df as int, dr as int, occ))) by {
                lemma_bit_or_single(old_result, t as u64, q as u64);
                if q == t as int {
                    assert(ray_dist(sq as int, q, df as int, dr as int) == k) by (nonlinear_arith)
                        requires q % 8 == f0 + k * df, q / 8 == r0 + k * dr, -1 <= df <= 1, -1 <= dr <= 1, df != 0 || dr != 0,
                            f0 == sq as int % 8, r0 == sq as int / 8;
                } else {
                    if ray_dist(sq as int, q, df as int, dr as int) == k && on_ray(sq as int, q, df as int, dr as int) {
                        assert(q % 8 == f as int && q / 8 == rk as int);
                        assert(q == t as int) by (nonlinear_arith)
                            requires q % 8 == f as int, q / 8 == rk as int, t as int == rk as int * 8 + f as int, 0 <= q;
                    }
                }
            }
        }
        if occ & (1u64 << t) != 0 {
            blocked = true;
        }
        proof {
            assert((occ & (1u64 << (t as u64)) != 0) == bit(occ, t as int)) by {
                lemma_bits(occ, 0, t as int);
            }
            assert(t as int == sq_at(sq as int % 8 + k * df, sq as int / 8 + k * dr));
        }
    }
    proof {
        assert forall|q: int| 0 <= q < 64 implies (bit(result, q) <==> #[trigger] ray_attacks(sq as int, q, df as int, dr as int, occ)) by {
            if ray_attacks(sq as int, q, df as int, dr as int, occ) && ray_dist(sq as int, q, df as int, dr as int) > k {
                let kk = ray_dist(sq as int, q, df as int, dr as int);
                if blocked {
                    assert(!bit(occ, sq_at(sq as int % 8 + k * df, sq as int / 8 + k * dr)));
                } else {
                    assert(on_ray(sq as int, q, df as int, dr as int));
                    assert(q % 8 == f0 + kk * df);
                    assert(q / 8 == r0 + kk * dr);
                    assert(false) by (nonlinear_arith)
                        requires q % 8 == f0 + kk * df, q / 8 == r0 + kk * dr, kk > k, 0 <= q < 64,
                            !(0 <= f0 + k * df + df && f0 + k * df + df < 8 && 0 <= r0 + k * dr + dr && r0 + k * dr + dr < 8),
                            -1 <= df <= 1, -1 <= dr <= 1, 0 <= f0 + k * df < 8, 0 <= r0 + k * dr < 8;
                }
            }
        }
    }
    result
}


/// `q` is attacked by a rook on `sq` when `occ` holds the blockers.
pub open spec fn rook_attack(sq: int, q: int, occ: u64) -> bool {
    ||| ray_attacks(sq, q, 1, 0, occ)
    ||| ray_attacks(sq, q, -1, 0, occ)
    ||| ray_attacks(sq, q, 0, 1, occ)
    ||| ray_attacks(sq, q, 0, -1, occ)
}

/// `q` is attacked by a bishop on `sq` when `occ` holds the blockers.
pub open spec fn bishop_attack(sq: int, q: int, occ: u64) -> bool {
    ||| ray_attacks(sq, q, 1, 1, occ)
    ||| ray_attacks(sq, q, -1, 1, occ)
    ||| ray_attacks(sq, q, 1, -1, occ)
    ||| ray_attacks(sq, q, -1, -1, occ)
}

/// A slider attack: rook-like when `rook`, bishop-like otherwise.
pub open spec fn slider_attack(rook: bool, sq: int, q: int, occ: u64) -> bool {
    if rook { rook_attack(sq, q, occ) } else { bishop_attack(sq, q, occ) }
}

/// The squares strictly inside a ray up to `q` are relevant to a slider of
/// that ray's kind, and read the same in `occ` and in `occ` cut to them.
proof fn lemma_ray_clear_masked(rook: bool, sq: int, q: int, df: int, dr: int, occ: u64, mask: u64)
    requires
        0 <= sq < 64,
        if rook {
            (df == 0 && (dr == 1 || dr == -1)) || (dr == 0 && (df == 1 || df == -1))
        } else {
            (df == 1 || df == -1) && (dr == 1 || dr == -1)
        },
        on_ray(sq, q, df, dr),
        forall|x: int| 0 <= x < 64 ==> (#[trigger] bit(mask, x) <==> relevant(rook, sq, x)),
    ensures
        ray_clear(sq, df, dr, occ & mask, ray_dist(sq, q, df, dr)) == ray_clear(sq, df, dr, occ, ray_dist(sq, q, df, dr)),
{
    let k = ray_dist(sq, q, df, dr);
    let f0 = sq % 8;
    let r0 = sq / 8;
    assert forall|j: int| #![trigger bit(occ & mask, sq_at(sq % 8 + j * df, sq / 8 + j * dr))]
        #![trigger bit(occ, sq_at(sq % 8 + j * df, sq / 8 + j * dr))] 1 <= j < k implies bit(occ & mask, sq_at(sq % 8 + j * df, sq / 8 + j * dr))
        == bit(occ, sq_at(sq % 8 + j * df, sq / 8 + j * dr)) by {
        let f = f0 + j * df;
        let r = r0 + j * dr;
        assert(0 <= f < 8 && 0 <= r < 8 && (df != 0 ==> 1 <= f <= 6) && (dr != 0 ==> 1 <= r <= 6) && (df == 0 ==> f
            == f0) && (dr == 0 ==> r == r0)) by (nonlinear_arith)
            requires
                q % 8 == f0 + k * df,
                q / 8 == r0 + k * dr,
                0 <= q < 64,
                0 <= f0 < 8,
                0 <= r0 < 8,
                1 <= j < k,
                f == f0 + j * df,
                r == r0 + j * dr,
                -1 <= df <= 1,
                -1 <= dr <= 1,
        ;
        let x = sq_at(f, r);
        assert(x % 8 == f && x / 8 == r) by (nonlinear_arith)
            requires
                x == r * 8 + f,
                0 <= f < 8,
                0 <= r < 8,
        ;
        assert(ray_dist(sq, x, df, dr) == j) by (nonlinear_arith)
            requires
                x % 8 == f0 + j * df,
                x / 8 == r0 + j * dr,
                df == 1 || df == -1 || (df == 0 && (dr == 1 || dr == -1)),
                ray_dist(sq, x, df, dr) == if df != 0 { (x % 8 - f0) * df } else { (x / 8 - r0) * dr },
        ;
        assert forall|i: int| 1 <= i < j implies !#[trigger] bit(0u64, sq_at(sq % 8 + i * df, sq / 8 + i * dr)) by {
            lemma_bit_zero(sq_at(sq % 8 + i * df, sq / 8 + i * dr));
        }
        assert(ray_attacks(sq, x, df, dr, 0));
        assert(slider_attack(rook, sq, x, 0));
        assert(off_rim(sq, x));
        assert(relevant(rook, sq, x));
        lemma_bits(occ, mask, x);
    }
}

/// The blockers outside the relevant squares never change what a slider
/// attacks: reading only the relevant ones gives the full ray walk.
pub proof fn law_relevant_blockers_suffice(rook: bool, sq: int, q: int, occ: u64, mask: u64)
    requires
        0 <= sq < 64,
        forall|x: int| 0 <= x < 64 ==> (#[trigger] bit(mask, x) <==> relevant(rook, sq, x)),
    ensures
        slider_attack(rook, sq, q, occ & mask) == slider_attack(rook, sq, q, occ),
{
    if rook {
        if on_ray(sq, q, 1, 0) { lemma_ray_clear_masked(rook, sq, q, 1, 0, occ, mask); }
        if on_ray(sq, q, -1, 0) { lemma_ray_clear_masked(rook, sq, q, -1, 0, occ, mask); }
        if on_ray(sq, q, 0, 1) { lemma_ray_clear_masked(rook, sq, q, 0, 1, occ, mask); }
        if on_ray(sq, q, 0, -1) { lemma_ray_clear_masked(rook, sq, q, 0, -1, occ, mask); }
    } else {
        if on_ray(sq, q, 1, 1) { lemma_ray_clear_masked(rook, sq, q, 1, 1, occ, mask); }
        if on_ray(sq, q, -1, 1) { lemma_ray_clear_masked(rook, sq, q, -1, 1, occ, mask); }
        if on_ray(sq, q, 1, -1) { lemma_ray_clear_masked(rook, sq, q, 1, -1, occ, mask); }
        if on_ray(sq, q, -1, -1) { lemma_ray_clear_masked(rook, sq, q, -1, -1, occ, mask); }
    }
}

/// `q` is not on an edge of the board unless `sq` shares that edge.
pub open spec fn off_rim(sq: int, q: int) -> bool {
    &&& q % 8 == 0 ==> sq % 8 == 0
    &&& q % 8 == 7 ==> sq % 8 == 7
    &&& q / 8 == 0 ==> sq / 8 == 0
    &&& q / 8 == 7 ==> sq / 8 == 7
}

/// Squares whose occupancy matters to a slider on `sq`: its empty-board
/// attacks, without the board edges it does not stand on.
pub open spec fn relevant(rook: bool, sq: int, q: int) -> bool {
    slider_attack(rook, sq, q, 0) && off_rim(sq, q)
}

/// The magic number and shift of a slider on `sq`.
pub open spec fn magic_of(rook: bool, sq: int) -> u64 {
    if rook { ROOK_MAGICS[sq] } else { BISHOP_MAGICS[sq] }
}

pub open spec fn shift_of(rook: bool, sq: int) -> usize {
    if rook { ROOK_SHIFTS[sq] } else { BISHOP_SHIFTS[sq] }
}

/// The table index of an occupancy under a magic number and shift.
pub open spec fn magic_index(occ: u64, magic: u64, shift: usize) -> int {
    (occ.wrapping_mul(magic) >> (shift as u64)) as int
}

/// The squares below `n` a slider on `sq` attacks when `occ` holds the blockers.
pub open spec fn attacks_below(rook: bool, sq: int, occ: u64, n: int) -> u64
    decreases n,
{
    if n <= 0 {
        0
    } else {
        let rest = attacks_below(rook, sq, occ, n - 1);
        if slider_attack(rook, sq, n - 1, occ) {
            rest | (1u64 << ((n - 1) as u64))
        } else {
            rest
        }
    }
}

/// The attack set of a slider on `sq` when `occ` holds the blockers.
pub open spec fn attacks_for(rook: bool, sq: int, occ: u64) -> u64 {
    attacks_below(rook, sq, occ, 64)
}

/// The squares of `attacks_below` are the attacked squares below `n`.
proof fn lemma_attacks_below(rook: bool, sq: int, occ: u64, n: int)
    requires
        0 <= n <= 64,
    ensures
        forall|q: int| 0 <= q < 64 ==> (#[trigger] bit(attacks_below(rook, sq, occ, n), q) <==> (q < n
            && slider_attack(rook, sq, q, occ))),
    decreases n,
{
    if n == 0 {
        assert forall|q: int| 0 <= q < 64 implies !#[trigger] bit(attacks_below(rook, sq, occ, n), q) by {
            lemma_bits(0, 0, q);
        }
    } else {
        lemma_attacks_below(rook, sq, occ, n - 1);
        let rest = attacks_below(rook, sq, occ, n - 1);
        assert forall|q: int| 0 <= q < 64 implies (#[trigger] bit(attacks_below(rook, sq, occ, n), q) <==> (q < n
            && slider_attack(rook, sq, q, occ))) by {
            lemma_bits(rest, 1u64 << ((n - 1) as u64), q);
            lemma_bit_single(n - 1, q);
        }
    }
}

/// A bitboard whose squares are the attacked ones is `attacks_for`.
pub proof fn lemma_attacks_for(rook: bool, sq: int, occ: u64, r: u64)
    requires
        forall|q: int| 0 <= q < 64 ==> (#[trigger] bit(r, q) <==> slider_attack(rook, sq, q, occ)),
    ensures
        r == attacks_for(rook, sq, occ),
        forall|q: int| 0 <= q < 64 ==> (#[trigger] bit(attacks_for(rook, sq, occ), q) <==> slider_attack(
            rook,
            sq,
            q,
            occ,
        )),
{
    lemma_attacks_below(rook, sq, occ, 64);
    crate::bits::lemma_bits_ext(r, attacks_for(rook, sq, occ));
}

/// The squares of `attacks_for` are the attacked squares.
pub proof fn lemma_attacks_for_bits(rook: bool, sq: int, occ: u64)
    ensures
        forall|q: int| 0 <= q < 64 ==> (#[trigger] bit(attacks_for(rook, sq, occ), q) <==> slider_attack(
            rook,
            sq,
            q,
            occ,
        )),
{
    lemma_attacks_below(rook, sq, occ, 64);
}

/// The occupancy that marks a table entry not yet filled.
pub const NO_KEY: u64 = !0u64;

/// A table entry is not yet filled (its key is `NO_KEY`), or holds the
/// attacks of a slider on `sq` for the occupancy `key` it was filled for.
pub open spec fn entry_ok(rook: bool, sq: int, key: u64, entry: u64) -> bool {
    key == NO_KEY || entry == attacks_for(rook, sq, key)
}

/// Shape and content of a slider lookup table and of the occupancies its
/// entries were filled for: 64 rows, row `sq` of length `2^(64 - shift)`,
/// every entry as `entry_ok` says.
pub open spec fn table_ok(rook: bool, t: Seq<Seq<u64>>, keys: Seq<Seq<u64>>) -> bool {
    &&& t.len() == 64
    &&& keys.len() == 64
    &&& forall|sq: int| 0 <= sq < 64 ==> #[trigger] t[sq].len() == table_len(rook, sq)
    &&& forall|sq: int| 0 <= sq < 64 ==> #[trigger] keys[sq].len() == table_len(rook, sq)
    &&& forall|sq: int, idx: int|
        0 <= sq < 64 && 0 <= idx < t[sq].len() ==> entry_ok(rook, sq, #[trigger] keys[sq][idx], t[sq][idx])
}

pub open spec fn table_len(rook: bool, sq: int) -> int {
    (1u64 << ((64 - shift_of(rook, sq)) as u64)) as int
}

pub proof fn lemma_shifts_in_range()
    ensures
        forall|sq: int| 0 <= sq < 64 ==> 50 <= #[trigger] ROOK_SHIFTS[sq] <= 53,
        forall|sq: int| 0 <= sq < 64 ==> 53 <= #[trigger] BISHOP_SHIFTS[sq] <= 59,
{
    assert forall|sq: int| 0 <= sq < 64 implies 50 <= #[trigger] ROOK_SHIFTS[sq] <= 53 by {
    }
    assert forall|sq: int| 0 <= sq < 64 implies 53 <= #[trigger] BISHOP_SHIFTS[sq] <= 59 by {
    }
}

/// The index of an occupancy in a magic table: the top `64 - shift` bits of
/// `occ * magic` (wrapping).
pub fn index_magic(occ: u64, magic: u64, shift: usize) -> (r: usize)
    requires
        32 <= shift < 64,
    ensures
        r == magic_index(occ, magic, shift),
        r < (1u64 << ((64 - shift) as u64)),
{
    let x = occ.wrapping_mul(magic);
    let s = shift as u64;
    proof {
        assert(32 <= s < 64 ==> x >> s < (1u64 << ((64 - s) as u64)) && x >> s < 0x1_0000_0000) by (bit_vector);
    }
    (x >> s) as usize
}

proof fn lemma_bit_or(a: u64, b: u64, q: int)
    requires
        0 <= q < 64,
    ensures
        bit(a | b, q) == (bit(a, q) || bit(b, q)),
{
    lemma_bits(a, b, q);
}

/// Squares a rook on `sq` attacks when `occ` holds the blockers.
pub fn get_rook_attacks_from_occ(occ: u64, sq: usize) -> (r: u64)
    requires
        sq < 64,
    ensures
        forall|q: int| 0 <= q < 64 ==> (#[trigger] bit(r, q) <==> rook_attack(sq as int, q, occ)),
        r == attacks_for(true, sq as int, occ),
{
    let a = walk_ray(occ, sq, -1, 0);
    let b = walk_ray(occ, sq, 1, 0);
    let c = walk_ray(occ, sq, 0, 1);
    let d = walk_ray(occ, sq, 0, -1);
    let r = a | b | c | d;
    proof {
        assert forall|q: int| 0 <= q < 64 implies (#[trigger] bit(r, q) <==> rook_attack(sq as int, q, occ)) by {
            lemma_bit_or(a | b | c, d, q);
            lemma_bit_or(a | b, c, q);
            lemma_bit_or(a, b, q);
        }
        lemma_attacks_for(true, sq as int, occ, r);
    }
    r
}

/// Squares a bishop on `sq` attacks when `occ` holds the blockers.
pub fn get_bishop_attacks_from_occ(occ: u64, sq: usize) -> (r: u64)
    requires
        sq < 64,
    ensures
        forall|q: int| 0 <= q < 64 ==> (#[trigger] bit(r, q) <==> bishop_attack(sq as int, q, occ)),
        r == attacks_for(false, sq as int, occ),
{
    let a = walk_ray(occ, sq, -1, 1);
    let b = walk_ray(occ, sq, 1, 1);
    let c = walk_ray(occ, sq, -1, -1);
    let d = walk_ray(occ, sq, 1, -1);
    let r = a | b | c | d;
    proof {
        assert forall|q: int| 0 <= q < 64 implies (#[trigger] bit(r, q) <==> bishop_attack(sq as int, q, occ)) by {
            lemma_bit_or(a | b | c, d, q);
            lemma_bit_or(a | b, c, q);
            lemma_bit_or(a, b, q);
        }
        lemma_attacks_for(false, sq as int, occ, r);
    }
    r
}

/// The occupancy number `idx` of the squares of `attack_map`: bit `k` of
/// `idx` selects the `k`-th highest square of the map.
fn get_occ_from_index(attack_map: u64, idx: usize) -> (r: u64)
    requires
        !bit(attack_map, 0),
    ensures
        forall|q: int| 0 <= q < 64 && #[trigger] bit(r, q) ==> bit(attack_map, q),
{
    let mut attack_map = attack_map;
    let mut idx = idx;
    let ghost map0 = attack_map;
    let mut idx_pointer: usize = 1;
    let mut result: u64 = 0;
    if attack_map == 0 {
        proof {
            assert forall|q: int| 0 <= q < 64 && #[trigger] bit(0u64, q) implies bit(map0, q) by {
                lemma_bits(0, 0, q);
            }
        }
        return 0;
    }
    proof {
        assert forall|q: int| 0 <= q < 64 && #[trigger] bit(result, q) implies bit(map0, q) by {
            lemma_bits(0, 0, q);
        }
    }
    while idx != 0 && attack_map != 0
        invariant
            forall|q: int| 0 <= q < 64 && #[trigger] bit(result, q) ==> bit(map0, q),
            forall|q: int| 0 <= q < 64 && #[trigger] bit(attack_map, q) ==> bit(map0, q),
        decreases attack_map,
    {
        let lz = attack_map.leading_zeros();
        proof {
            crate::bitboard_helpers::lemma_msb(attack_map);
        }
        let m = (63 - lz) as u64;
        let attack_pointer: u64 = 1u64 << m;
        let ghost old_map = attack_map;
        let ghost old_result = result;
        proof {
            assert(m < 64 && ((old_map >> m) & 1 == 1) ==> (old_map & !(1u64 << m)) < old_map) by (bit_vector);
        }
        attack_map = attack_map & !attack_pointer;
        if idx_pointer & idx != 0 {
            result = result | attack_pointer;
            idx = idx & !idx_pointer;
        }
        idx_pointer = idx_pointer << 1;
        proof {
            assert forall|q: int| 0 <= q < 64 && #[trigger] bit(attack_map, q) implies bit(map0, q) by {
                lemma_bits(old_map, !(1u64 << m), q);
                assert(bit(old_map, q));
            }
            assert forall|q: int| 0 <= q < 64 && #[trigger] bit(result, q) implies bit(map0, q) by {
                let qq = q as u64;
                lemma_bits(old_result, 1u64 << m, q);
                lemma_bit_single(m as int, q);
                if result != old_result {
                    if qq == m {
                        assert(bit(old_map, m as int));
                    } else {
                        assert(bit(old_result, q));
                    }
                } else {
                    assert(bit(old_result, q));
                }
            }
        }
    }
    result
}

/// Clears the board edges that square `sq` does not lie on.
pub fn clear_rim(sq: usize, bb: u64) -> (r: u64)
    requires
        sq < 64,
    ensures
        forall|q: int| 0 <= q < 64 ==> (#[trigger] bit(r, q) <==> bit(bb, q) && off_rim(sq as int, q)),
{
    let file = sq % 8;
    let rank = sq / 8;
    let ma: u64 = if file != 0 { !FILEA } else { 0xffffffffffffffff };
    let mh: u64 = if file != 7 { !FILEH } else { 0xffffffffffffffff };
    let m1: u64 = if rank != 0 { !RANK1 } else { 0xffffffffffffffff };
    let m8: u64 = if rank != 7 { !RANK8 } else { 0xffffffffffffffff };
    let r = bb & ma & mh & m1 & m8;
    proof {
        let f = file as u64;
        let rk = rank as u64;
        assert forall|q: int| 0 <= q < 64 implies (#[trigger] bit(r, q) <==> bit(bb, q) && off_rim(sq as int, q)) by {
            let qq = q as u64;
            assert(qq < 64 && f < 8 && rk < 8
                && ma == (if f != 0 { !0x0101010101010101u64 } else { 0xffffffffffffffffu64 })
                && mh == (if f != 7 { !0x8080808080808080u64 } else { 0xffffffffffffffffu64 })
                && m1 == (if rk != 0 { !0xffu64 } else { 0xffffffffffffffffu64 })
                && m8 == (if rk != 7 { !0xff00000000000000u64 } else { 0xffffffffffffffffu64 })
                ==> (((((bb & ma & mh & m1 & m8) >> qq) & 1 == 1) <==> (((bb >> qq) & 1 == 1)
                && (qq % 8 == 0 ==> f == 0) && (qq % 8 == 7 ==> f == 7) && (qq / 8 == 0 ==> rk == 0)
                && (qq / 8 == 7 ==> rk == 7))))) by (bit_vector);
        }
    }
    r
}

/// The empty-board slider attacks of `sq` without the irrelevant edges.
fn relevancy_mask(rook: bool, sq: usize) -> (r: u64)
    requires
        sq < 64,
    ensures
        forall|q: int| 0 <= q < 64 ==> (#[trigger] bit(r, q) <==> relevant(rook, sq as int, q)),
        !bit(r, 0),
{
    let rays = if rook { get_rook_attacks_from_occ(0, sq) } else { get_bishop_attacks_from_occ(0, sq) };
    let r = clear_rim(sq, rays);
    proof {
        if bit(r, 0) {
            assert(relevant(rook, sq as int, 0));
            assert(off_rim(sq as int, 0));
            assert(sq == 0);
            assert(slider_attack(rook, 0, 0, 0u64));
            assert(false);
        }
    }
    r
}

/// The occupancy masks that index the rook table.
pub fn rook_relevancy_mask(sq: usize) -> (r: u64)
    requires
        sq < 64,
    ensures
        forall|q: int| 0 <= q < 64 ==> (#[trigger] bit(r, q) <==> relevant(true, sq as int, q)),
{
    relevancy_mask(true, sq)
}

/// The occupancy masks that index the bishop table.
pub fn bishop_relevancy_mask(sq: usize) -> (r: u64)
    requires
        sq < 64,
    ensures
        forall|q: int| 0 <= q < 64 ==> (#[trigger] bit(r, q) <==> relevant(false, sq as int, q)),
{
    relevancy_mask(false, sq)
}

fn compute_lookup(rook: bool) -> (r: (Vec<Vec<u64>>, Vec<Vec<u64>>))
    ensures
        table_ok(rook, r.0@.map_values(|row: Vec<u64>| row@), r.1@.map_values(|row: Vec<u64>| row@)),
{
    let mut result: Vec<Vec<u64>> = Vec::new();
    let mut keys: Vec<Vec<u64>> = Vec::new();
    proof {
        lemma_shifts_in_range();
    }
    for i in 0..64usize
        invariant
            result@.len() == i,
            keys@.len() == i,
            forall|sq: int| 0 <= sq < i ==> #[trigger] result@[sq]@.len() == table_len(rook, sq),
            forall|sq: int| 0 <= sq < i ==> #[trigger] keys@[sq]@.len() == table_len(rook, sq),
            forall|sq: int, idx: int|
                0 <= sq < i && 0 <= idx < result@[sq]@.len() ==> entry_ok(rook, sq, #[trigger] keys@[sq]@[idx], result@[sq]@[idx]),
            forall|sq: int| 0 <= sq < 64 ==> 50 <= #[trigger] ROOK_SHIFTS[sq] <= 53,
            forall|sq: int| 0 <= sq < 64 ==> 53 <= #[trigger] BISHOP_SHIFTS[sq] <= 59,
    {
        let rays = relevancy_mask(rook, i);
        let shift = if rook { ROOK_SHIFTS[i] } else { BISHOP_SHIFTS[i] };
        let magic = if rook { ROOK_MAGICS[i] } else { BISHOP_MAGICS[i] };
        let s = (64 - shift) as u64;
        proof {
            assert(s <= 14 ==> (1u64 << s) <= 0x4000) by (bit_vector);
        }
        let size: usize = (1u64 << s) as usize;
        let mut arr: Vec<u64> = vec![0u64; size];
        let mut karr: Vec<u64> = vec![NO_KEY; size];
        for j in 0..size
            invariant
                arr@.len() == size,
                karr@.len() == size,
                size == table_len(rook, i as int),
                i < 64,
                shift == shift_of(rook, i as int),
                magic == magic_of(rook, i as int),
                shift < 64,
                s == 64 - shift,
                forall|q: int| 0 <= q < 64 ==> (#[trigger] bit(rays, q) <==> relevant(rook, i as int, q)),
                !bit(rays, 0),
                forall|idx: int| 0 <= idx < arr@.len() ==> entry_ok(rook, i as int, #[trigger] karr@[idx], arr@[idx]),
        {
            let occ = get_occ_from_index(rays, j);
            let attacks = if rook { get_rook_attacks_from_occ(occ, i) } else { get_bishop_attacks_from_occ(occ, i) };
            let idx = index_magic(occ, magic, shift);
            proof {
                lemma_attacks_for(rook, i as int, occ, attacks);
            }
            arr.set(idx, attacks);
            karr.set(idx, occ);
        }
        result.push(arr);
        keys.push(karr);
    }
    proof {
        let t = result@.map_values(|row: Vec<u64>| row@);
        let k = keys@.map_values(|row: Vec<u64>| row@);
        assert forall|sq: int, idx: int| 0 <= sq < 64 && 0 <= idx < t[sq].len() implies entry_ok(rook, sq, #[trigger] k[sq][idx], t[sq][idx]) by {
            assert(t[sq] == result@[sq]@);
            assert(k[sq] == keys@[sq]@);
        }
        assert forall|sq: int| 0 <= sq < 64 implies #[trigger] t[sq].len() == table_len(rook, sq) by {
            assert(t[sq] == result@[sq]@);
        }
        assert forall|sq: int| 0 <= sq < 64 implies #[trigger] k[sq].len() == table_len(rook, sq) by {
            assert(k[sq] == keys@[sq]@);
        }
    }
    (result, keys)
}

/// The bishop attack table indexed by square and magic index, with the
/// occupancy each entry was filled for.
pub fn compute_bishop_lookup() -> (r: (Vec<Vec<u64>>, Vec<Vec<u64>>))
    ensures
        table_ok(false, r.0@.map_values(|row: Vec<u64>| row@), r.1@.map_values(|row: Vec<u64>| row@)),
{
    compute_lookup(false)
}

/// The rook attack table indexed by square and magic index, with the
/// occupancy each entry was filled for.
pub fn compute_rook_lookup() -> (r: (Vec<Vec<u64>>, Vec<Vec<u64>>))
    ensures
        table_ok(true, r.0@.map_values(|row: Vec<u64>| row@), r.1@.map_values(|row: Vec<u64>| row@)),
{
    compute_lookup(true)
}

pub const ROOK_MAGICS: [u64; 64] = [
    7035315465041784025, 10681852079867199381, 9144433878675229191, 12715829227078368949,
    3677275950918892973, 15119714564125737037, 15655010974651088058, 1037017061092786140,
    13510659775649576503, 2748294137189399693, 13573532300355281005, 16532230426036866460,
    6410588624937985655, 9697685240690418141, 6600569263284224506, 9296630260047278016,
    15572520509954733135, 724097128831143368, 12737410542226846240, 9166292649406850671,
    17827875984121574649, 8162133750098703880, 1634689354836784728, 6967333781113829897,
    80833984154021187, 15400503912424068873, 7739093144475243635, 6766277894501671208,
    1890285862163650299, 4443664888360653912, 9299460700912463670, 9299460700912463670,
    9144433878675229191, 3927757354765725995, 11034288451168190801, 17783837470889278794,
    13650880483342724769, 2128812098201290397, 16425513883796234081, 15611391974590906893,
    6081541118440770148, 6332531675034898414, 17395623880672698369, 8462271628134320029,
    8998873414143194392, 12557269419879538198, 12481718542061564246, 2484178166730559452,
    349587381804722688, 349587381804722688, 6607528582023352998, 6970392990774609584,
    16177742589595067844, 13855553921007937727, 17705390255989242880, 15923201104149236264,
    2170322281395210590, 2170322281395210590, 7131866450072760830, 3669241129923181398,
    8221344403219350278, 1052304407931279594, 2857467099844446724, 6834427993197314114,
];

pub const BISHOP_MAGICS: [u64; 64] = [
    8162133750098703880, 12558445981157360152, 11092405518535592955, 7996177986613054998,
    9629270019050479025, 4318398077988087100, 15608920066098276120, 13236432969697076320,
    14165862587537564038, 13646377118369440120, 10368500425185342560, 16693920367555100621,
    260544694916547982, 9032151582126397287, 4893573604293218970, 2613134948894779399,
    10673799171557826370, 3774191654591401933, 14107352781960469148, 17488042259621663381,
    1437679679268416452, 7219246880997377384, 17078636710450110509, 9512169642983173695,
    15390971263527704189, 16018122290936415930, 17516895317138358258, 7321543603588731428,
    652878855908929711, 16324949580526897656, 6503826804753880497, 3549688646903826432,
    13002054870707001367, 17405823239083995257, 1895248083825584055, 12237671718365729700,
    10825231920229254154, 7341914777554225862, 13130820909658724870, 16419037104801481731,
    6935842597145092270, 5009889477388252044, 16869427809440716315, 5770505103128441973,
    2128812098201290397, 17383146621527863132, 14906927328604065958, 10441942203642848614,
    15608920066098276120, 11629984745249602192, 7612535728549924286, 15126064557536578518,
    5419444230551896938, 14333639986832016068, 3381803201400218016, 12558445981157360152,
    13236432969697076320, 2613134948894779399, 16287714993460250666, 13842742111574825472,
    10703648593032315909, 15043715739471848206, 14165862587537564038, 8162133750098703880,
];

pub const ROOK_SHIFTS: [usize; 64] = [
    50, 51, 51, 51,
    51, 51, 51, 50,
    52, 53, 52, 52,
    52, 52, 53, 52,
    51, 53, 52, 52,
    52, 52, 53, 52,
    52, 53, 52, 52,
    52, 52, 53, 52,
    51, 53, 52, 52,
    52, 52, 53, 52,
    52, 53, 53, 52,
    52, 53, 53, 52,
    52, 53, 52, 53,
    52, 52, 53, 52,
    51, 52, 52, 52,
    52, 51, 53, 52,
];

pub const BISHOP_SHIFTS: [usize; 64] = [
    57, 59, 59, 59,
    59, 59, 59, 58,
    59, 59, 59, 59,
    59, 59, 59, 59,
    59, 59, 56, 56,
    56, 56, 59, 59,
    59, 59, 56, 53,
    53, 56, 59, 59,
    59, 59, 56, 53,
    53, 56, 59, 59,
    59, 59, 56, 56,
    56, 56, 59, 58,
    59, 59, 59, 59,
    59, 59, 59, 59,
    58, 59, 59, 59,
    59, 59, 59, 57,
];

} // verus!
