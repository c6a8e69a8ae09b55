use vstd::prelude::*;
use crate::bitboard_helpers::{count_ones, pop_lsb, popcount, squares_of, lemma_squares_len, lemma_popcount_le_64,
    rotate_left};
use crate::constants::{WHITE, BLACK, FILES, FILEA, FILEH};
use crate::position::board::Board;
use crate::moving::move_generation::{pawn_attacks_all, pawn_attacks_spec};
use crate::evaluation::phase::{interp_phase, interp_spec, lemma_interp_fits};
use crate::evaluation::preliminary::PreEvalResult;
use crate::evaluation::evaluator::Evaluator;

verus! {

/// Number of index bits of the pawn cache.
pub const K: usize = 16;

/// A cached pawn-structure score: middlegame and endgame values for a pair
/// of pawn sets.
#[derive(Clone, Copy)]
pub struct PawnEvalHashEntry {
    pub mg_score: i32,
    pub eg_score: i32,
    pub white_pawns: u64,
    pub black_pawns: u64,
}

/// A direct-mapped cache of pawn-structure scores, indexed by the low bits
/// of the pawn hash.
pub struct PawnEvalHashTable {
    table: Vec<Option<PawnEvalHashEntry>>,
    mask: u64,
}

/// The pawn hash: both pawn sets (first and last ranks dropped) mixed by two
/// multipliers, then the splitmix finaliser.
pub open spec fn pawn_hash_spec(white: u64, black: u64) -> u64 {
    let a = (white >> 8u64).wrapping_mul(0x9E3779B185EBCA87u64);
    let b0 = (black >> 8u64).wrapping_mul(0xC2B2AE3D27D4EB4Fu64);
    let b = (b0 << 32u64) | (b0 >> 32u64);
    let z0 = a ^ b;
    let z1 = (z0 ^ (z0 >> 30u64)).wrapping_mul(0xBF58476D1CE4E5B9u64);
    let z2 = (z1 ^ (z1 >> 27u64)).wrapping_mul(0x94D049BB133111EBu64);
    z2 ^ (z2 >> 31u64)
}

/// The hash of a pair of pawn sets.
pub fn hash_pawns(white: u64, black: u64) -> (r: u64)
    ensures
        r == pawn_hash_spec(white, black),
{
    let a = (white >> 8).wrapping_mul(0x9E3779B185EBCA87u64);
    let b = rotate_left((black >> 8).wrapping_mul(0xC2B2AE3D27D4EB4Fu64), 32);
    let mut z = a ^ b;
    z = z ^ (z >> 30);
    z = z.wrapping_mul(0xBF58476D1CE4E5B9u64);
    z = z ^ (z >> 27);
    z = z.wrapping_mul(0x94D049BB133111EBu64);
    z = z ^ (z >> 31);
    z
}

/// The slot of a pair of pawn sets.
pub open spec fn slot_of(white: u64, black: u64) -> int {
    (pawn_hash_spec(white, black) % 65536) as int
}

impl PawnEvalHashTable {
    /// The table has 2^16 slots and masks hashes to their low 16 bits.
    pub closed spec fn wf(&self) -> bool {
        self.table@.len() == 65536 && self.mask == 65535
    }

    /// The contents of the slots.
    pub closed spec fn slots(&self) -> Seq<Option<PawnEvalHashEntry>> {
        self.table@
    }

    /// An empty cache.
    pub fn new() -> (r: Self)
        ensures
            r.wf(),
            forall|i: int| 0 <= i < 65536 ==> (#[trigger] r.slots()[i]) is None,
    {
        let size: usize = 65536;
        let table: Vec<Option<PawnEvalHashEntry>> = vec![None; size];
        PawnEvalHashTable { table, mask: 65535 }
    }

    /// Stores `entry` in the slot of the pawn sets.
    pub fn store(&mut self, white_pawns: u64, black_pawns: u64, entry: PawnEvalHashEntry)
        requires
            old(self).wf(),
        ensures
            final(self).wf(),
            final(self).slots() == old(self).slots().update(slot_of(white_pawns, black_pawns), Some(entry)),
    {
        let hash = hash_pawns(white_pawns, black_pawns);
        let idx = hash & self.mask;
        proof {
            lemma_mask_mod(hash);
        }
        self.table.set(idx as usize, Some(entry));
    }

    /// The entry stored for the pawn sets, if their slot holds them.
    pub fn probe(&self, white_pawns: u64, black_pawns: u64) -> (r: Option<PawnEvalHashEntry>)
        requires
            self.wf(),
        ensures
            ({
                let e = self.slots()[slot_of(white_pawns, black_pawns)];
                r == (if e is Some && e->0.white_pawns == white_pawns && e->0.black_pawns == black_pawns { e } else {
                    None
                })
            }),
    {
        let hash = hash_pawns(white_pawns, black_pawns);
        let idx = hash & self.mask;
        proof {
            lemma_mask_mod(hash);
        }
        let entry = &self.table[idx as usize];
        match entry {
            Some(e) => {
                if e.white_pawns == white_pawns && e.black_pawns == black_pawns {
                    Some(*e)
                } else {
                    None
                }
            },
            None => None,
        }
    }
}

proof fn lemma_mask_mod(h: u64)
    ensures
        h & 65535 == h % 65536,
{
    assert(h & 65535 == h % 65536) by (bit_vector);
}

/// A cache read after storing an entry for the same pawn sets gives that entry.
pub proof fn law_probe_after_store(t: PawnEvalHashTable, white: u64, black: u64, e: PawnEvalHashEntry)
    requires
        t.wf(),
        e.white_pawns == white,
        e.black_pawns == black,
    ensures
        ({
            let s = t.slots().update(slot_of(white, black), Some(e));
            s[slot_of(white, black)] == Some(e)
        }),
{
    assert(0 <= slot_of(white, black) < 65536);
}

pub const PASSED_PAWN_SCORE_MG: [[i32; 8]; 2] = [[0, 100, 60, 35, 20, 10, 5, 0], [0, 5, 10, 20, 35, 60, 100, 0]];
pub const PASSED_PAWN_SCORE_EG: [[i32; 8]; 2] = [
    [0, 260, 140, 85, 50, 20, 10, 0],
    [0, 10, 20, 50, 85, 140, 260, 0],
];
pub const ISOLATED_PAWN_PENALTY_MG: i32 = -20;
pub const ISOLATED_PAWN_PENALTY_EG: i32 = -50;
pub const DOUBLED_PAWN_PENALTY_MG: i32 = -12;
pub const DOUBLED_PAWN_PENALTY_EG: i32 = -24;
pub const PAWN_CHAIN_SCORE: [[i32; 8]; 2] = [[0, 70, 25, 15, 10, 5, 0, 0], [0, 0, 5, 10, 15, 25, 70, 0]];
pub const BACKWARDS_PAWN_PENALTY: i32 = -20;

/// One row of the front span: the square `ptr` and its neighbours on the
/// files next to `file`.
pub open spec fn front_row(lookup: u64, ptr: int, file: int) -> u64 {
    let l1 = lookup | (1u64 << (ptr as u64));
    let l2 = if file > 0 { l1 | (1u64 << ((ptr - 1) as u64)) } else { l1 };
    if file < 7 { l2 | (1u64 << ((ptr + 1) as u64)) } else { l2 }
}

/// The first `n` rows of the front span of a white pawn on `sq`.
pub open spec fn front_up(sq: int, n: int) -> u64
    decreases n,
{
    if n <= 0 { 0 } else { front_row(front_up(sq, n - 1), sq + 8 * n, sq % 8) }
}

/// The first `n` rows of the front span of a black pawn on `sq`.
pub open spec fn front_down(sq: int, n: int) -> u64
    decreases n,
{
    if n <= 0 { 0 } else { front_row(front_down(sq, n - 1), sq - 8 * n, sq % 8) }
}

/// The squares in front of a pawn of `color` on `sq`, on its file and the
/// files next to it (for black, down to the second rank, from the third rank on).
pub open spec fn pawn_front(color: int, sq: int) -> u64 {
    if color == WHITE {
        front_up(sq, (63 - sq) / 8)
    } else if sq > 8 {
        front_down(sq, (sq - 8) / 8)
    } else {
        0
    }
}

/// The front span of a pawn of `color` on `sq`.
pub fn get_pawn_front(color: usize, sq: usize) -> (r: u64)
    requires
        sq < 64,
    ensures
        r == pawn_front(color as int, sq as int),
{
    let file = sq % 8;
    let mut lookup: u64 = 0;
    if color == WHITE {
        let mut ptr = sq + 8;
        let ghost mut n: int = 0;
        while ptr < 64
            invariant
                sq < 64,
                file == sq % 8,
                ptr == sq + 8 * (n + 1),
                0 <= n <= (63 - sq) / 8,
                lookup == front_up(sq as int, n),
                ptr >= 64 ==> n == (63 - sq) / 8,
                ptr <= 71,
            decreases 72 - ptr,
        {
            lookup = lookup | (1u64 << ptr);
            if file > 0 {
                lookup = lookup | (1u64 << (ptr - 1));
            }
            if file < 7 {
                lookup = lookup | (1u64 << (ptr + 1));
            }
            ptr = ptr + 8;
            proof {
                n = n + 1;
            }
        }
    } else if sq > 8 {
        let mut ptr = sq - 8;
        let ghost mut n: int = 0;
        while ptr >= 8
            invariant
                sq < 64,
                sq > 8,
                file == sq % 8,
                ptr == sq - 8 * (n + 1),
                0 <= n <= (sq - 8) / 8,
                lookup == front_down(sq as int, n),
                ptr < 8 ==> n == (sq - 8) / 8,
            decreases ptr,
        {
            lookup = lookup | (1u64 << ptr);
            if file > 0 {
                lookup = lookup | (1u64 << (ptr - 1));
            }
            if file < 7 {
                lookup = lookup | (1u64 << (ptr + 1));
            }
            proof {
                n = n + 1;
            }
            ptr = ptr - 8;
        }
    }
    lookup
}

/// The rank a passed pawn has reached, 0 for a pawn that is not passed.
pub open spec fn passed_rank_spec(color: int, pawn: int, enemy_pawns: u64) -> int {
    if pawn_front(color, pawn) & enemy_pawns == 0 { pawn / 8 } else { 0 }
}

/// The passed pawn bonuses of the pawns on `sqs`, middlegame or endgame.
pub open spec fn passed_sum(sqs: Seq<int>, color: int, enemy_pawns: u64, endgame: bool) -> int
    decreases sqs.len(),
{
    if sqs.len() == 0 {
        0
    } else {
        let r = passed_rank_spec(color, sqs[0], enemy_pawns);
        (if endgame { PASSED_PAWN_SCORE_EG[color][r] } else { PASSED_PAWN_SCORE_MG[color][r] }) as int
            + passed_sum(sqs.drop_first(), color, enemy_pawns, endgame)
    }
}

/// A pawn with no own pawn on the files next to it.
pub open spec fn isolated_spec(pawn: int, pawns: u64) -> bool {
    let file = pawn % 8;
    let mask = if file == 0 {
        FILES[file + 1]
    } else if file == 7 {
        FILES[file - 1]
    } else {
        FILES[file + 1] | FILES[file - 1]
    };
    pawns & mask == 0
}

/// The number of isolated pawns among `sqs`.
pub open spec fn isolated_count(sqs: Seq<int>, pawns: u64) -> int
    decreases sqs.len(),
{
    if sqs.len() == 0 {
        0
    } else {
        (if isolated_spec(sqs[0], pawns) { 1int } else { 0int }) + isolated_count(sqs.drop_first(), pawns)
    }
}

/// A pawn with an own pawn beside it.
pub open spec fn phalanx_spec(pawn: u64, pawns: u64) -> bool {
    (((pawn & !FILEA) >> 1u64) | ((pawn & !FILEH) << 1u64)) & pawns != 0
}

/// A pawn with an own pawn diagonally next to it.
pub open spec fn chain_spec(pawn: u64, pawns: u64) -> bool {
    (((pawn & !FILEA) << 7u64) | ((pawn & !FILEA) >> 9u64) | ((pawn & !FILEH) << 9u64) | ((pawn & !FILEH) >> 7u64))
        & pawns != 0
}

/// A backward pawn of `color`: no pawn beside it, none of its own behind it
/// on its files, and its stop square attacked by an enemy pawn.
pub open spec fn backward_spec(color: int, pawn: int, pawns: u64, enemy_pawns: u64) -> bool {
    let pawn_bb = 1u64 << (pawn as u64);
    if color == WHITE {
        !phalanx_spec(pawn_bb, pawns) && pawns & pawn_front(BLACK as int, pawn) == 0 && pawn_attacks_spec(
            enemy_pawns, BLACK as int) & (pawn_bb << 8u64) != 0
    } else {
        !phalanx_spec(pawn_bb, pawns) && pawns & pawn_front(WHITE as int, pawn) == 0 && pawn_attacks_spec(
            enemy_pawns, WHITE as int) & (pawn_bb >> 8u64) != 0
    }
}

/// The number of backward pawns among `sqs`.
pub open spec fn backward_count(sqs: Seq<int>, color: int, pawns: u64, enemy_pawns: u64) -> int
    decreases sqs.len(),
{
    if sqs.len() == 0 {
        0
    } else {
        (if backward_spec(color, sqs[0], pawns, enemy_pawns) { 1int } else { 0int }) + backward_count(
            sqs.drop_first(), color, pawns, enemy_pawns)
    }
}

/// The bonuses of the pawns among `sqs` that stand in a phalanx or a chain.
pub open spec fn connected_sum(sqs: Seq<int>, color: int, pawns: u64) -> int
    decreases sqs.len(),
{
    if sqs.len() == 0 {
        0
    } else {
        let bb = 1u64 << (sqs[0] as u64);
        (if phalanx_spec(bb, pawns) || chain_spec(bb, pawns) { PAWN_CHAIN_SCORE[color][sqs[0] / 8] as int } else {
            0int
        }) + connected_sum(sqs.drop_first(), color, pawns)
    }
}

/// The pawns counted by file, first `k` files.
pub open spec fn file_pawn_count(pawns: u64, k: int) -> int
    decreases k,
{
    if k <= 0 { 0 } else { file_pawn_count(pawns, k - 1) + popcount(FILES[k - 1] & pawns) }
}

/// The middlegame and endgame pawn-structure scores of one side.
pub open spec fn pawn_side_scores(color: int, pawns: u64, enemy_pawns: u64) -> (int, int) {
    let sqs = squares_of(pawns);
    let iso = isolated_count(sqs, pawns);
    let dbl = file_pawn_count(pawns, 8);
    let back = backward_count(sqs, color, pawns, enemy_pawns) * BACKWARDS_PAWN_PENALTY;
    let conn = connected_sum(sqs, color, pawns);
    (
        passed_sum(sqs, color, enemy_pawns, false) + iso * ISOLATED_PAWN_PENALTY_MG + DOUBLED_PAWN_PENALTY_MG * dbl
            + back + conn,
        passed_sum(sqs, color, enemy_pawns, true) + iso * ISOLATED_PAWN_PENALTY_EG + DOUBLED_PAWN_PENALTY_EG * dbl
            + back + conn,
    )
}

/// The pawn-structure scores, white's view: white's minus black's.
pub open spec fn pawn_scores(white: u64, black: u64) -> (int, int) {
    let w = pawn_side_scores(WHITE as int, white, black);
    let b = pawn_side_scores(BLACK as int, black, white);
    (w.0 - b.0, w.1 - b.1)
}

/// A cache whose entries all hold the scores of their own pawn sets.
pub open spec fn cache_correct(t: PawnEvalHashTable) -> bool {
    t.wf() && forall|i: int| 0 <= i < 65536 && (#[trigger] t.slots()[i]) is Some ==> {
        let e = t.slots()[i]->0;
        &&& (e.mg_score as int, e.eg_score as int) == pawn_scores(e.white_pawns, e.black_pawns)
        &&& -60000 <= e.mg_score <= 60000
        &&& -60000 <= e.eg_score <= 60000
    }
}

fn score_passed_pawns(color: usize, pawns: u64, enemy_pawns: u64) -> (r: (i32, i32))
    requires
        color < 2,
    ensures
        r.0 == passed_sum(squares_of(pawns), color as int, enemy_pawns, false),
        r.1 == passed_sum(squares_of(pawns), color as int, enemy_pawns, true),
        0 <= r.0 <= 6400,
        0 <= r.1 <= 16640,
{
    let mut pawns = pawns;
    let ghost p0 = pawns;
    let ghost mut done: int = 0;
    proof {
        lemma_squares_len(pawns);
    }
    let mut midgame_score: i32 = 0;
    let mut endgame_score: i32 = 0;
    while pawns != 0
        invariant
            color < 2,
            0 <= done,
            done + squares_of(pawns).len() == squares_of(p0).len(),
            squares_of(p0).len() <= 64,
            0 <= midgame_score <= 100 * done,
            0 <= endgame_score <= 260 * done,
            midgame_score + passed_sum(squares_of(pawns), color as int, enemy_pawns, false) == passed_sum(squares_of(
                p0), color as int, enemy_pawns, false),
            endgame_score + passed_sum(squares_of(pawns), color as int, enemy_pawns, true) == passed_sum(squares_of(
                p0), color as int, enemy_pawns, true),
        decreases pawns,
    {
        let ghost sq = squares_of(pawns);
        let pawn = pop_lsb(&mut pawns);
        let front = get_pawn_front(color, pawn);
        let rank = if front & enemy_pawns == 0 { pawn / 8 } else { 0 };
        midgame_score = midgame_score + PASSED_PAWN_SCORE_MG[color][rank];
        endgame_score = endgame_score + PASSED_PAWN_SCORE_EG[color][rank];
        proof {
            assert(sq.drop_first() =~= squares_of(pawns));
            done = done + 1;
        }
    }
    (midgame_score, endgame_score)
}

fn count_doubled_pawns(pawns: u64) -> (r: u32)
    ensures
        r == file_pawn_count(pawns, 8),
        r <= 512,
{
    let mut cnt: u32 = 0;
    let mut f: usize = 0;
    while f < 8
        invariant
            f <= 8,
            cnt == file_pawn_count(pawns, f as int),
            cnt <= 64 * f,
        decreases 8 - f,
    {
        let file_pawns = FILES[f] & pawns;
        proof {
            lemma_popcount_le_64(file_pawns);
        }
        cnt = cnt + count_ones(file_pawns);
        f = f + 1;
    }
    cnt
}

fn is_isolated(pawn: usize, pawns: u64) -> (r: bool)
    requires
        pawn < 64,
    ensures
        r == isolated_spec(pawn as int, pawns),
{
    let file = pawn % 8;
    let mask = if file == 0 {
        FILES[file + 1]
    } else if file == 7 {
        FILES[file - 1]
    } else {
        FILES[file + 1] | FILES[file - 1]
    };
    pawns & mask == 0
}

fn count_isolated_pawns(pawns: u64) -> (r: i32)
    ensures
        r == isolated_count(squares_of(pawns), pawns),
        0 <= r <= 64,
{
    let mut cnt: i32 = 0;
    let mut pop_pawns = pawns;
    let ghost mut done: int = 0;
    proof {
        lemma_squares_len(pawns);
    }
    while pop_pawns != 0
        invariant
            0 <= done,
            done + squares_of(pop_pawns).len() == squares_of(pawns).len(),
            squares_of(pawns).len() <= 64,
            0 <= cnt <= done,
            cnt + isolated_count(squares_of(pop_pawns), pawns) == isolated_count(squares_of(pawns), pawns),
        decreases pop_pawns,
    {
        let ghost sq = squares_of(pop_pawns);
        let pawn = pop_lsb(&mut pop_pawns);
        if is_isolated(pawn, pawns) {
            cnt = cnt + 1;
        }
        proof {
            assert(sq.drop_first() =~= squares_of(pop_pawns));
            done = done + 1;
        }
    }
    cnt
}

fn is_in_phalanx(pawn: u64, pawns: u64) -> (r: bool)
    ensures
        r == phalanx_spec(pawn, pawns),
{
    let relevant_squares = ((pawn & !FILEA) >> 1) | ((pawn & !FILEH) << 1);
    (relevant_squares & pawns) != 0
}

fn is_in_chain(pawn: u64, pawns: u64) -> (r: bool)
    ensures
        r == chain_spec(pawn, pawns),
{
    let relevant_squares = ((pawn & !FILEA) << 7) | ((pawn & !FILEA) >> 9) | ((pawn & !FILEH) << 9) | ((pawn
        & !FILEH) >> 7);
    (relevant_squares & pawns) != 0
}

fn count_backwards_pawns(color: usize, pawns: u64, enemy_pawns: u64) -> (r: i32)
    ensures
        r == backward_count(squares_of(pawns), color as int, pawns, enemy_pawns),
        0 <= r <= 64,
{
    let mut pop_pawns = pawns;
    let ghost mut done: int = 0;
    proof {
        lemma_squares_len(pawns);
    }
    let enemy_pawn_attacks = if color == WHITE {
        pawn_attacks_all(enemy_pawns, BLACK)
    } else {
        pawn_attacks_all(enemy_pawns, WHITE)
    };
    let mut res: i32 = 0;
    while pop_pawns != 0
        invariant
            0 <= done,
            done + squares_of(pop_pawns).len() == squares_of(pawns).len(),
            squares_of(pawns).len() <= 64,
            0 <= res <= done,
            enemy_pawn_attacks == pawn_attacks_spec(enemy_pawns, if color == WHITE { BLACK as int } else {
                WHITE as int
            }),
            res + backward_count(squares_of(pop_pawns), color as int, pawns, enemy_pawns) == backward_count(
                squares_of(pawns), color as int, pawns, enemy_pawns),
        decreases pop_pawns,
    {
        let ghost sq = squares_of(pop_pawns);
        let pawn = pop_lsb(&mut pop_pawns);
        let pawn_bb: u64 = 1u64 << pawn;
        let is_back = if color == WHITE {
            let behind = get_pawn_front(BLACK, pawn);
            let stop_square = pawn_bb << 8;
            !is_in_phalanx(pawn_bb, pawns) && pawns & behind == 0 && enemy_pawn_attacks & stop_square != 0
        } else {
            let behind = get_pawn_front(WHITE, pawn);
            let stop_square = pawn_bb >> 8;
            !is_in_phalanx(pawn_bb, pawns) && pawns & behind == 0 && enemy_pawn_attacks & stop_square != 0
        };
        if is_back {
            res = res + 1;
        }
        proof {
            assert(sq.drop_first() =~= squares_of(pop_pawns));
            done = done + 1;
        }
    }
    res
}

fn score_connected_pawns(pawns: u64, color: usize) -> (r: i32)
    requires
        color < 2,
    ensures
        r == connected_sum(squares_of(pawns), color as int, pawns),
        0 <= r <= 4480,
{
    let mut score: i32 = 0;
    let mut pawns_pop = pawns;
    let ghost mut done: int = 0;
    proof {
        lemma_squares_len(pawns);
    }
    while pawns_pop != 0
        invariant
            color < 2,
            0 <= done,
            done + squares_of(pawns_pop).len() == squares_of(pawns).len(),
            squares_of(pawns).len() <= 64,
            0 <= score <= 70 * done,
            score + connected_sum(squares_of(pawns_pop), color as int, pawns) == connected_sum(squares_of(pawns),
                color as int, pawns),
        decreases pawns_pop,
    {
        let ghost sq = squares_of(pawns_pop);
        let pawn = pop_lsb(&mut pawns_pop);
        let pawn_bb = 1u64 << pawn;
        if is_in_phalanx(pawn_bb, pawns) || is_in_chain(pawn_bb, pawns) {
            score = score + PAWN_CHAIN_SCORE[color][pawn / 8];
        }
        proof {
            assert(sq.drop_first() =~= squares_of(pawns_pop));
            done = done + 1;
        }
    }
    score
}

/// The middlegame and endgame pawn-structure scores of one side.
fn score_pawns_side(color: usize, pawns: u64, enemy_pawns: u64) -> (r: (i32, i32))
    requires
        color < 2,
    ensures
        r.0 == pawn_side_scores(color as int, pawns, enemy_pawns).0,
        r.1 == pawn_side_scores(color as int, pawns, enemy_pawns).1,
        -30000 <= r.0 <= 30000,
        -30000 <= r.1 <= 30000,
{
    let (passed_mg, passed_eg) = score_passed_pawns(color, pawns, enemy_pawns);
    let iso = count_isolated_pawns(pawns);
    let dbl = count_doubled_pawns(pawns) as i32;
    let back = count_backwards_pawns(color, pawns, enemy_pawns) * BACKWARDS_PAWN_PENALTY;
    let conn = score_connected_pawns(pawns, color);
    let mg = passed_mg + iso * ISOLATED_PAWN_PENALTY_MG + DOUBLED_PAWN_PENALTY_MG * dbl + back + conn;
    let eg = passed_eg + iso * ISOLATED_PAWN_PENALTY_EG + DOUBLED_PAWN_PENALTY_EG * dbl + back + conn;
    (mg, eg)
}

impl Evaluator {
    /// The pawn-structure score, white's view, blended by the phase; read from
    /// the cache when it holds the pawn sets, else computed and cached.
    pub fn score_pawns(&mut self, board: &Board, pre_eval: &PreEvalResult) -> (r: i32)
        requires
            cache_correct(old(self).pawn_hash),
            0 <= pre_eval.phase <= 1024,
        ensures
            cache_correct(final(self).pawn_hash),
            r == interp_spec(pawn_scores(board.pieces(WHITE as int).pawns, board.pieces(BLACK as int).pawns).0,
                pawn_scores(board.pieces(WHITE as int).pawns, board.pieces(BLACK as int).pawns).1, pre_eval.phase
                as int),
            -1_000_000 <= r <= 1_000_000,
    {
        let white_pawns = board.get_pieces(WHITE).get_pawns();
        let black_pawns = board.get_pieces(BLACK).get_pawns();
        if let Some(entry) = self.pawn_hash.probe(white_pawns, black_pawns) {
            proof {
                assert(0 <= slot_of(white_pawns, black_pawns) < 65536);
                let e = self.pawn_hash.slots()[slot_of(white_pawns, black_pawns)];
                assert(e is Some);
                lemma_interp_fits(entry.mg_score as int, entry.eg_score as int, pre_eval.phase as int);
            }
            interp_phase(entry.mg_score, entry.eg_score, pre_eval.phase)
        } else {
            let (white_score_mg, white_score_eg) = score_pawns_side(WHITE, white_pawns, black_pawns);
            let (black_score_mg, black_score_eg) = score_pawns_side(BLACK, black_pawns, white_pawns);
            let mg_score = white_score_mg - black_score_mg;
            let eg_score = white_score_eg - black_score_eg;
            let new_entry = PawnEvalHashEntry { mg_score, eg_score, white_pawns, black_pawns };
            self.pawn_hash.store(white_pawns, black_pawns, new_entry);
            proof {
                assert(0 <= slot_of(white_pawns, black_pawns) < 65536);
                lemma_interp_fits(mg_score as int, eg_score as int, pre_eval.phase as int);
            }
            interp_phase(mg_score, eg_score, pre_eval.phase)
        }
    }
}

} // verus!
