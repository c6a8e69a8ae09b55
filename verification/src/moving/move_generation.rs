use vstd::prelude::*;
use crate::constants::{bit, WHITE, BLACK};
use crate::moving::lookups::{knight_rel, king_rel, pawn_attacks_to_rel, between_rel, knight_attacks_of,
    king_attacks_of, pawn_attacks_to_of, between_of};
use crate::moving::magics::{table_ok, relevant, entry_ok, magic_index, magic_of, shift_of, table_len,
    compute_rook_lookup, compute_bishop_lookup, rook_relevancy_mask, bishop_relevancy_mask, index_magic,
    slider_attack, attacks_for, lemma_attacks_for, lemma_attacks_for_bits, get_rook_attacks_from_occ,
    get_bishop_attacks_from_occ, NO_KEY, ROOK_MAGICS, BISHOP_MAGICS, ROOK_SHIFTS, BISHOP_SHIFTS};

verus! {

/// Attack tables: knight, king and pawn attacks, the squares between two
/// squares, and the magic tables of the sliders with their relevancy masks
/// (each magic entry with the occupancy it was filled for).
pub struct MoveGenerator {
    rook_lookup: Vec<Vec<u64>>,
    bishop_lookup: Vec<Vec<u64>>,
    rook_keys: Vec<Vec<u64>>,
    bishop_keys: Vec<Vec<u64>>,
    rook_masks: Vec<u64>,
    bishop_masks: Vec<u64>,
    knight_lookup: Vec<u64>,
    king_lookup: Vec<u64>,
    pawn_attacks_to: Vec<Vec<u64>>,
    bb_between: Vec<Vec<u64>>,
}

pub open spec fn table_of_each(t: Seq<u64>, rel: spec_fn(int, int) -> bool) -> bool {
    &&& t.len() == 64
    &&& forall|sq: int, q: int| 0 <= sq < 64 && 0 <= q < 64 ==> (#[trigger] bit(t[sq], q) <==> rel(sq, q))
}

impl MoveGenerator {
    #[verifier::type_invariant]
    pub closed spec fn wf(&self) -> bool {
        &&& table_ok(true, self.rook_lookup@.map_values(|row: Vec<u64>| row@), self.rook_keys@.map_values(
            |row: Vec<u64>| row@,
        ))
        &&& table_ok(false, self.bishop_lookup@.map_values(|row: Vec<u64>| row@), self.bishop_keys@.map_values(
            |row: Vec<u64>| row@,
        ))
        &&& table_of_each(self.rook_masks@, |sq: int, q: int| relevant(true, sq, q))
        &&& table_of_each(self.bishop_masks@, |sq: int, q: int| relevant(false, sq, q))
        &&& table_of_each(self.knight_lookup@, |sq: int, q: int| knight_rel(sq, q))
        &&& table_of_each(self.king_lookup@, |sq: int, q: int| king_rel(sq, q))
        &&& self.pawn_attacks_to@.len() == 2
        &&& table_of_each(self.pawn_attacks_to@[0]@, |sq: int, q: int| pawn_attacks_to_rel(0, sq, q))
        &&& table_of_each(self.pawn_attacks_to@[1]@, |sq: int, q: int| pawn_attacks_to_rel(1, sq, q))
        &&& self.bb_between@.len() == 64
        &&& forall|i: int| 0 <= i < 64 ==> #[trigger] self.bb_between@[i]@.len() == 64
        &&& forall|i: int, j: int, q: int| 0 <= i < 64 && 0 <= j < 64 && 0 <= q < 64 ==> (#[trigger] bit(self.bb_between@[i]@[j], q) <==> between_rel(i, j, q))
    }

    /// Knight attacks from `sq`.
    pub closed spec fn knight_bb(&self, sq: int) -> u64 {
        self.knight_lookup@[sq]
    }

    /// King attacks from `sq`.
    pub closed spec fn king_bb(&self, sq: int) -> u64 {
        self.king_lookup@[sq]
    }

    /// Squares from which a pawn of `color` attacks `sq`.
    pub closed spec fn pawn_to_bb(&self, color: int, sq: int) -> u64 {
        self.pawn_attacks_to@[color]@[sq]
    }

    /// Squares strictly between `i` and `j`.
    pub closed spec fn between_bb(&self, i: int, j: int) -> u64 {
        self.bb_between@[i]@[j]
    }

    /// The relevancy mask of a rook (`rook`) or bishop on `sq`.
    pub closed spec fn mask_bb(&self, rook: bool, sq: int) -> u64 {
        if rook { self.rook_masks@[sq] } else { self.bishop_masks@[sq] }
    }

    /// The attacks of a rook (`rook`) or bishop on `sq` for the blockers `occ`
    /// on its relevant squares.
    pub closed spec fn slider_bb(&self, rook: bool, sq: int, occ: u64) -> u64 {
        attacks_for(rook, sq, occ & self.mask_bb(rook, sq))
    }

    /// Builds every table: knight, king and pawn attacks, the squares between
    /// two squares, and the relevancy masks and magic tables of the sliders.
    pub fn new() -> (r: Self)
        ensures
            tables_exact(r),
            forall|rook: bool, sq: int, occ: u64, q: int|
                0 <= sq < 64 && 0 <= q < 64 ==> (#[trigger] bit(r.slider_bb(rook, sq, occ), q) <==> slider_attack(
                    rook,
                    sq,
                    q,
                    occ & r.mask_bb(rook, sq),
                )),
            forall|sq: int, q: int|
                0 <= sq < 64 && 0 <= q < 64 ==> (#[trigger] bit(r.knight_bb(sq), q) <==> knight_rel(sq, q)),
            forall|sq: int, q: int| 0 <= sq < 64 && 0 <= q < 64 ==> (#[trigger] bit(r.king_bb(sq), q) <==> king_rel(sq, q)),
            forall|c: int, sq: int, q: int|
                0 <= c < 2 && 0 <= sq < 64 && 0 <= q < 64 ==> (#[trigger] bit(r.pawn_to_bb(c, sq), q)
                    <==> pawn_attacks_to_rel(c, sq, q)),
            forall|i: int, j: int, q: int|
                0 <= i < 64 && 0 <= j < 64 && 0 <= q < 64 ==> (#[trigger] bit(r.between_bb(i, j), q) <==> between_rel(
                    i,
                    j,
                    q,
                )),
            forall|sq: int, q: int|
                0 <= sq < 64 && 0 <= q < 64 ==> (#[trigger] bit(r.mask_bb(true, sq), q) <==> relevant(true, sq, q)),
            forall|sq: int, q: int|
                0 <= sq < 64 && 0 <= q < 64 ==> (#[trigger] bit(r.mask_bb(false, sq), q) <==> relevant(false, sq, q)),
    {
        let (rook_lookup, rook_keys) = compute_rook_lookup();
        let (bishop_lookup, bishop_keys) = compute_bishop_lookup();
        let mut rook_masks: Vec<u64> = Vec::new();
        let mut bishop_masks: Vec<u64> = Vec::new();
        let mut knight_lookup: Vec<u64> = Vec::new();
        let mut king_lookup: Vec<u64> = Vec::new();
        let mut white_pawns: Vec<u64> = Vec::new();
        let mut black_pawns: Vec<u64> = Vec::new();
        let mut bb_between: Vec<Vec<u64>> = Vec::new();
        for i in 0..64usize
            invariant
                rook_masks@.len() == i,
                bishop_masks@.len() == i,
                knight_lookup@.len() == i,
                king_lookup@.len() == i,
                white_pawns@.len() == i,
                black_pawns@.len() == i,
                bb_between@.len() == i,
                forall|sq: int, q: int| 0 <= sq < i && 0 <= q < 64 ==> (#[trigger] bit(rook_masks@[sq], q) <==> relevant(true, sq, q)),
                forall|sq: int, q: int| 0 <= sq < i && 0 <= q < 64 ==> (#[trigger] bit(bishop_masks@[sq], q) <==> relevant(false, sq, q)),
                forall|sq: int, q: int| 0 <= sq < i && 0 <= q < 64 ==> (#[trigger] bit(knight_lookup@[sq], q) <==> knight_rel(sq, q)),
                forall|sq: int, q: int| 0 <= sq < i && 0 <= q < 64 ==> (#[trigger] bit(king_lookup@[sq], q) <==> king_rel(sq, q)),
                forall|sq: int, q: int| 0 <= sq < i && 0 <= q < 64 ==> (#[trigger] bit(white_pawns@[sq], q) <==> pawn_attacks_to_rel(1, sq, q)),
                forall|sq: int, q: int| 0 <= sq < i && 0 <= q < 64 ==> (#[trigger] bit(black_pawns@[sq], q) <==> pawn_attacks_to_rel(0, sq, q)),
                forall|k: int| 0 <= k < i ==> #[trigger] bb_between@[k]@.len() == 64,
                forall|k: int, j: int, q: int| 0 <= k < i && 0 <= j < 64 && 0 <= q < 64 ==> (#[trigger] bit(bb_between@[k]@[j], q) <==> between_rel(k, j, q)),
        {
            rook_masks.push(rook_relevancy_mask(i));
            bishop_masks.push(bishop_relevancy_mask(i));
            knight_lookup.push(knight_attacks_of(i));
            king_lookup.push(king_attacks_of(i));
            white_pawns.push(pawn_attacks_to_of(WHITE, i));
            black_pawns.push(pawn_attacks_to_of(BLACK, i));
            let mut row: Vec<u64> = Vec::new();
            for j in 0..64usize
                invariant
                    row@.len() == j,
                    i < 64,
                    forall|jj: int, q: int| 0 <= jj < j && 0 <= q < 64 ==> (#[trigger] bit(row@[jj], q) <==> between_rel(i as int, jj, q)),
            {
                row.push(between_of(i, j));
            }
            bb_between.push(row);
        }
        let mut pawn_attacks_to: Vec<Vec<u64>> = Vec::new();
        pawn_attacks_to.push(black_pawns);
        pawn_attacks_to.push(white_pawns);
        let r = MoveGenerator {
            rook_lookup,
            bishop_lookup,
            rook_keys,
            bishop_keys,
            rook_masks,
            bishop_masks,
            knight_lookup,
            king_lookup,
            pawn_attacks_to,
            bb_between,
        };
        proof {
            use_type_invariant(&r);
            lemma_wf_exact(r);
            lemma_slider_bits(r);
            assert forall|c: int, sq: int, q: int|
                0 <= c < 2 && 0 <= sq < 64 && 0 <= q < 64 implies (#[trigger] bit(r.pawn_to_bb(c, sq), q)
                <==> pawn_attacks_to_rel(c, sq, q)) by {
                if c == 0 {
                    assert(bit(r.pawn_attacks_to@[0]@[sq], q) <==> pawn_attacks_to_rel(0, sq, q));
                } else {
                    assert(bit(r.pawn_attacks_to@[1]@[sq], q) <==> pawn_attacks_to_rel(1, sq, q));
                }
            }
        }
        r
    }

    pub fn get_knight_attacks(&self, sq: usize) -> (r: u64)
        requires
            sq < 64,
        ensures
            r == self.knight_bb(sq as int),
            forall|q: int| 0 <= q < 64 ==> (#[trigger] bit(r, q) <==> knight_rel(sq as int, q)),
    {
        proof {
            use_type_invariant(self);
        }
        self.knight_lookup[sq]
    }

    pub fn get_king_attacks(&self, sq: usize) -> (r: u64)
        requires
            sq < 64,
        ensures
            r == self.king_bb(sq as int),
            forall|q: int| 0 <= q < 64 ==> (#[trigger] bit(r, q) <==> king_rel(sq as int, q)),
    {
        proof {
            use_type_invariant(self);
        }
        self.king_lookup[sq]
    }

    /// Squares from which a pawn of `color` attacks `sq`.
    pub fn get_pawn_attacks(&self, sq: usize, color: usize) -> (r: u64)
        requires
            sq < 64,
            color < 2,
        ensures
            r == self.pawn_to_bb(color as int, sq as int),
            forall|q: int| 0 <= q < 64 ==> (#[trigger] bit(r, q) <==> pawn_attacks_to_rel(color as int, sq as int, q)),
    {
        proof {
            use_type_invariant(self);
        }
        self.pawn_attacks_to[color][sq]
    }

    /// The rook attacks from `sq` for the blockers `occ`: read from the magic
    /// table when its entry was filled for these blockers, else walked along the rays.
    pub fn get_rook_attacks(&self, sq: usize, occ: u64) -> (r: u64)
        requires
            sq < 64,
        ensures
            r == self.slider_bb(true, sq as int, occ),
            forall|q: int| 0 <= q < 64 ==> (#[trigger] bit(r, q) <==> slider_attack(true, sq as int, q, occ
                & self.mask_bb(true, sq as int))),
            forall|q: int| 0 <= q < 64 ==> (#[trigger] bit(self.mask_bb(true, sq as int), q) <==> relevant(true, sq as int, q)),
            forall|q: int| 0 <= q < 64 ==> (#[trigger] bit(r, q) <==> slider_attack(true, sq as int, q, occ)),
            r == attacks_for(true, sq as int, occ),
    {
        proof {
            use_type_invariant(self);
            crate::moving::magics::lemma_shifts_in_range();
        }
        let bb = occ & self.rook_masks[sq];
        let idx = index_magic(bb, ROOK_MAGICS[sq], ROOK_SHIFTS[sq]);
        proof {
            let t = self.rook_lookup@.map_values(|row: Vec<u64>| row@);
            let k = self.rook_keys@.map_values(|row: Vec<u64>| row@);
            assert(t[sq as int] == self.rook_lookup@[sq as int]@);
            assert(k[sq as int] == self.rook_keys@[sq as int]@);
            assert(t[sq as int].len() == table_len(true, sq as int));
            assert(k[sq as int].len() == table_len(true, sq as int));
            lemma_attacks_for_bits(true, sq as int, bb);
        }
        let r = if self.rook_keys[sq][idx] == bb {
            proof {
                lemma_mask_misses_square(true, sq as int, self.mask_bb(true, sq as int), occ);
                let k = self.rook_keys@.map_values(|row: Vec<u64>| row@);
                assert(entry_ok(true, sq as int, k[sq as int][idx as int], self.rook_lookup@[sq as int]@[idx as int]));
            }
            self.rook_lookup[sq][idx]
        } else {
            let r = get_rook_attacks_from_occ(bb, sq);
            proof {
                lemma_attacks_for(true, sq as int, bb, r);
            }
            r
        };
        proof {
            assert forall|q: int| 0 <= q < 64 implies (#[trigger] bit(r, q) <==> slider_attack(true, sq as int, q, occ)) by {
                crate::moving::magics::law_relevant_blockers_suffice(true, sq as int, q, occ, self.mask_bb(true, sq as int));
            }
            lemma_attacks_for(true, sq as int, occ, r);
        }
        r
    }

    /// The bishop attacks from `sq` for the blockers `occ`: read from the magic
    /// table when its entry was filled for these blockers, else walked along the rays.
    pub fn get_bishop_attacks(&self, sq: usize, occ: u64) -> (r: u64)
        requires
            sq < 64,
        ensures
            r == self.slider_bb(false, sq as int, occ),
            forall|q: int| 0 <= q < 64 ==> (#[trigger] bit(r, q) <==> slider_attack(false, sq as int, q, occ
                & self.mask_bb(false, sq as int))),
            forall|q: int| 0 <= q < 64 ==> (#[trigger] bit(self.mask_bb(false, sq as int), q) <==> relevant(false, sq as int, q)),
            forall|q: int| 0 <= q < 64 ==> (#[trigger] bit(r, q) <==> slider_attack(false, sq as int, q, occ)),
            r == attacks_for(false, sq as int, occ),
    {
        proof {
            use_type_invariant(self);
            crate::moving::magics::lemma_shifts_in_range();
        }
        let bb = occ & self.bishop_masks[sq];
        let idx = index_magic(bb, BISHOP_MAGICS[sq], BISHOP_SHIFTS[sq]);
        proof {
            let t = self.bishop_lookup@.map_values(|row: Vec<u64>| row@);
            let k = self.bishop_keys@.map_values(|row: Vec<u64>| row@);
            assert(t[sq as int] == self.bishop_lookup@[sq as int]@);
            assert(k[sq as int] == self.bishop_keys@[sq as int]@);
            assert(t[sq as int].len() == table_len(false, sq as int));
            assert(k[sq as int].len() == table_len(false, sq as int));
            lemma_attacks_for_bits(false, sq as int, bb);
        }
        let r = if self.bishop_keys[sq][idx] == bb {
            proof {
                lemma_mask_misses_square(false, sq as int, self.mask_bb(false, sq as int), occ);
                let k = self.bishop_keys@.map_values(|row: Vec<u64>| row@);
                assert(entry_ok(false, sq as int, k[sq as int][idx as int], self.bishop_lookup@[sq as int]@[idx as int]));
            }
            self.bishop_lookup[sq][idx]
        } else {
            let r = get_bishop_attacks_from_occ(bb, sq);
            proof {
                lemma_attacks_for(false, sq as int, bb, r);
            }
            r
        };
        proof {
            assert forall|q: int| 0 <= q < 64 implies (#[trigger] bit(r, q) <==> slider_attack(false, sq as int, q, occ)) by {
                crate::moving::magics::law_relevant_blockers_suffice(false, sq as int, q, occ, self.mask_bb(false, sq as int));
            }
            lemma_attacks_for(false, sq as int, occ, r);
        }
        r
    }

    /// Squares strictly between `sq1` and `sq2` (see `between_rel`).
    pub fn get_bb_between(&self, sq1: usize, sq2: usize) -> (r: u64)
        requires
            sq1 < 64,
            sq2 < 64,
        ensures
            r == self.between_bb(sq1 as int, sq2 as int),
            forall|q: int| 0 <= q < 64 ==> (#[trigger] bit(r, q) <==> between_rel(sq1 as int, sq2 as int, q)),
    {
        proof {
            use_type_invariant(self);
        }
        self.bb_between[sq1][sq2]
    }
}

/// The squares the pawns `pawns` of `color` attack.
pub open spec fn pawn_attacks_spec(pawns: u64, color: int) -> u64 {
    if color == WHITE {
        ((pawns & !crate::constants::FILEA) << 7u64) | ((pawns & !crate::constants::FILEH) << 9u64)
    } else {
        ((pawns & !crate::constants::FILEA) >> 9u64) | ((pawns & !crate::constants::FILEH) >> 7u64)
    }
}

/// The squares the pawns `pawns` of `color` attack.
pub fn pawn_attacks_all(pawns: u64, color: usize) -> (r: u64)
    ensures
        r == pawn_attacks_spec(pawns, color as int),
{
    if color == WHITE {
        ((pawns & !crate::constants::FILEA) << 7) | ((pawns & !crate::constants::FILEH) << 9)
    } else {
        ((pawns & !crate::constants::FILEA) >> 9) | ((pawns & !crate::constants::FILEH) >> 7)
    }
}


/// Blockers masked by the relevant squares of `sq` never fill the whole
/// board: the square of the slider itself is not relevant.
proof fn lemma_mask_misses_square(rook: bool, sq: int, mask: u64, occ: u64)
    requires
        0 <= sq < 64,
        forall|q: int| 0 <= q < 64 ==> (#[trigger] bit(mask, q) <==> relevant(rook, sq, q)),
    ensures
        occ & mask != NO_KEY,
{
    assert(!relevant(rook, sq, sq));
    crate::bits::lemma_bits(occ, mask, sq);
    crate::bits::lemma_bits(0, 0, sq);
}

/// Every table of a move generator holds exactly what its name says: knight,
/// king and pawn attacks, the squares between two squares, and the relevant
/// squares of the sliders.
pub open spec fn tables_exact(mg: MoveGenerator) -> bool {
    &&& forall|sq: int, q: int|
        0 <= sq < 64 && 0 <= q < 64 ==> (#[trigger] bit(mg.knight_bb(sq), q) <==> knight_rel(sq, q))
    &&& forall|sq: int, q: int| 0 <= sq < 64 && 0 <= q < 64 ==> (#[trigger] bit(mg.king_bb(sq), q) <==> king_rel(sq, q))
    &&& forall|c: int, sq: int, q: int|
        0 <= c < 2 && 0 <= sq < 64 && 0 <= q < 64 ==> (#[trigger] bit(mg.pawn_to_bb(c, sq), q) <==> pawn_attacks_to_rel(
            c,
            sq,
            q,
        ))
    &&& forall|i: int, j: int, q: int|
        0 <= i < 64 && 0 <= j < 64 && 0 <= q < 64 ==> (#[trigger] bit(mg.between_bb(i, j), q) <==> between_rel(i, j, q))
    &&& forall|rook: bool, sq: int, q: int|
        0 <= sq < 64 && 0 <= q < 64 ==> (#[trigger] bit(mg.mask_bb(rook, sq), q) <==> relevant(rook, sq, q))
}

/// With exact tables, a generator's slider attacks are the full ray walk of
/// the whole occupancy: the squares its masks leave out never matter.
pub proof fn law_slider_attacks_full(mg: MoveGenerator, rook: bool, sq: int, occ: u64, q: int)
    requires
        tables_exact(mg),
        0 <= sq < 64,
        0 <= q < 64,
    ensures
        bit(mg.slider_bb(rook, sq, occ), q) <==> slider_attack(rook, sq, q, occ),
{
    lemma_slider_bits(mg);
    crate::moving::magics::law_relevant_blockers_suffice(rook, sq, q, occ, mg.mask_bb(rook, sq));
}

/// A well-formed move generator has exact tables.
pub proof fn lemma_wf_exact(mg: MoveGenerator)
    requires
        mg.wf(),
    ensures
        tables_exact(mg),
{
    assert forall|c: int, sq: int, q: int|
        0 <= c < 2 && 0 <= sq < 64 && 0 <= q < 64 implies (#[trigger] bit(mg.pawn_to_bb(c, sq), q) <==> pawn_attacks_to_rel(
        c,
        sq,
        q,
    )) by {
        if c == 0 {
            assert(bit(mg.pawn_attacks_to@[0]@[sq], q) <==> pawn_attacks_to_rel(0, sq, q));
        } else {
            assert(bit(mg.pawn_attacks_to@[1]@[sq], q) <==> pawn_attacks_to_rel(1, sq, q));
        }
    }
    assert forall|rook: bool, sq: int, q: int| 0 <= sq < 64 && 0 <= q < 64 implies (#[trigger] bit(
        mg.mask_bb(rook, sq),
        q,
    ) <==> relevant(rook, sq, q)) by {
        if rook {
            assert(bit(mg.rook_masks@[sq], q) <==> relevant(true, sq, q));
        } else {
            assert(bit(mg.bishop_masks@[sq], q) <==> relevant(false, sq, q));
        }
    }
}

/// The slider attacks of any move generator are the attacks along the rays
/// for the blockers on the relevant squares.
pub proof fn lemma_slider_bits(mg: MoveGenerator)
    ensures
        forall|rook: bool, sq: int, occ: u64, q: int|
            0 <= sq < 64 && 0 <= q < 64 ==> (#[trigger] bit(mg.slider_bb(rook, sq, occ), q) <==> slider_attack(
                rook,
                sq,
                q,
                occ & mg.mask_bb(rook, sq),
            )),
{
    assert forall|rook: bool, sq: int, occ: u64, q: int| 0 <= sq < 64 && 0 <= q < 64 implies (#[trigger] bit(
        mg.slider_bb(rook, sq, occ),
        q,
    ) <==> slider_attack(rook, sq, q, occ & mg.mask_bb(rook, sq))) by {
        lemma_attacks_for_bits(rook, sq, occ & mg.mask_bb(rook, sq));
    }
}
} // verus!
