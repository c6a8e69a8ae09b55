use vstd::prelude::*;
use crate::constants::{PAWN, KNIGHT, BISHOP, ROOK, QUEEN, KING, WHITE};
use crate::bitboard_helpers::{isolate_lsb, lsb, popcount, flip_color, lemma_popcount_le_64, lemma_popcount_add_bit,
    lemma_lsb};
use crate::moving::mv::{Move, start_of, target_of, code_of};
use crate::moving::move_generation::MoveGenerator;
use crate::moving::move_making::ep_square;
use crate::position::board::{Board, Position};
use crate::position::piece_set::{Pieces, PieceSet, piece_at, pieces_wf, all_of};
use crate::moving::move_making::{move_fits, position_wf};
use crate::moving::move_list::MoveList;
use crate::moving::generation::{generate_moves, legal_moves};
use crate::moving::legality::move_legal;
use crate::moving::soundness::{position_sound, lemma_wf_sound};
use crate::evaluation::piece_values::midgame_values;
use crate::search::history::HistoryTable;
use crate::search::killers::KillerTable;

verus! {

/// The values static exchange evaluation counts pieces by (the king's is
/// large on purpose): pawn, knight, bishop, rook, queen, king.
pub open spec fn see_val(pt: int) -> int {
    if pt == 0 {
        100
    } else if pt == 1 {
        300
    } else if pt == 2 {
        300
    } else if pt == 3 {
        500
    } else if pt == 4 {
        900
    } else {
        20000
    }
}

fn see_piece_val(pt: usize) -> (r: i32)
    requires
        pt < 6,
    ensures
        r == see_val(pt as int),
{
    if pt == PAWN {
        100
    } else if pt == KNIGHT {
        300
    } else if pt == BISHOP {
        300
    } else if pt == ROOK {
        500
    } else if pt == QUEEN {
        900
    } else {
        20_000
    }
}

/// `a` holds no square outside `b`.
pub open spec fn within(a: u64, b: u64) -> bool {
    a & !b == 0
}

/// The squares of the pieces of kind `k` of a set, by the kinds SEE uses
/// (a queen counts as a queen only).
pub open spec fn kind_squares(p: Pieces, k: int) -> u64 {
    if k == 0 {
        p.pawns
    } else if k == 1 {
        p.knights
    } else if k == 2 {
        p.diagonals & !p.orthogonals
    } else if k == 3 {
        p.orthogonals & !p.diagonals
    } else if k == 4 {
        p.diagonals & p.orthogonals
    } else {
        p.king
    }
}

/// The attackers of `sq` that do not slide: pawns, knights and king of
/// `color`, without the squares in `used`.
pub open spec fn static_att(mg: MoveGenerator, p: Pieces, sq: int, color: int, used: u64, att: Seq<u64>) -> Seq<u64> {
    att.update(PAWN as int, p.pawns & mg.pawn_to_bb(1 - color, sq) & !used).update(
        KNIGHT as int,
        p.knights & mg.knight_bb(sq) & !used,
    ).update(KING as int, p.king & mg.king_bb(sq) & !used)
}

/// The sliding attackers of `sq` through the blockers `occ`, without the
/// squares in `used`.
pub open spec fn slider_att(mg: MoveGenerator, att: Seq<u64>, sq: int, occ: u64, p: Pieces, used: u64) -> Seq<u64> {
    let ra = mg.slider_bb(true, sq, occ);
    let ba = mg.slider_bb(false, sq, occ);
    att.update(BISHOP as int, (p.diagonals & !p.orthogonals) & ba & !used).update(
        ROOK as int,
        (p.orthogonals & !p.diagonals) & ra & !used,
    ).update(QUEEN as int, (p.diagonals & p.orthogonals) & (ra | ba) & !used)
}

/// The least valuable attacker kind left and the attacker sets after the
/// sliders were looked at again (pawns and knights first, without a new look).
pub open spec fn lva(mg: MoveGenerator, att: Seq<u64>, sq: int, occ: u64, p: Pieces, used: u64) -> (Option<int>, Seq<u64>) {
    if att[PAWN as int] != 0 {
        (Some(PAWN as int), att)
    } else if att[KNIGHT as int] != 0 {
        (Some(KNIGHT as int), att)
    } else {
        let a = slider_att(mg, att, sq, occ, p, used);
        if a[BISHOP as int] != 0 {
            (Some(BISHOP as int), a)
        } else if a[ROOK as int] != 0 {
            (Some(ROOK as int), a)
        } else if a[QUEEN as int] != 0 {
            (Some(QUEEN as int), a)
        } else if a[KING as int] != 0 {
            (Some(KING as int), a)
        } else {
            (None, a)
        }
    }
}

/// The lowest square of a bitboard as a one-bit bitboard.
pub open spec fn lowest(x: u64) -> u64 {
    if x == 0 {
        0
    } else {
        1u64 << (lsb(x) as u64)
    }
}

/// The gains of the capture sequence on `sq`: `gains` so far, the piece that
/// took last of kind `pt`, side `on` to capture next with the attackers
/// `att0` (black) and `att1` (white), the squares `used` and the blockers
/// `occ`. A step stops when both sides would lose by going on, or when the
/// side to capture has no attacker left.
pub open spec fn swap_gains(
    mg: MoveGenerator,
    b: Board,
    sq: int,
    att0: Seq<u64>,
    att1: Seq<u64>,
    on: int,
    used: u64,
    occ: u64,
    pt: int,
    gains: Seq<int>,
) -> Seq<int>
    decreases u64::MAX - used,
{
    let g = gains.push(see_val(pt) - gains.last());
    if -gains.last() < 0 && g.last() < 0 {
        g
    } else {
        let att = if on == 0 { att0 } else { att1 };
        let (res, a2) = lva(mg, att, sq, occ, b.pieces(on), used);
        match res {
            None => g,
            Some(p) => {
                let bb = lowest(a2[p]);
                let a3 = a2.update(p, a2[p] & !bb);
                let used2 = used | bb;
                if used2 <= used {
                    g
                } else if on == 0 {
                    swap_gains(mg, b, sq, a3, att1, 1, used2, occ & !bb, p, g)
                } else {
                    swap_gains(mg, b, sq, att0, a3, 0, used2, occ & !bb, p, g)
                }
            },
        }
    }
}

/// The gains folded from the last but one back to the first: each side takes
/// the better of stopping and going on.
pub open spec fn fold_from(g: Seq<int>, k: int) -> int
    decreases g.len() - k,
{
    if k >= g.len() - 2 {
        g[k]
    } else {
        let rest = fold_from(g, k + 1);
        if g[k] <= -rest { g[k] } else { -rest }
    }
}

/// The gains of the exchange that the capture `mv` by `color` starts.
pub open spec fn see_gains(mg: MoveGenerator, b: Board, mv: u16, color: int) -> Seq<int> {
    let own = b.pieces(color);
    let other = b.pieces(1 - color);
    let t = target_of(mv) as int;
    let s = start_of(mv) as int;
    let pt = piece_at(own, s) as int;
    let victim = if code_of(mv) == 5 { PAWN as int } else { piece_at(other, t) as int };
    let used = 1u64 << (s as u64);
    let occ0 = b.occ() & !used;
    let occ = if code_of(mv) == 5 { occ0 & !(1u64 << (ep_square(color, t) as u64)) } else { occ0 };
    let z = seq![0u64, 0u64, 0u64, 0u64, 0u64, 0u64];
    let ac = static_att(mg, own, t, color, used, z);
    let ao = static_att(mg, other, t, 1 - color, used, z);
    let (att0, att1) = if color == 0 { (ac, ao) } else { (ao, ac) };
    swap_gains(mg, b, t, att0, att1, 1 - color, used, occ, pt, seq![see_val(victim)])
}

/// The static exchange evaluation of the capture `mv` by `color`: what the
/// capturing side wins on the target square when both sides recapture with
/// their least valuable attacker and may stop at any time.
pub open spec fn see_value(mg: MoveGenerator, b: Board, mv: u16, color: int) -> int {
    fold_from(see_gains(mg, b, mv, color), 0)
}

/// The attacker sets of one side fit its pieces and miss the used squares.
pub open spec fn row_ok(att: Seq<u64>, p: Pieces, used: u64) -> bool {
    &&& att.len() == 6
    &&& forall|k: int| 0 <= k < 6 ==> within(#[trigger] att[k], kind_squares(p, k))
    &&& forall|k: int| 0 <= k < 6 ==> #[trigger] att[k] & used == 0
}

/// What static exchange evaluation needs of the capture `mv` by `color`: well
/// formed piece sets that share no square, a piece on the start square and
/// a piece to take (or a pawn square on the board for en passant).
pub open spec fn see_ready(b: Board, mv: u16, color: int) -> bool {
    let own = b.pieces(color);
    let other = b.pieces(1 - color);
    &&& 0 <= color < 2
    &&& pieces_wf(b.pieces(0))
    &&& pieces_wf(b.pieces(1))
    &&& all_of(b.pieces(0)) & all_of(b.pieces(1)) == 0
    &&& piece_at(own, start_of(mv) as int) != crate::constants::NONE
    &&& code_of(mv) == 5 ==> 0 <= ep_square(color, target_of(mv) as int) < 64
    &&& code_of(mv) != 5 ==> piece_at(other, target_of(mv) as int) != crate::constants::NONE
}

/// The kinds of a well-formed set do not share squares, and all lie in the union.
proof fn lemma_kinds_apart(p: Pieces, i: int, j: int)
    requires
        pieces_wf(p),
        0 <= i < 6,
        0 <= j < 6,
    ensures
        i != j ==> kind_squares(p, i) & kind_squares(p, j) == 0,
        within(kind_squares(p, i), all_of(p)),
{
    let (pw, r, d, n, k) = (p.pawns, p.orthogonals, p.diagonals, p.knights, p.king);
    assert(pw & (r | d | n | k) == 0 && (r | d) & (n | k) == 0 && n & k == 0 ==> {
        &&& pw & n == 0 && pw & (d & !r) == 0 && pw & (r & !d) == 0 && pw & (d & r) == 0 && pw & k == 0
        &&& n & pw == 0 && n & (d & !r) == 0 && n & (r & !d) == 0 && n & (d & r) == 0 && n & k == 0
        &&& (d & !r) & pw == 0 && (d & !r) & n == 0 && (d & !r) & (r & !d) == 0 && (d & !r) & (d & r) == 0
            && (d & !r) & k == 0
        &&& (r & !d) & pw == 0 && (r & !d) & n == 0 && (r & !d) & (d & !r) == 0 && (r & !d) & (d & r) == 0
            && (r & !d) & k == 0
        &&& (d & r) & pw == 0 && (d & r) & n == 0 && (d & r) & (d & !r) == 0 && (d & r) & (r & !d) == 0
            && (d & r) & k == 0
        &&& k & pw == 0 && k & n == 0 && k & (d & !r) == 0 && k & (r & !d) == 0 && k & (d & r) == 0
    }) by (bit_vector);
    let all = pw | r | d | n | k;
    assert(pw & !all == 0 && n & !all == 0 && (d & !r) & !all == 0 && (r & !d) & !all == 0 && (d & r) & !all
        == 0 && k & !all == 0) by (bit_vector)
        requires
            all == pw | r | d | n | k,
    ;
}

/// Taking a one-bit set out of one attacker set keeps the other sets clear
/// of it when their pieces lie apart.
proof fn lemma_take_apart(x: u64, sx: u64, y: u64, sy: u64, bb: u64, used: u64)
    by (bit_vector)
    requires
        within(x, sx),
        within(y, sy),
        sx & sy == 0,
        within(bb, x),
        y & used == 0,
    ensures
        y & (used | bb) == 0,
{
}

proof fn lemma_take_self(x: u64, bb: u64, used: u64)
    by (bit_vector)
    requires
        x & used == 0,
    ensures
        (x & !bb) & (used | bb) == 0,
        x != 0 ==> x & !(x & !((x - 1) as u64)) == x & ((x - 1) as u64),
{
}

proof fn lemma_zero(x: u64, used: u64)
    by (bit_vector)
    ensures
        within(0u64, x),
        0u64 & used == 0,
{
}

proof fn lemma_sub_trans(a: u64, b: u64, c: u64)
    by (bit_vector)
    requires
        within(a, b),
        within(b, c),
    ensures
        within(a, c),
{
}

proof fn lemma_masked(a: u64, x: u64, used: u64)
    by (bit_vector)
    ensures
        within(a & x & !used, a),
        (a & x & !used) & used == 0,
        within(a & !used, a),
{
}

/// The lowest bit of a nonempty set lies in it, misses the used squares when
/// the set does, and adds one to the count of the used squares.
proof fn lemma_lowest(x: u64, used: u64)
    requires
        x != 0,
        x & used == 0,
    ensures
        within(lowest(x), x),
        lowest(x) & used == 0,
        (used | lowest(x)) > used,
        popcount(used | lowest(x)) == popcount(used) + 1,
        within(x & !lowest(x), x),
{
    lemma_lsb(x);
    let t = lsb(x) as u64;
    let bb = 1u64 << t;
    assert((x >> t) & 1 == 1) by {
        assert(crate::constants::bit(x, lsb(x)));
    }
    assert(within(bb, x) && bb & used == 0 && used & bb == 0 && (used | bb) > used && within(x & !bb, x))
        by (bit_vector)
        requires
            t < 64,
            (x >> t) & 1 == 1,
            bb == 1u64 << t,
            x & used == 0,
    ;
    lemma_popcount_add_bit(used, t);
}


/// The gains as integers.
pub open spec fn ints(g: Seq<i32>) -> Seq<int> {
    g.map_values(|x: i32| x as int)
}

/// The result of `lva` keeps the attacker sets of a side in order, and the
/// kind it names has an attacker.
proof fn lemma_lva(mg: MoveGenerator, att: Seq<u64>, sq: int, occ: u64, p: Pieces, used: u64)
    requires
        row_ok(att, p, used),
    ensures
        row_ok(lva(mg, att, sq, occ, p, used).1, p, used),
        lva(mg, att, sq, occ, p, used).0 matches Some(k) ==> 0 <= k < 6 && lva(mg, att, sq, occ, p, used).1[k] != 0,
{
    let ra = mg.slider_bb(true, sq, occ);
    let ba = mg.slider_bb(false, sq, occ);
    lemma_masked(p.diagonals & !p.orthogonals, ba, used);
    lemma_masked(p.orthogonals & !p.diagonals, ra, used);
    lemma_masked(p.diagonals & p.orthogonals, ra | ba, used);
    let a = slider_att(mg, att, sq, occ, p, used);
    assert forall|k: int| 0 <= k < 6 implies within(#[trigger] a[k], kind_squares(p, k)) && a[k] & used == 0 by {
        if k != 2 && k != 3 && k != 4 {
            assert(a[k] == att[k]);
        }
    }
}

/// Taking the lowest attacker of kind `k` from the side `on` keeps the
/// attacker sets of both sides in order for the grown set of used squares.
proof fn lemma_take(a: Seq<u64>, pa: Pieces, other: Seq<u64>, po: Pieces, used: u64, k: int)
    requires
        row_ok(a, pa, used),
        row_ok(other, po, used),
        pieces_wf(pa),
        pieces_wf(po),
        all_of(pa) & all_of(po) == 0,
        0 <= k < 6,
        a[k] != 0,
    ensures
        row_ok(a.update(k, a[k] & !lowest(a[k])), pa, used | lowest(a[k])),
        row_ok(other, po, used | lowest(a[k])),
{
    let x = a[k];
    let bb = lowest(x);
    lemma_lowest(x, used);
    let a3 = a.update(k, x & !bb);
    assert forall|j: int| 0 <= j < 6 implies within(#[trigger] a3[j], kind_squares(pa, j)) && a3[j] & (used | bb)
        == 0 by {
        lemma_kinds_apart(pa, k, j);
        if j == k {
            lemma_take_self(x, bb, used);
            lemma_sub_trans(x & !bb, x, kind_squares(pa, k));
        } else {
            lemma_take_apart(x, kind_squares(pa, k), a[j], kind_squares(pa, j), bb, used);
        }
    }
    assert forall|j: int| 0 <= j < 6 implies #[trigger] other[j] & (used | bb) == 0 by {
        lemma_kinds_apart(pa, k, k);
        lemma_kinds_apart(po, j, j);
        lemma_sub_trans(x, kind_squares(pa, k), all_of(pa));
        lemma_sub_trans(other[j], kind_squares(po, j), all_of(po));
        lemma_take_apart(x, all_of(pa), other[j], all_of(po), bb, used);
    }
}

fn find_static_attackers(
    attackers: &mut Vec<u64>,
    pieces: &PieceSet,
    sq: usize,
    color: usize,
    used: u64,
    mg: &MoveGenerator,
)
    requires
        old(attackers)@.len() == 6,
        sq < 64,
        color < 2,
    ensures
        final(attackers)@ == static_att(*mg, pieces@, sq as int, color as int, used, old(attackers)@),
{
    let pawns = pieces.get_pawns();
    let pawn_attacks = mg.get_pawn_attacks(sq, flip_color(color));
    let pawn_attackers = pawns & pawn_attacks & !used;
    attackers.set(PAWN, pawn_attackers);
    let knights = pieces.get_knights();
    let knight_attacks = mg.get_knight_attacks(sq);
    let knight_attackers = knights & knight_attacks & !used;
    attackers.set(KNIGHT, knight_attackers);
    let king = pieces.get_king();
    let king_attacks = mg.get_king_attacks(sq);
    let king_attackers = king & king_attacks & !used;
    attackers.set(KING, king_attackers);
}

fn update_slider_attacks(
    attackers: &mut Vec<u64>,
    sq: usize,
    occ: u64,
    pieces: &PieceSet,
    used: u64,
    mg: &MoveGenerator,
)
    requires
        old(attackers)@.len() == 6,
        sq < 64,
    ensures
        final(attackers)@ == slider_att(*mg, old(attackers)@, sq as int, occ, pieces@, used),
{
    let rook_attacks = mg.get_rook_attacks(sq, occ);
    let bishop_attacks = mg.get_bishop_attacks(sq, occ);
    let bishop_attackers = pieces.get_bishops() & bishop_attacks & !used;
    attackers.set(BISHOP, bishop_attackers);
    let rook_attackers = pieces.get_rooks() & rook_attacks & !used;
    attackers.set(ROOK, rook_attackers);
    let queen_attackers = pieces.get_queens() & (rook_attacks | bishop_attacks) & !used;
    attackers.set(QUEEN, queen_attackers);
}

fn get_lva(
    attackers: &mut Vec<u64>,
    sq: usize,
    occ: u64,
    pieces: &PieceSet,
    used: u64,
    mg: &MoveGenerator,
) -> (r: Option<usize>)
    requires
        old(attackers)@.len() == 6,
        sq < 64,
    ensures
        final(attackers)@ == lva(*mg, old(attackers)@, sq as int, occ, pieces@, used).1,
        match r {
            Some(k) => lva(*mg, old(attackers)@, sq as int, occ, pieces@, used).0 == Some(k as int),
            None => lva(*mg, old(attackers)@, sq as int, occ, pieces@, used).0 is None,
        },
{
    if attackers[PAWN] != 0 {
        return Some(PAWN);
    }
    if attackers[KNIGHT] != 0 {
        return Some(KNIGHT);
    }
    update_slider_attacks(attackers, sq, occ, pieces, used, mg);
    if attackers[BISHOP] != 0 {
        return Some(BISHOP);
    }
    if attackers[ROOK] != 0 {
        return Some(ROOK);
    }
    if attackers[QUEEN] != 0 {
        return Some(QUEEN);
    }
    if attackers[KING] != 0 {
        return Some(KING);
    }
    None
}

/// Static exchange evaluation of the capture `cap` by `color`: the material
/// the capturing side wins on the target square when both sides go on
/// taking with their least valuable attacker as long as it pays.
#[verifier::rlimit(40)]
fn see(board: &Board, cap: &Move, color: usize) -> (r: i32)
    requires
        see_ready(*board, cap@, color as int),
    ensures
        r == see_value(board.gen(), *board, cap@, color as int),
        -1_400_000 <= r <= 1_400_000,
{
    let mg = board.get_mg();
    let pieces = board.get_pieces(color);
    let enemy_pieces = board.get_pieces(flip_color(color));
    let target = cap.get_target_field() as usize;
    let start = cap.get_start_field() as usize;
    let mut piece_type = pieces.get_piece_at(start);
    let victim_type = if cap.is_en_passant() {
        PAWN
    } else {
        enemy_pieces.get_piece_at(target)
    };
    let mut gain: Vec<i32> = Vec::new();
    gain.push(see_piece_val(victim_type));
    let mut att0: Vec<u64> = vec![0u64, 0u64, 0u64, 0u64, 0u64, 0u64];
    let mut att1: Vec<u64> = vec![0u64, 0u64, 0u64, 0u64, 0u64, 0u64];
    let mut on_attack = flip_color(color);
    let mut used = cap.get_start_bb();
    let mut occ = board.get_occupancy() & !used;
    if cap.is_en_passant() {
        let captured_pawn_sq = if color == WHITE {
            target - 8
        } else {
            target + 8
        };
        occ = occ & !(1u64 << captured_pawn_sq);
    }
    if color == 0 {
        find_static_attackers(&mut att0, pieces, target, color, used, mg);
        find_static_attackers(&mut att1, board.get_pieces(on_attack), target, on_attack, used, mg);
    } else {
        find_static_attackers(&mut att1, pieces, target, color, used, mg);
        find_static_attackers(&mut att0, board.get_pieces(on_attack), target, on_attack, used, mg);
    }
    let ghost big_g = see_gains(board.gen(), *board, cap@, color as int);
    let ghost b = *board;
    proof {
        let z = seq![0u64, 0u64, 0u64, 0u64, 0u64, 0u64];
        assert(ints(gain@) =~= seq![see_val(victim_type as int)]);
        lemma_masked(b.pieces(0).pawns, mg.pawn_to_bb(1, target as int), used);
        lemma_masked(b.pieces(0).knights, mg.knight_bb(target as int), used);
        lemma_masked(b.pieces(0).king, mg.king_bb(target as int), used);
        lemma_masked(b.pieces(1).pawns, mg.pawn_to_bb(0, target as int), used);
        lemma_masked(b.pieces(1).knights, mg.knight_bb(target as int), used);
        lemma_masked(b.pieces(1).king, mg.king_bb(target as int), used);
        assert forall|k: int| 0 <= k < 6 implies within(#[trigger] att0@[k], kind_squares(b.pieces(0), k)) && att0@[k]
            & used == 0 by {
            if k != 0 && k != 1 && k != 5 {
                assert(att0@[k] == 0);
                lemma_zero(kind_squares(b.pieces(0), k), used);
            }
        }
        assert forall|k: int| 0 <= k < 6 implies within(#[trigger] att1@[k], kind_squares(b.pieces(1), k)) && att1@[k]
            & used == 0 by {
            if k != 0 && k != 1 && k != 5 {
                assert(att1@[k] == 0);
                lemma_zero(kind_squares(b.pieces(1), k), used);
            }
        }
        assert(0u64 & (1u64 << (start as u64)) == 0) by (bit_vector)
            requires
                start < 64,
        ;
        lemma_popcount_add_bit(0, start as u64);
        assert(0u64 | (1u64 << (start as u64)) == 1u64 << (start as u64)) by (bit_vector);
        lemma_popcount_le_64(used);
        assert(popcount(0) == 0);
    }
    loop
        invariant_except_break
            on_attack < 2,
            piece_type < 6,
            1 <= gain@.len() <= popcount(used),
            popcount(used) <= 64,
            forall|k: int| 0 <= k < gain@.len() ==> -20000 * (k + 1) <= #[trigger] gain@[k] <= 20000 * (k + 1),
            row_ok(att0@, b.pieces(0), used),
            row_ok(att1@, b.pieces(1), used),
            swap_gains(b.gen(), b, target as int, att0@, att1@, on_attack as int, used, occ, piece_type as int, ints(
                gain@,
            )) == big_g,
        invariant
            b == *board,
            *mg == b.gen(),
            see_ready(b, cap@, color as int),
            target < 64,
        ensures
            ints(gain@) == big_g,
            2 <= gain@.len() <= 65,
            forall|k: int| 0 <= k < gain@.len() ==> -1_400_000 <= #[trigger] gain@[k] <= 1_400_000,
        decreases u64::MAX - used,
    {
        let d = gain.len();
        let last = gain[d - 1];
        let ghost g0 = gain@;
        let ghost att0_0 = att0@;
        let ghost att1_0 = att1@;
        let ghost pt0 = piece_type as int;
        let ghost on0 = on_attack as int;
        let ghost occ0 = occ;
        let v = see_piece_val(piece_type) - last;
        gain.push(v);
        proof {
            assert(ints(gain@) =~= ints(g0).push(see_val(pt0) - ints(g0).last()));
            assert forall|k: int| 0 <= k < gain@.len() implies -20000 * (k + 1) <= #[trigger] gain@[k] <= 20000 * (
            k + 1) by {
                if k < g0.len() {
                    assert(gain@[k] == g0[k]);
                }
            }
            assert forall|k: int| 0 <= k < gain@.len() implies -1_400_000 <= #[trigger] gain@[k] <= 1_400_000 by {
                assert(-20000 * (k + 1) <= gain@[k] <= 20000 * (k + 1));
            }
        }
        if -last < 0 && v < 0 {
            break;
        }
        let lva_res = if on_attack == 0 {
            get_lva(&mut att0, target, occ, board.get_pieces(0), used, mg)
        } else {
            get_lva(&mut att1, target, occ, board.get_pieces(1), used, mg)
        };
        proof {
            if on0 == 0 {
                lemma_lva(b.gen(), att0_0, target as int, occ0, b.pieces(0), used);
            } else {
                lemma_lva(b.gen(), att1_0, target as int, occ0, b.pieces(1), used);
            }
        }
        match lva_res {
            None => {
                break;
            },
            Some(p) => {
                piece_type = p;
                let ghost used0 = used;
                let bb = if on_attack == 0 {
                    isolate_lsb(att0[p])
                } else {
                    isolate_lsb(att1[p])
                };
                proof {
                    if on0 == 0 {
                        lemma_take(att0@, b.pieces(0), att1@, b.pieces(1), used, p as int);
                        lemma_lowest(att0@[p as int], used);
                    } else {
                        let w0 = all_of(b.pieces(0));
                        let w1 = all_of(b.pieces(1));
                        assert(w1 & w0 == 0) by (bit_vector)
                            requires
                                w0 & w1 == 0,
                        ;
                        lemma_take(att1@, b.pieces(1), att0@, b.pieces(0), used, p as int);
                        lemma_lowest(att1@[p as int], used);
                    }
                }
                if on_attack == 0 {
                    let x = att0[p];
                    att0.set(p, x & !bb);
                } else {
                    let x = att1[p];
                    att1.set(p, x & !bb);
                }
                used = used | bb;
                occ = occ & !bb;
                on_attack = flip_color(on_attack);
                proof {
                    lemma_popcount_le_64(used);
                }
            },
        }
    }
    let mut d = gain.len() - 1;
    while d > 1
        invariant
            1 <= d <= gain@.len() - 1,
            gain@.len() == big_g.len(),
            2 <= big_g.len() <= 65,
            forall|j: int| 0 <= j < d - 1 ==> #[trigger] gain@[j] == big_g[j],
            gain@[d - 1] == fold_from(big_g, d - 1),
            forall|k: int| 0 <= k < gain@.len() ==> -1_400_000 <= #[trigger] gain@[k] <= 1_400_000,
        decreases d,
    {
        d -= 1;
        let a = gain[d - 1];
        let b = gain[d];
        let m = if -a >= b {
            -a
        } else {
            b
        };
        gain.set(d - 1, -m);
    }
    gain[0]
}

/// The kinds the move ordering sorts moves into.
#[derive(PartialEq, Eq, Structural, Clone, Copy, Debug)]
pub enum MoveKind {
    Promotion,
    WinningCapture,
    LosingCapture,
    EqualCapture,
    QuietMove,
    KillerMove,
}

/// A move with its kind and its score within the kind.
#[derive(Clone, Copy)]
pub struct ClassifiedMove {
    pub kind: MoveKind,
    pub score: i32,
    pub mv: Move,
}

/// A classified move as kind, score and packed move.
pub open spec fn cm_view(c: ClassifiedMove) -> (MoveKind, i32, u16) {
    (c.kind, c.score, c.mv@)
}

impl ClassifiedMove {
    fn new(kind: MoveKind, score: i32, mv: Move) -> (r: Self)
        ensures
            cm_view(r) == (kind, score, mv@),
    {
        ClassifiedMove { kind, score, mv }
    }
}

/// Whether `mv` is a killer of `ply` in `k`.
pub open spec fn killer_of(k: KillerTable, ply: i32, mv: u16) -> bool {
    0 <= ply < 100 && (k.firsts()[ply as int] == mv || k.seconds()[ply as int] == mv)
}

/// The class of a move: a promotion scored by the value of the new piece
/// (plus the exchange it starts when it also takes), a capture scored and
/// sorted by its exchange, a killer of the ply, or a quiet move scored by
/// its history.
pub open spec fn classify_spec(mg: MoveGenerator, b: Board, h: HistoryTable, k: KillerTable, ply: i32, mv: u16) -> (
    MoveKind,
    i32,
    u16,
) {
    if mv & 8 != 0 {
        let base = midgame_values()[(mv & 3) + 1];
        if mv & 4 != 0 {
            (MoveKind::Promotion, (base + see_value(mg, b, mv, b.us as int)) as i32, mv)
        } else {
            (MoveKind::Promotion, base, mv)
        }
    } else if mv & 4 != 0 {
        let sc = see_value(mg, b, mv, b.us as int);
        if sc > 0 {
            (MoveKind::WinningCapture, sc as i32, mv)
        } else if sc == 0 {
            (MoveKind::EqualCapture, 0, mv)
        } else {
            (MoveKind::LosingCapture, sc as i32, mv)
        }
    } else if killer_of(k, ply, mv) {
        (MoveKind::KillerMove, 0, mv)
    } else {
        (MoveKind::QuietMove, h.scores()[mv as int], mv)
    }
}

/// The pieces of a sound position and a fitting capture are what the
/// exchange evaluation needs.
proof fn lemma_fits_see(b: Board, mv: u16)
    requires
        position_sound(b@),
        move_fits(b@, mv),
        mv & 4 != 0,
    ensures
        see_ready(b, mv, b.us as int),
{
    let p = b@;
    let s = start_of(mv) as int;
    let t = target_of(mv) as int;
    crate::moving::mv::lemma_move_fields(mv);
    crate::position::piece_set::lemma_wf_square(p.side(p.us as int), s);
    crate::position::piece_set::lemma_wf_square(p.side(p.enemy as int), t);
    assert(b.pieces(b.us as int) == p.side(p.us as int));
    assert(b.pieces(1 - b.us) == p.side(p.enemy as int));
    let w = all_of(p.white);
    let k = all_of(p.black);
    assert(k & w == 0) by (bit_vector)
        requires
            w & k == 0,
    ;
}

fn classify_move(mv: Move, board: &Board, history: &HistoryTable, killers: &KillerTable, ply: i32) -> (r:
    ClassifiedMove)
    requires
        board.us < 2,
        mv@ & 4 != 0 ==> see_ready(*board, mv@, board.us as int),
        history.wf(),
        killers.wf(),
    ensures
        cm_view(r) == classify_spec(board.gen(), *board, *history, *killers, ply, mv@),
{
    if mv.is_promotion() {
        let values: [i32; 5] = [100, 300, 350, 455, 900];
        let piece = mv.get_promotion_piece();
        let mut score = values[piece];
        proof {
            assert(values@ == midgame_values());
        }
        if mv.is_capture() {
            score = score + see(board, &mv, board.us);
        }
        ClassifiedMove::new(MoveKind::Promotion, score, mv)
    } else if mv.is_capture() {
        let score = see(board, &mv, board.us);
        if score > 0 {
            ClassifiedMove::new(MoveKind::WinningCapture, score, mv)
        } else if score == 0 {
            ClassifiedMove::new(MoveKind::EqualCapture, score, mv)
        } else {
            ClassifiedMove::new(MoveKind::LosingCapture, score, mv)
        }
    } else if killers.is_killer(ply, &mv) {
        ClassifiedMove::new(MoveKind::KillerMove, 0, mv)
    } else {
        let hist_score = history.get_val(&mv);
        ClassifiedMove::new(MoveKind::QuietMove, hist_score, mv)
    }
}

/// The phases of the move ordering, in the order they are gone through.
#[derive(PartialEq, Eq, Structural, Clone, Copy, Debug)]
pub enum MoveOrderingPhase {
    PvNode,
    Generation,
    Promotions,
    WinningCaptures,
    KillerMoves,
    EqualCaptures,
    Quiet,
    LosingCaptures,
    Exhausted,
}

/// The place of a phase in the order.
pub open spec fn phase_index(ph: MoveOrderingPhase) -> int {
    match ph {
        MoveOrderingPhase::PvNode => 0,
        MoveOrderingPhase::Generation => 1,
        MoveOrderingPhase::Promotions => 2,
        MoveOrderingPhase::WinningCaptures => 3,
        MoveOrderingPhase::KillerMoves => 4,
        MoveOrderingPhase::EqualCaptures => 5,
        MoveOrderingPhase::Quiet => 6,
        MoveOrderingPhase::LosingCaptures => 7,
        MoveOrderingPhase::Exhausted => 8,
    }
}

/// The kind of moves a sorting phase hands out.
pub open spec fn phase_kind(ph: MoveOrderingPhase) -> MoveKind {
    match ph {
        MoveOrderingPhase::WinningCaptures => MoveKind::WinningCapture,
        MoveOrderingPhase::KillerMoves => MoveKind::KillerMove,
        MoveOrderingPhase::EqualCaptures => MoveKind::EqualCapture,
        MoveOrderingPhase::Quiet => MoveKind::QuietMove,
        MoveOrderingPhase::LosingCaptures => MoveKind::LosingCapture,
        _ => MoveKind::Promotion,
    }
}

/// The phase after a sorting phase.
pub open spec fn phase_after(ph: MoveOrderingPhase) -> MoveOrderingPhase {
    match ph {
        MoveOrderingPhase::Promotions => MoveOrderingPhase::WinningCaptures,
        MoveOrderingPhase::WinningCaptures => MoveOrderingPhase::KillerMoves,
        MoveOrderingPhase::KillerMoves => MoveOrderingPhase::EqualCaptures,
        MoveOrderingPhase::EqualCaptures => MoveOrderingPhase::Quiet,
        MoveOrderingPhase::Quiet => MoveOrderingPhase::LosingCaptures,
        _ => MoveOrderingPhase::Exhausted,
    }
}

/// The best move of kind `kind` among the first `k` moves: the first one
/// whose score beats every earlier one of its kind, starting from the
/// lowest score (index and score; the lowest score when there is none).
pub open spec fn scan(moves: Seq<(MoveKind, i32, u16)>, kind: MoveKind, k: int) -> (int, i32)
    decreases k,
{
    if k <= 0 {
        (0, i32::MIN)
    } else {
        let (bi, bs) = scan(moves, kind, k - 1);
        let m = moves[k - 1];
        if m.0 == kind && m.1 > bs {
            (k - 1, m.1)
        } else {
            (bi, bs)
        }
    }
}

/// The classified legal moves among the first `k` of `s`, leaving out the
/// move `pv` and any move that does not fit the position.
pub open spec fn ordered_list(
    mg: MoveGenerator,
    b: Board,
    h: HistoryTable,
    kt: KillerTable,
    ply: i32,
    pv: u16,
    s: Seq<u16>,
    k: int,
) -> Seq<(MoveKind, i32, u16)>
    decreases k,
{
    if k <= 0 {
        Seq::empty()
    } else {
        let rest = ordered_list(mg, b, h, kt, ply, pv, s, k - 1);
        let m = s[k - 1];
        if m != pv && move_fits(b@, m) {
            rest.push(classify_spec(mg, b, h, kt, ply, m))
        } else {
            rest
        }
    }
}

/// The best remaining move of the kind of a sorting phase, taken out (the
/// last move fills its place), or the next phase when none is left.
pub open spec fn take_best(moves: Seq<(MoveKind, i32, u16)>, ph: MoveOrderingPhase) -> (
    Option<u16>,
    Seq<(MoveKind, i32, u16)>,
    MoveOrderingPhase,
) {
    let (bi, bs) = scan(moves, phase_kind(ph), moves.len() as int);
    if bs != i32::MIN {
        (Some(moves[bi].2), moves.update(bi, moves.last()).drop_last(), ph)
    } else {
        (None, moves, phase_after(ph))
    }
}

/// What `next` gives and leaves: from the phase `ph` with the moves `moves`,
/// the hash move first (when it is set, fits and is legal), then the legal
/// moves by phase: promotions, winning captures, killers, equal captures,
/// quiet moves and losing captures, the best scored of each kind first.
pub open spec fn order_next(
    mg: MoveGenerator,
    b: Board,
    h: HistoryTable,
    kt: KillerTable,
    pv: u16,
    ply: i32,
    ph: MoveOrderingPhase,
    moves: Seq<(MoveKind, i32, u16)>,
) -> (Option<u16>, MoveOrderingPhase, Seq<(MoveKind, i32, u16)>)
    decreases 9 - phase_index(ph),
{
    match ph {
        MoveOrderingPhase::PvNode => {
            if pv != 0 && move_fits(b@, pv) && move_legal(mg, b, pv) {
                (Some(pv), MoveOrderingPhase::Generation, moves)
            } else {
                order_next(mg, b, h, kt, pv, ply, MoveOrderingPhase::Generation, moves)
            }
        },
        MoveOrderingPhase::Generation => {
            let s = legal_moves(mg, b);
            order_next(mg, b, h, kt, pv, ply, MoveOrderingPhase::Promotions, ordered_list(mg, b, h, kt, ply, pv, s, s.len() as int))
        },
        MoveOrderingPhase::Exhausted => (None, ph, moves),
        _ => {
            let (r, rest, ph2) = take_best(moves, ph);
            if r is Some {
                (r, ph, rest)
            } else {
                order_next(mg, b, h, kt, pv, ply, ph2, moves)
            }
        },
    }
}

fn pick_best(moves: &mut Vec<ClassifiedMove>, kind: MoveKind) -> (r: Option<Move>)
    ensures
        ({
            let v = old(moves)@.map_values(|c: ClassifiedMove| cm_view(c));
            let (bi, bs) = scan(v, kind, v.len() as int);
            &&& bs != i32::MIN ==> (r matches Some(m) && m@ == v[bi].2)
            &&& bs != i32::MIN ==> final(moves)@.map_values(|c: ClassifiedMove| cm_view(c)) == v.update(
                bi,
                v.last(),
            ).drop_last()
            &&& bs == i32::MIN ==> r is None && final(moves)@ == old(moves)@
        }),
{
    let ghost v = moves@.map_values(|c: ClassifiedMove| cm_view(c));
    let mut best_i: usize = 0;
    let mut best_score = i32::MIN;
    let mut i: usize = 0;
    while i < moves.len()
        invariant
            0 <= i <= moves@.len(),
            v == moves@.map_values(|c: ClassifiedMove| cm_view(c)),
            (best_i as int, best_score) == scan(v, kind, i as int),
            best_score != i32::MIN ==> best_i < i,
        decreases moves@.len() - i,
    {
        let mv = &moves[i];
        if mv.kind == kind && mv.score > best_score {
            best_score = mv.score;
            best_i = i;
        }
        i += 1;
    }
    if best_score != i32::MIN {
        let mv = moves.swap_remove(best_i);
        proof {
            assert(moves@.map_values(|c: ClassifiedMove| cm_view(c)) =~= v.update(best_i as int, v.last()).drop_last());
        }
        Some(mv.mv)
    } else {
        None
    }
}

/// What the move ordering needs of a position: sound, consistent, and its
/// tables in order.
pub open spec fn order_ready(b: Board, h: HistoryTable, kt: KillerTable) -> bool {
    &&& position_wf(b@, b.gen())
    &&& h.wf()
    &&& kt.wf()
}

/// Hands out the moves of a position in the order the search tries them:
/// the hash move, then the legal moves by phase.
pub struct OrderedMovesIter {
    moves: Vec<ClassifiedMove>,
    phase: MoveOrderingPhase,
    pv_node: Move,
    ply: i32,
}

impl OrderedMovesIter {
    /// The phase the ordering is in.
    pub closed spec fn phase(&self) -> MoveOrderingPhase {
        self.phase
    }

    /// The moves not handed out yet.
    pub closed spec fn remaining(&self) -> Seq<(MoveKind, i32, u16)> {
        self.moves@.map_values(|c: ClassifiedMove| cm_view(c))
    }

    /// The hash move it starts with.
    pub closed spec fn pv(&self) -> u16 {
        self.pv_node@
    }

    /// The ply the killers are read for.
    pub closed spec fn ply(&self) -> i32 {
        self.ply
    }

    /// An ordering that starts with the hash move `pv_node`.
    pub fn new(pv_node: Move, ply: i32) -> (r: Self)
        ensures
            r.phase() == MoveOrderingPhase::PvNode,
            r.remaining() == Seq::<(MoveKind, i32, u16)>::empty(),
            r.pv() == pv_node@,
            r.ply() == ply,
    {
        let r = OrderedMovesIter { moves: Vec::new(), phase: MoveOrderingPhase::PvNode, pv_node, ply };
        proof {
            assert(r.remaining() =~= Seq::<(MoveKind, i32, u16)>::empty());
        }
        r
    }

    #[verifier::rlimit(60)]
    fn classify_all(&mut self, board: &Board, hist: &HistoryTable, killers: &KillerTable)
        requires
            order_ready(*board, *hist, *killers),
        ensures
            final(self).pv() == old(self).pv(),
            final(self).ply() == old(self).ply(),
            final(self).phase() == old(self).phase(),
            final(self).remaining() == ordered_list(board.gen(), *board, *hist, *killers, old(self).ply(), old(
                self,
            ).pv(), legal_moves(board.gen(), *board), legal_moves(board.gen(), *board).len() as int),
    {
        proof {
            lemma_wf_sound(*board);
        }
        let mut mvs = MoveList::new();
        generate_moves(&mut mvs, board);
        let list = mvs.moves();
        let ghost s = legal_moves(board.gen(), *board);
        let mut classified: Vec<ClassifiedMove> = Vec::new();
        let mut i: usize = 0;
        while i < list.len()
            invariant
                order_ready(*board, *hist, *killers),
                position_sound(board@),
                board.us < 2,
                board.enemy < 2,
                list@.map_values(|m: Move| m@) == s,
                0 <= i <= list@.len(),
                classified@.map_values(|c: ClassifiedMove| cm_view(c)) == ordered_list(board.gen(), *board, *hist,
                    *killers, self.ply, self.pv_node@, s, i as int),
            decreases list@.len() - i,
        {
            let mv = list[i];
            proof {
                assert(s[i as int] == mv@);
                crate::moving::mv::lemma_move_eq(mv, self.pv_node);
            }
            if mv != self.pv_node && board.fits_move(&mv) {
                proof {
                    if mv@ & 4 != 0 {
                        lemma_fits_see(*board, mv@);
                    }
                }
                let c = classify_move(mv, board, hist, killers, self.ply);
                classified.push(c);
                proof {
                    assert(classified@.map_values(|c: ClassifiedMove| cm_view(c)) =~= ordered_list(board.gen(),
                        *board, *hist, *killers, self.ply, self.pv_node@, s, i as int).push(cm_view(c)));
                }
            }
            i += 1;
        }
        self.moves = classified;
    }

    /// The next move to try, or `None` when all were handed out.
    pub fn next(&mut self, board: &Board, hist: &HistoryTable, killers: &KillerTable) -> (r: Option<Move>)
        requires
            order_ready(*board, *hist, *killers),
        ensures
            ({
                let (m, ph, rest) = order_next(board.gen(), *board, *hist, *killers, old(self).pv(), old(self).ply(),
                    old(self).phase(), old(self).remaining());
                &&& match r {
                    Some(x) => m == Some(x@),
                    None => m is None,
                }
                &&& final(self).phase() == ph
                &&& final(self).remaining() == rest
                &&& final(self).pv() == old(self).pv()
                &&& final(self).ply() == old(self).ply()
            }),
    {
        let ghost target = order_next(board.gen(), *board, *hist, *killers, self.pv(), self.ply(), self.phase(),
            self.remaining());
        proof {
            lemma_wf_sound(*board);
        }
        loop
            invariant
                order_ready(*board, *hist, *killers),
                self.pv() == old(self).pv(),
                self.ply() == old(self).ply(),
                order_next(board.gen(), *board, *hist, *killers, self.pv(), self.ply(), self.phase(),
                    self.remaining()) == target,
                target == order_next(board.gen(), *board, *hist, *killers, old(self).pv(), old(self).ply(), old(
                    self,
                ).phase(), old(self).remaining()),
            decreases 9 - phase_index(self.phase),
        {
            proof {
                lemma_wf_sound(*board);
            }
            let ghost ph0 = self.phase;
            let ghost rem0 = self.remaining();
            match self.phase {
                MoveOrderingPhase::PvNode => {
                    proof {
                        assert(target == order_next(board.gen(), *board, *hist, *killers, self.pv(), self.ply(),
                            MoveOrderingPhase::PvNode, rem0));
                    }
                    self.phase = MoveOrderingPhase::Generation;
                    let pv = self.pv_node;
                    if !pv.is_null() && board.fits_move(&pv) {
                        proof {
                            crate::moving::mv::lemma_move_fields(pv@);
                        }
                        if board.get_mg().is_legal(&pv, board) {
                            return Some(pv);
                        }
                    }
                },
                MoveOrderingPhase::Generation => {
                    self.classify_all(board, hist, killers);
                    self.phase = MoveOrderingPhase::Promotions;
                },
                MoveOrderingPhase::Exhausted => {
                    proof {
                        assert(target == order_next(board.gen(), *board, *hist, *killers, self.pv(), self.ply(),
                            MoveOrderingPhase::Exhausted, rem0));
                    }
                    return None;
                },
                _ => {
                    let ph = self.phase;
                    let kind = kind_of_phase(ph);
                    match pick_best(&mut self.moves, kind) {
                        Some(m) => {
                            return Some(m);
                        },
                        None => {
                            self.phase = next_phase(ph);
                        },
                    }
                },
            }
        }
    }
}

fn kind_of_phase(ph: MoveOrderingPhase) -> (r: MoveKind)
    ensures
        r == phase_kind(ph),
{
    match ph {
        MoveOrderingPhase::WinningCaptures => MoveKind::WinningCapture,
        MoveOrderingPhase::KillerMoves => MoveKind::KillerMove,
        MoveOrderingPhase::EqualCaptures => MoveKind::EqualCapture,
        MoveOrderingPhase::Quiet => MoveKind::QuietMove,
        MoveOrderingPhase::LosingCaptures => MoveKind::LosingCapture,
        _ => MoveKind::Promotion,
    }
}

fn next_phase(ph: MoveOrderingPhase) -> (r: MoveOrderingPhase)
    ensures
        r == phase_after(ph),
{
    match ph {
        MoveOrderingPhase::Promotions => MoveOrderingPhase::WinningCaptures,
        MoveOrderingPhase::WinningCaptures => MoveOrderingPhase::KillerMoves,
        MoveOrderingPhase::KillerMoves => MoveOrderingPhase::EqualCaptures,
        MoveOrderingPhase::EqualCaptures => MoveOrderingPhase::Quiet,
        MoveOrderingPhase::Quiet => MoveOrderingPhase::LosingCaptures,
        _ => MoveOrderingPhase::Exhausted,
    }
}

/// The phases of the ordering of captures and promotions.
#[derive(PartialEq, Eq, Structural, Clone, Copy, Debug)]
pub enum QuiesceOrderingPhase {
    Promotions,
    WinningCaptures,
    EqualCaptures,
    LosingCaptures,
    Exhausted,
}

/// The place of a phase in the order.
pub open spec fn quiesce_index(ph: QuiesceOrderingPhase) -> int {
    match ph {
        QuiesceOrderingPhase::Promotions => 0,
        QuiesceOrderingPhase::WinningCaptures => 1,
        QuiesceOrderingPhase::EqualCaptures => 2,
        QuiesceOrderingPhase::LosingCaptures => 3,
        QuiesceOrderingPhase::Exhausted => 4,
    }
}

/// The kind of moves a phase hands out.
pub open spec fn quiesce_kind(ph: QuiesceOrderingPhase) -> MoveKind {
    match ph {
        QuiesceOrderingPhase::WinningCaptures => MoveKind::WinningCapture,
        QuiesceOrderingPhase::EqualCaptures => MoveKind::EqualCapture,
        QuiesceOrderingPhase::LosingCaptures => MoveKind::LosingCapture,
        _ => MoveKind::Promotion,
    }
}

/// The phase after a phase.
pub open spec fn quiesce_after(ph: QuiesceOrderingPhase) -> QuiesceOrderingPhase {
    match ph {
        QuiesceOrderingPhase::Promotions => QuiesceOrderingPhase::WinningCaptures,
        QuiesceOrderingPhase::WinningCaptures => QuiesceOrderingPhase::EqualCaptures,
        QuiesceOrderingPhase::EqualCaptures => QuiesceOrderingPhase::LosingCaptures,
        _ => QuiesceOrderingPhase::Exhausted,
    }
}

/// The classified promotions and captures among the first `k` moves of
/// `s`, leaving out any move that does not fit the position.
pub open spec fn quiesce_list(
    mg: MoveGenerator,
    b: Board,
    h: HistoryTable,
    kt: KillerTable,
    ply: i32,
    s: Seq<u16>,
    k: int,
) -> Seq<(MoveKind, i32, u16)>
    decreases k,
{
    if k <= 0 {
        Seq::empty()
    } else {
        let rest = quiesce_list(mg, b, h, kt, ply, s, k - 1);
        let m = s[k - 1];
        if (m & 8 != 0 || m & 4 != 0) && move_fits(b@, m) {
            rest.push(classify_spec(mg, b, h, kt, ply, m))
        } else {
            rest
        }
    }
}

/// What `next` of the capture ordering gives and leaves: the best scored
/// remaining move of the first phase from `ph` on that has one.
pub open spec fn quiesce_next(ph: QuiesceOrderingPhase, moves: Seq<(MoveKind, i32, u16)>) -> (
    Option<u16>,
    QuiesceOrderingPhase,
    Seq<(MoveKind, i32, u16)>,
)
    decreases 5 - quiesce_index(ph),
{
    if ph == QuiesceOrderingPhase::Exhausted {
        (None, ph, moves)
    } else {
        let (bi, bs) = scan(moves, quiesce_kind(ph), moves.len() as int);
        if bs != i32::MIN {
            (Some(moves[bi].2), ph, moves.update(bi, moves.last()).drop_last())
        } else {
            quiesce_next(quiesce_after(ph), moves)
        }
    }
}

/// Hands out the promotions and captures of a position, promotions first,
/// then winning, equal and losing captures, the best scored first.
pub struct QuiesceOrderedMovesIter {
    moves: Vec<ClassifiedMove>,
    phase: QuiesceOrderingPhase,
}

impl QuiesceOrderedMovesIter {
    /// The phase the ordering is in.
    pub closed spec fn phase(&self) -> QuiesceOrderingPhase {
        self.phase
    }

    /// The moves not handed out yet.
    pub closed spec fn remaining(&self) -> Seq<(MoveKind, i32, u16)> {
        self.moves@.map_values(|c: ClassifiedMove| cm_view(c))
    }

    /// The ordering of the promotions and captures of `moves`.
    #[verifier::rlimit(60)]
    pub fn new(moves: MoveList, board: &Board, history: &HistoryTable, killers: &KillerTable, ply: i32) -> (r: Self)
        requires
            order_ready(*board, *history, *killers),
        ensures
            r.phase() == QuiesceOrderingPhase::Promotions,
            r.remaining() == quiesce_list(board.gen(), *board, *history, *killers, ply, moves@, moves@.len() as int),
    {
        proof {
            lemma_wf_sound(*board);
        }
        let list = moves.moves();
        let ghost s = moves@;
        let mut move_kinds: Vec<ClassifiedMove> = Vec::new();
        let mut i: usize = 0;
        while i < list.len()
            invariant
                order_ready(*board, *history, *killers),
                position_sound(board@),
                board.us < 2,
                board.enemy < 2,
                list@.map_values(|m: Move| m@) == s,
                0 <= i <= list@.len(),
                move_kinds@.map_values(|c: ClassifiedMove| cm_view(c)) == quiesce_list(board.gen(), *board, *history,
                    *killers, ply, s, i as int),
            decreases list@.len() - i,
        {
            let mv = list[i];
            proof {
                assert(s[i as int] == mv@);
            }
            if (mv.is_promotion() || mv.is_capture()) && board.fits_move(&mv) {
                proof {
                    if mv@ & 4 != 0 {
                        lemma_fits_see(*board, mv@);
                    }
                }
                let c = classify_move(mv, board, history, killers, ply);
                move_kinds.push(c);
                proof {
                    assert(move_kinds@.map_values(|c: ClassifiedMove| cm_view(c)) =~= quiesce_list(board.gen(),
                        *board, *history, *killers, ply, s, i as int).push(cm_view(c)));
                }
            }
            i += 1;
        }
        let r = QuiesceOrderedMovesIter { moves: move_kinds, phase: QuiesceOrderingPhase::Promotions };
        r
    }

    /// The next capture or promotion to try, or `None` when all were handed out.
    pub fn next(&mut self) -> (r: Option<Move>)
        ensures
            ({
                let (m, ph, rest) = quiesce_next(old(self).phase(), old(self).remaining());
                &&& match r {
                    Some(x) => m == Some(x@),
                    None => m is None,
                }
                &&& final(self).phase() == ph
                &&& final(self).remaining() == rest
            }),
    {
        let ghost target = quiesce_next(self.phase(), self.remaining());
        loop
            invariant
                quiesce_next(self.phase(), self.remaining()) == target,
                target == quiesce_next(old(self).phase(), old(self).remaining()),
            decreases 5 - quiesce_index(self.phase),
        {
            let ph = self.phase;
            if ph == QuiesceOrderingPhase::Exhausted {
                return None;
            }
            let kind = match ph {
                QuiesceOrderingPhase::WinningCaptures => MoveKind::WinningCapture,
                QuiesceOrderingPhase::EqualCaptures => MoveKind::EqualCapture,
                QuiesceOrderingPhase::LosingCaptures => MoveKind::LosingCapture,
                _ => MoveKind::Promotion,
            };
            match pick_best(&mut self.moves, kind) {
                Some(m) => {
                    return Some(m);
                },
                None => {
                    self.phase = match ph {
                        QuiesceOrderingPhase::Promotions => QuiesceOrderingPhase::WinningCaptures,
                        QuiesceOrderingPhase::WinningCaptures => QuiesceOrderingPhase::EqualCaptures,
                        QuiesceOrderingPhase::EqualCaptures => QuiesceOrderingPhase::LosingCaptures,
                        _ => QuiesceOrderingPhase::Exhausted,
                    };
                },
            }
        }
    }
}

/// Every move the ordering hands out comes from the moves it holds, and it
/// hands out none once exhausted.
pub proof fn law_quiesce_next_from_remaining(ph: QuiesceOrderingPhase, moves: Seq<(MoveKind, i32, u16)>)
    ensures
        quiesce_next(ph, moves).0 matches Some(m) ==> exists|i: int| 0 <= i < moves.len() && moves[i].2 == m,
        quiesce_next(ph, moves).0 matches Some(m) ==> quiesce_next(ph, moves).2.len() + 1 == moves.len(),
        ph == QuiesceOrderingPhase::Exhausted ==> quiesce_next(ph, moves).0 is None,
    decreases 5 - quiesce_index(ph),
{
    if ph != QuiesceOrderingPhase::Exhausted {
        let (bi, bs) = scan(moves, quiesce_kind(ph), moves.len() as int);
        if bs != i32::MIN {
            lemma_scan_in_range(moves, quiesce_kind(ph), moves.len() as int);
        } else {
            law_quiesce_next_from_remaining(quiesce_after(ph), moves);
        }
    }
}

/// A found best index lies among the scanned moves and names a move of the kind.
pub proof fn lemma_scan_in_range(moves: Seq<(MoveKind, i32, u16)>, kind: MoveKind, k: int)
    requires
        0 <= k <= moves.len(),
    ensures
        scan(moves, kind, k).1 != i32::MIN ==> 0 <= scan(moves, kind, k).0 < k && moves[scan(moves, kind, k).0].0
            == kind && moves[scan(moves, kind, k).0].1 == scan(moves, kind, k).1,
    decreases k,
{
    if k > 0 {
        lemma_scan_in_range(moves, kind, k - 1);
    }
}

/// Every move of a list fits the position.
pub open spec fn all_fit(p: Position, moves: Seq<(MoveKind, i32, u16)>) -> bool {
    forall|i: int| 0 <= i < moves.len() ==> move_fits(p, #[trigger] moves[i].2)
}

/// Every move of a list is one of the legal moves of the position.
pub open spec fn all_legal(mg: MoveGenerator, b: Board, moves: Seq<(MoveKind, i32, u16)>) -> bool {
    forall|i: int| 0 <= i < moves.len() ==> legal_moves(mg, b).contains(#[trigger] moves[i].2)
}

/// Taking the best move of a kind out of a list keeps the rest from the list.
proof fn lemma_take_keeps(moves: Seq<(MoveKind, i32, u16)>, bi: int)
    requires
        0 <= bi < moves.len(),
    ensures
        forall|i: int| 0 <= i < moves.len() - 1 ==> exists|j: int| 0 <= j < moves.len() && #[trigger] moves.update(
            bi,
            moves.last(),
        ).drop_last()[i] == moves[j],
{
    assert forall|i: int| 0 <= i < moves.len() - 1 implies exists|j: int| 0 <= j < moves.len() && #[trigger] moves.update(
        bi,
        moves.last(),
    ).drop_last()[i] == moves[j] by {
        if i == bi {
            assert(moves.update(bi, moves.last()).drop_last()[i] == moves[moves.len() - 1]);
        } else {
            assert(moves.update(bi, moves.last()).drop_last()[i] == moves[i]);
        }
    }
}

proof fn lemma_ordered_list_fits(
    mg: MoveGenerator,
    b: Board,
    h: HistoryTable,
    kt: KillerTable,
    ply: i32,
    pv: u16,
    k: int,
)
    requires
        0 <= k <= legal_moves(mg, b).len(),
    ensures
        all_fit(b@, ordered_list(mg, b, h, kt, ply, pv, legal_moves(mg, b), k)),
        all_legal(mg, b, ordered_list(mg, b, h, kt, ply, pv, legal_moves(mg, b), k)),
    decreases k,
{
    if k > 0 {
        lemma_ordered_list_fits(mg, b, h, kt, ply, pv, k - 1);
        let s = legal_moves(mg, b);
        let rest = ordered_list(mg, b, h, kt, ply, pv, s, k - 1);
        let m = s[k - 1];
        assert(s.contains(m));
        if m != pv && move_fits(b@, m) {
            let l = rest.push(classify_spec(mg, b, h, kt, ply, m));
            assert forall|i: int| 0 <= i < l.len() implies move_fits(b@, #[trigger] l[i].2) && s.contains(l[i].2) by {
                if i < rest.len() {
                    assert(l[i] == rest[i]);
                }
            }
        }
    }
}

/// The move ordering hands out only moves that fit the position: the hash
/// move when it is legal, else legal moves of the position; and what it
/// keeps fits as well and stays among the legal moves.
pub proof fn law_order_next_fits(
    mg: MoveGenerator,
    b: Board,
    h: HistoryTable,
    kt: KillerTable,
    pv: u16,
    ply: i32,
    ph: MoveOrderingPhase,
    moves: Seq<(MoveKind, i32, u16)>,
)
    requires
        all_fit(b@, moves),
    ensures
        all_fit(b@, order_next(mg, b, h, kt, pv, ply, ph, moves).2),
        order_next(mg, b, h, kt, pv, ply, ph, moves).0 matches Some(m) ==> move_fits(b@, m),
        all_legal(mg, b, moves) ==> all_legal(mg, b, order_next(mg, b, h, kt, pv, ply, ph, moves).2),
        all_legal(mg, b, moves) ==> (order_next(mg, b, h, kt, pv, ply, ph, moves).0 matches Some(m) ==> (legal_moves(
            mg,
            b,
        ).contains(m) || (m == pv && move_legal(mg, b, m)))),
    decreases 9 - phase_index(ph),
{
    match ph {
        MoveOrderingPhase::PvNode => {
            if !(pv != 0 && move_fits(b@, pv) && move_legal(mg, b, pv)) {
                law_order_next_fits(mg, b, h, kt, pv, ply, MoveOrderingPhase::Generation, moves);
            }
        },
        MoveOrderingPhase::Generation => {
            let s = legal_moves(mg, b);
            lemma_ordered_list_fits(mg, b, h, kt, ply, pv, s.len() as int);
            law_order_next_fits(mg, b, h, kt, pv, ply, MoveOrderingPhase::Promotions, ordered_list(mg, b, h, kt,
                ply, pv, s, s.len() as int));
        },
        MoveOrderingPhase::Exhausted => {},
        _ => {
            let (bi, bs) = scan(moves, phase_kind(ph), moves.len() as int);
            if bs != i32::MIN {
                lemma_scan_in_range(moves, phase_kind(ph), moves.len() as int);
                lemma_take_keeps(moves, bi);
                let rest = moves.update(bi, moves.last()).drop_last();
                assert forall|i: int| 0 <= i < rest.len() implies move_fits(b@, #[trigger] rest[i].2) by {
                    let j = choose|j: int| 0 <= j < moves.len() && rest[i] == moves[j];
                }
                if all_legal(mg, b, moves) {
                    assert forall|i: int| 0 <= i < rest.len() implies legal_moves(mg, b).contains(#[trigger] rest[i].2) by {
                        let j = choose|j: int| 0 <= j < moves.len() && rest[i] == moves[j];
                    }
                }
            } else {
                law_order_next_fits(mg, b, h, kt, pv, ply, phase_after(ph), moves);
            }
        },
    }
}

/// A list of classified moves that all fit keeps fitting after the capture
/// ordering takes one out, and the move taken fits.
pub proof fn law_quiesce_next_fits(p: Position, ph: QuiesceOrderingPhase, moves: Seq<(MoveKind, i32, u16)>)
    requires
        all_fit(p, moves),
    ensures
        all_fit(p, quiesce_next(ph, moves).2),
        quiesce_next(ph, moves).0 matches Some(m) ==> move_fits(p, m),
    decreases 5 - quiesce_index(ph),
{
    if ph != QuiesceOrderingPhase::Exhausted {
        let (bi, bs) = scan(moves, quiesce_kind(ph), moves.len() as int);
        if bs != i32::MIN {
            lemma_scan_in_range(moves, quiesce_kind(ph), moves.len() as int);
            lemma_take_keeps(moves, bi);
            let rest = moves.update(bi, moves.last()).drop_last();
            assert forall|i: int| 0 <= i < rest.len() implies move_fits(p, #[trigger] rest[i].2) by {
                let j = choose|j: int| 0 <= j < moves.len() && rest[i] == moves[j];
            }
        } else {
            law_quiesce_next_fits(p, quiesce_after(ph), moves);
        }
    }
}

/// The promotions and captures the capture ordering starts with fit the
/// position and are among its legal moves, when taken from its legal moves.
pub proof fn lemma_quiesce_list_fits(
    mg: MoveGenerator,
    b: Board,
    h: HistoryTable,
    kt: KillerTable,
    ply: i32,
    k: int,
)
    requires
        0 <= k <= legal_moves(mg, b).len(),
    ensures
        all_fit(b@, quiesce_list(mg, b, h, kt, ply, legal_moves(mg, b), k)),
        all_legal(mg, b, quiesce_list(mg, b, h, kt, ply, legal_moves(mg, b), k)),
    decreases k,
{
    if k > 0 {
        lemma_quiesce_list_fits(mg, b, h, kt, ply, k - 1);
        let s = legal_moves(mg, b);
        let rest = quiesce_list(mg, b, h, kt, ply, s, k - 1);
        let m = s[k - 1];
        assert(s.contains(m));
        if (m & 8 != 0 || m & 4 != 0) && move_fits(b@, m) {
            let l = rest.push(classify_spec(mg, b, h, kt, ply, m));
            assert forall|i: int| 0 <= i < l.len() implies move_fits(b@, #[trigger] l[i].2) && s.contains(l[i].2) by {
                if i < rest.len() {
                    assert(l[i] == rest[i]);
                }
            }
        }
    }
}


/// Taking the element at `i` out by moving the last one into its place keeps
/// every other element: with the taken one added back, the same multiset.
pub proof fn lemma_swap_remove_multiset<A>(s: Seq<A>, i: int)
    requires
        0 <= i < s.len(),
    ensures
        s.update(i, s.last()).drop_last().to_multiset().insert(s[i]) =~= s.to_multiset(),
{
    broadcast use vstd::multiset::group_multiset_axioms, vstd::seq_lib::to_multiset_contains;

    let t = s.update(i, s.last());
    let r = t.drop_last();
    let m = s.to_multiset();
    vstd::seq_lib::to_multiset_update(s, i, s.last());
    assert(t.last() == s.last());
    assert(r.push(t.last()) =~= t);
    vstd::seq_lib::to_multiset_build(r, s.last());
    assert(s.contains(s[i]));
    assert(m.count(s[i]) > 0);
    assert(r.to_multiset() =~= m.remove(s[i])) by {
        assert forall|v: A| r.to_multiset().count(v) == m.remove(s[i]).count(v) by {
            assert(r.to_multiset().insert(s.last()).count(v) == m.insert(s.last()).remove(s[i]).count(v));
        }
    }
}

/// Each move the capture ordering hands out is taken out of the moves it
/// holds, the others kept: no move comes twice.
pub proof fn law_quiesce_next_takes_out(ph: QuiesceOrderingPhase, moves: Seq<(MoveKind, i32, u16)>)
    ensures
        quiesce_next(ph, moves).0 matches Some(m) ==> exists|e: (MoveKind, i32, u16)|
            e.2 == m && #[trigger] quiesce_next(ph, moves).2.to_multiset().insert(e) == moves.to_multiset(),
        quiesce_next(ph, moves).0 is None ==> quiesce_next(ph, moves).2 == moves,
    decreases 5 - quiesce_index(ph),
{
    if ph != QuiesceOrderingPhase::Exhausted {
        let (bi, bs) = scan(moves, quiesce_kind(ph), moves.len() as int);
        if bs != i32::MIN {
            lemma_scan_in_range(moves, quiesce_kind(ph), moves.len() as int);
            lemma_swap_remove_multiset(moves, bi);
            assert(quiesce_next(ph, moves).2.to_multiset().insert(moves[bi]) == moves.to_multiset());
        } else {
            law_quiesce_next_takes_out(quiesce_after(ph), moves);
        }
    }
}

/// From the sorting phases on, each move the move ordering hands out is taken
/// out of the moves it holds, the others kept: no move comes twice.
pub proof fn law_order_next_takes_out(
    mg: MoveGenerator,
    b: Board,
    h: HistoryTable,
    kt: KillerTable,
    pv: u16,
    ply: i32,
    ph: MoveOrderingPhase,
    moves: Seq<(MoveKind, i32, u16)>,
)
    requires
        phase_index(ph) >= 2,
    ensures
        order_next(mg, b, h, kt, pv, ply, ph, moves).0 matches Some(m) ==> exists|e: (MoveKind, i32, u16)|
            e.2 == m && #[trigger] order_next(mg, b, h, kt, pv, ply, ph, moves).2.to_multiset().insert(e)
                == moves.to_multiset(),
        order_next(mg, b, h, kt, pv, ply, ph, moves).0 is None ==> order_next(mg, b, h, kt, pv, ply, ph, moves).2
            == moves,
    decreases 9 - phase_index(ph),
{
    if ph != MoveOrderingPhase::Exhausted {
        let (bi, bs) = scan(moves, phase_kind(ph), moves.len() as int);
        if bs != i32::MIN {
            lemma_scan_in_range(moves, phase_kind(ph), moves.len() as int);
            lemma_swap_remove_multiset(moves, bi);
            assert(order_next(mg, b, h, kt, pv, ply, ph, moves).2.to_multiset().insert(moves[bi])
                == moves.to_multiset());
        } else {
            law_order_next_takes_out(mg, b, h, kt, pv, ply, phase_after(ph), moves);
        }
    }
}

/// With no legal moves, no list left and no hash move, the move ordering
/// hands out nothing, whatever its phase.
pub proof fn lemma_order_next_empty(
    mg: MoveGenerator,
    b: Board,
    h: HistoryTable,
    kt: KillerTable,
    ply: i32,
    ph: MoveOrderingPhase,
    moves: Seq<(MoveKind, i32, u16)>,
)
    requires
        legal_moves(mg, b).len() == 0,
        moves.len() == 0,
    ensures
        order_next(mg, b, h, kt, 0, ply, ph, moves).0 is None,
    decreases 9 - phase_index(ph),
{
    match ph {
        MoveOrderingPhase::PvNode => {
            lemma_order_next_empty(mg, b, h, kt, ply, MoveOrderingPhase::Generation, moves);
        },
        MoveOrderingPhase::Generation => {
            let s = legal_moves(mg, b);
            let l = ordered_list(mg, b, h, kt, ply, 0, s, s.len() as int);
            assert(l.len() == 0);
            lemma_order_next_empty(mg, b, h, kt, ply, MoveOrderingPhase::Promotions, l);
        },
        MoveOrderingPhase::Exhausted => {},
        _ => {
            assert(scan(moves, phase_kind(ph), 0) == (0int, i32::MIN));
            lemma_order_next_empty(mg, b, h, kt, ply, phase_after(ph), moves);
        },
    }
}

/// The place of the sorting phase that hands out moves of `kind`.
pub open spec fn kind_index(kind: MoveKind) -> int {
    match kind {
        MoveKind::Promotion => 2,
        MoveKind::WinningCapture => 3,
        MoveKind::KillerMove => 4,
        MoveKind::EqualCapture => 5,
        MoveKind::QuietMove => 6,
        MoveKind::LosingCapture => 7,
    }
}

/// When the scan finds nothing of `kind`, no move of that kind among the
/// first `k` scores above the lowest score.
proof fn lemma_scan_finds_none(moves: Seq<(MoveKind, i32, u16)>, kind: MoveKind, k: int)
    requires
        0 <= k <= moves.len(),
        scan(moves, kind, k).1 == i32::MIN,
    ensures
        forall|i: int| 0 <= i < k && #[trigger] moves[i].0 == kind ==> moves[i].1 == i32::MIN,
    decreases k,
{
    if k > 0 {
        let (bi, bs) = scan(moves, kind, k - 1);
        let m = moves[k - 1];
        assert(!(m.0 == kind && m.1 > bs));
        lemma_scan_finds_none(moves, kind, k - 1);
    }
}

/// The sorting phases pass over no move that scores above the lowest score:
/// when they hand out nothing more, every such move left is of a kind whose
/// phase came before, so from the first sorting phase on the list is used up.
pub proof fn law_order_next_exhausts(
    mg: MoveGenerator,
    b: Board,
    h: HistoryTable,
    kt: KillerTable,
    pv: u16,
    ply: i32,
    ph: MoveOrderingPhase,
    moves: Seq<(MoveKind, i32, u16)>,
)
    requires
        phase_index(ph) >= 2,
        forall|i: int| 0 <= i < moves.len() ==> #[trigger] moves[i].1 > i32::MIN,
    ensures
        order_next(mg, b, h, kt, pv, ply, ph, moves).0 is None ==> forall|i: int|
            0 <= i < moves.len() ==> kind_index(#[trigger] moves[i].0) < phase_index(ph),
        ph == MoveOrderingPhase::Promotions && order_next(mg, b, h, kt, pv, ply, ph, moves).0 is None ==> moves.len()
            == 0,
    decreases 9 - phase_index(ph),
{
    if ph != MoveOrderingPhase::Exhausted {
        let (bi, bs) = scan(moves, phase_kind(ph), moves.len() as int);
        if bs == i32::MIN {
            lemma_scan_finds_none(moves, phase_kind(ph), moves.len() as int);
            law_order_next_exhausts(mg, b, h, kt, pv, ply, phase_after(ph), moves);
        }
    }
    if ph == MoveOrderingPhase::Promotions && order_next(mg, b, h, kt, pv, ply, ph, moves).0 is None && moves.len()
        > 0 {
        assert(kind_index(moves[0].0) >= 2);
    }
}

proof fn lemma_swap_gains_reads_view(
    mg: MoveGenerator,
    b1: Board,
    b2: Board,
    sq: int,
    att0: Seq<u64>,
    att1: Seq<u64>,
    on: int,
    used: u64,
    occ: u64,
    pt: int,
    gains: Seq<int>,
)
    requires
        b1@ == b2@,
        on == 0 || on == 1,
    ensures
        swap_gains(mg, b1, sq, att0, att1, on, used, occ, pt, gains) == swap_gains(mg, b2, sq, att0, att1, on, used,
            occ, pt, gains),
    decreases u64::MAX - used,
{
    assert(b1.players[0]@ == b2.players[0]@);
    assert(b1.players[1]@ == b2.players[1]@);
    assert(b1.pieces(on) == b2.pieces(on));
    let g = gains.push(see_val(pt) - gains.last());
    if !(-gains.last() < 0 && g.last() < 0) {
        let att = if on == 0 { att0 } else { att1 };
        let (res, a2) = lva(mg, att, sq, occ, b1.pieces(on), used);
        match res {
            None => {},
            Some(p) => {
                let bb = lowest(a2[p]);
                let a3 = a2.update(p, a2[p] & !bb);
                let used2 = used | bb;
                if used2 > used {
                    if on == 0 {
                        lemma_swap_gains_reads_view(mg, b1, b2, sq, a3, att1, 1, used2, occ & !bb, p, g);
                    } else {
                        lemma_swap_gains_reads_view(mg, b1, b2, sq, att0, a3, 0, used2, occ & !bb, p, g);
                    }
                }
            },
        }
    }
}

/// The capture and promotion list reads a board only through its view, and
/// the tables only through their scores and killer rows.
pub proof fn lemma_quiesce_list_views(
    mg: MoveGenerator,
    b1: Board,
    b2: Board,
    h1: HistoryTable,
    h2: HistoryTable,
    k1: KillerTable,
    k2: KillerTable,
    ply: i32,
    s: Seq<u16>,
    k: int,
)
    requires
        crate::moving::generation::same_board(b1, b2),
        h1.scores() == h2.scores(),
        k1.firsts() == k2.firsts(),
        k1.seconds() == k2.seconds(),
    ensures
        quiesce_list(mg, b1, h1, k1, ply, s, k) == quiesce_list(mg, b2, h2, k2, ply, s, k),
    decreases k,
{
    if k > 0 {
        lemma_quiesce_list_views(mg, b1, b2, h1, h2, k1, k2, ply, s, k - 1);
        lemma_classify_views(mg, b1, b2, h1, h2, k1, k2, ply, s[k - 1]);
    }
}

/// The exchange evaluation reads a board only through its view.
proof fn lemma_see_reads_view(mg: MoveGenerator, b1: Board, b2: Board, m: u16)
    requires
        crate::moving::generation::same_board(b1, b2),
    ensures
        see_value(mg, b1, m, b1.us as int) == see_value(mg, b2, m, b2.us as int),
{
    crate::moving::generation::lemma_same_board_reads(b1, b2);
    let color = b1.us as int;
    assert(b1.players[0]@ == b2.players[0]@);
    assert(b1.players[1]@ == b2.players[1]@);
    let own = b1.pieces(color);
    let other = b1.pieces(1 - color);
    let t = target_of(m) as int;
    let st = start_of(m) as int;
    let pt = piece_at(own, st) as int;
    let victim = if code_of(m) == 5 { PAWN as int } else { piece_at(other, t) as int };
    let used = 1u64 << (st as u64);
    let occ0 = b1.occ() & !used;
    let occ = if code_of(m) == 5 { occ0 & !(1u64 << (ep_square(color, t) as u64)) } else { occ0 };
    let z = seq![0u64, 0u64, 0u64, 0u64, 0u64, 0u64];
    let ac = static_att(mg, own, t, color, used, z);
    let ao = static_att(mg, other, t, 1 - color, used, z);
    let (att0, att1) = if color == 0 { (ac, ao) } else { (ao, ac) };
    lemma_swap_gains_reads_view(mg, b1, b2, t, att0, att1, 1 - color, used, occ, pt, seq![see_val(victim)]);
    assert(see_gains(mg, b1, m, color) == see_gains(mg, b2, m, color));
}

/// The class of a move reads the board only through its view, and the
/// tables only through their scores and killer rows.
pub proof fn lemma_classify_views(
    mg: MoveGenerator,
    b1: Board,
    b2: Board,
    h1: HistoryTable,
    h2: HistoryTable,
    k1: KillerTable,
    k2: KillerTable,
    ply: i32,
    m: u16,
)
    requires
        crate::moving::generation::same_board(b1, b2),
        h1.scores() == h2.scores(),
        k1.firsts() == k2.firsts(),
        k1.seconds() == k2.seconds(),
    ensures
        classify_spec(mg, b1, h1, k1, ply, m) == classify_spec(mg, b2, h2, k2, ply, m),
{
    lemma_see_reads_view(mg, b1, b2, m);
    crate::moving::generation::lemma_same_board_reads(b1, b2);
}

proof fn lemma_ordered_list_views(
    mg: MoveGenerator,
    b1: Board,
    b2: Board,
    h1: HistoryTable,
    h2: HistoryTable,
    k1: KillerTable,
    k2: KillerTable,
    ply: i32,
    pv: u16,
    s: Seq<u16>,
    k: int,
)
    requires
        crate::moving::generation::same_board(b1, b2),
        h1.scores() == h2.scores(),
        k1.firsts() == k2.firsts(),
        k1.seconds() == k2.seconds(),
    ensures
        ordered_list(mg, b1, h1, k1, ply, pv, s, k) == ordered_list(mg, b2, h2, k2, ply, pv, s, k),
    decreases k,
{
    if k > 0 {
        lemma_ordered_list_views(mg, b1, b2, h1, h2, k1, k2, ply, pv, s, k - 1);
        lemma_classify_views(mg, b1, b2, h1, h2, k1, k2, ply, s[k - 1]);
    }
}

/// The move ordering reads the board only through its view, and the tables
/// only through their scores and killer rows.
pub proof fn lemma_order_next_views(
    mg: MoveGenerator,
    b1: Board,
    b2: Board,
    h1: HistoryTable,
    h2: HistoryTable,
    k1: KillerTable,
    k2: KillerTable,
    pv: u16,
    ply: i32,
    ph: MoveOrderingPhase,
    moves: Seq<(MoveKind, i32, u16)>,
)
    requires
        crate::moving::generation::same_board(b1, b2),
        h1.scores() == h2.scores(),
        k1.firsts() == k2.firsts(),
        k1.seconds() == k2.seconds(),
    ensures
        order_next(mg, b1, h1, k1, pv, ply, ph, moves) == order_next(mg, b2, h2, k2, pv, ply, ph, moves),
    decreases 9 - phase_index(ph),
{
    crate::moving::generation::lemma_legal_moves_read_view(mg, b1, b2);
    crate::moving::generation::lemma_legality_reads_view(mg, b1, b2);
    match ph {
        MoveOrderingPhase::PvNode => {
            lemma_order_next_views(mg, b1, b2, h1, h2, k1, k2, pv, ply, MoveOrderingPhase::Generation, moves);
        },
        MoveOrderingPhase::Generation => {
            let s = legal_moves(mg, b1);
            lemma_ordered_list_views(mg, b1, b2, h1, h2, k1, k2, ply, pv, s, s.len() as int);
            lemma_order_next_views(mg, b1, b2, h1, h2, k1, k2, pv, ply, MoveOrderingPhase::Promotions, ordered_list(
                mg,
                b1,
                h1,
                k1,
                ply,
                pv,
                s,
                s.len() as int,
            ));
        },
        MoveOrderingPhase::Exhausted => {},
        _ => {
            lemma_order_next_views(mg, b1, b2, h1, h2, k1, k2, pv, ply, phase_after(ph), moves);
        },
    }
}

/// The scan ends on a best score: every move of `kind` among the first `k`
/// scores at most what it found.
proof fn lemma_scan_max(moves: Seq<(MoveKind, i32, u16)>, kind: MoveKind, k: int)
    requires
        0 <= k <= moves.len(),
    ensures
        forall|j: int| 0 <= j < k && #[trigger] moves[j].0 == kind ==> moves[j].1 <= scan(moves, kind, k).1,
        scan(moves, kind, k).1 >= i32::MIN,
    decreases k,
{
    if k > 0 {
        lemma_scan_max(moves, kind, k - 1);
    }
}

/// The sorting phases hand out the best scored move of their kind first, so
/// the moves of each kind come out in falling score order; and once the
/// ordering hands out nothing it stays exhausted and hands out nothing more.
pub proof fn law_order_next_best_first(
    mg: MoveGenerator,
    b: Board,
    h: HistoryTable,
    kt: KillerTable,
    pv: u16,
    ply: i32,
    ph: MoveOrderingPhase,
    moves: Seq<(MoveKind, i32, u16)>,
)
    requires
        phase_index(ph) >= 2,
    ensures
        order_next(mg, b, h, kt, pv, ply, ph, moves).0 matches Some(m) ==> exists|i: int|
            0 <= i < moves.len() && moves[i].2 == m && forall|j: int|
                0 <= j < moves.len() && #[trigger] moves[j].0 == moves[i].0 ==> moves[j].1 <= moves[i].1,
        order_next(mg, b, h, kt, pv, ply, ph, moves).0 is None ==> order_next(mg, b, h, kt, pv, ply, ph, moves).1
            == MoveOrderingPhase::Exhausted,
    decreases 9 - phase_index(ph),
{
    if ph != MoveOrderingPhase::Exhausted {
        let (bi, bs) = scan(moves, phase_kind(ph), moves.len() as int);
        if bs != i32::MIN {
            lemma_scan_in_range(moves, phase_kind(ph), moves.len() as int);
            lemma_scan_max(moves, phase_kind(ph), moves.len() as int);
            assert(moves[bi].2 == order_next(mg, b, h, kt, pv, ply, ph, moves).0->0);
        } else {
            law_order_next_best_first(mg, b, h, kt, pv, ply, phase_after(ph), moves);
        }
    }
}

/// From any phase, the ordering that hands out nothing is exhausted.
pub proof fn law_order_next_stays_exhausted(
    mg: MoveGenerator,
    b: Board,
    h: HistoryTable,
    kt: KillerTable,
    pv: u16,
    ply: i32,
    ph: MoveOrderingPhase,
    moves: Seq<(MoveKind, i32, u16)>,
)
    ensures
        order_next(mg, b, h, kt, pv, ply, ph, moves).0 is None ==> order_next(mg, b, h, kt, pv, ply, ph, moves).1
            == MoveOrderingPhase::Exhausted,
        order_next(mg, b, h, kt, pv, ply, MoveOrderingPhase::Exhausted, moves).0 is None,
    decreases 9 - phase_index(ph),
{
    match ph {
        MoveOrderingPhase::PvNode => {
            law_order_next_stays_exhausted(mg, b, h, kt, pv, ply, MoveOrderingPhase::Generation, moves);
        },
        MoveOrderingPhase::Generation => {
            let s = legal_moves(mg, b);
            law_order_next_best_first(mg, b, h, kt, pv, ply, MoveOrderingPhase::Promotions, ordered_list(mg, b, h, kt,
                ply, pv, s, s.len() as int));
        },
        MoveOrderingPhase::Exhausted => {},
        _ => {
            law_order_next_best_first(mg, b, h, kt, pv, ply, ph, moves);
        },
    }
}

} // verus!
