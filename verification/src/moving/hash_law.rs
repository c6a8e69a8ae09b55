use vstd::prelude::*;
use crate::constants::{bit, WHITE, BLACK, PAWN, KNIGHT, ROOK, QUEEN, KING, NONE};
use crate::bits::{lemma_bits, lemma_bit_single};
use crate::position::board::Position;
use crate::position::piece_set::{Pieces, piece_at, pieces_wf, all_of, move_piece_spec, add_spec,
    lemma_wf_square, lemma_moved_bits_pub, square_ok, lemma_wf_bits};
use crate::position::zobrist_hashing::{zobrist_key, piece_key_index, pieces_key, position_hash};
use crate::moving::mv::{start_of, target_of, code_of, lemma_move_fields};
use crate::moving::move_making::{take_at, move_fits, first_step, made_pieces, pieces_hash, step_hash, castle_rook,
    ep_square, position_wf, made, made_state};
use crate::moving::move_generation::MoveGenerator;
use crate::position::board_state::{castling_of, ep_file_of};

verus! {

/// The key of a piece of kind `piece` and side `color` on `sq`.
pub open spec fn kkey(sq: int, piece: int, color: int) -> u64 {
    zobrist_key(piece_key_index(sq, piece, color) as u64)
}

/// The key of what a set holds on `sq` (0 for an empty square).
pub open spec fn key_of(o: Pieces, sq: int, color: int) -> u64 {
    if piece_at(o, sq) != NONE {
        kkey(sq, piece_at(o, sq) as int, color)
    } else {
        0
    }
}

/// The keys of both sides on `sq`.
pub open spec fn key_at(w: Pieces, b: Pieces, sq: int) -> u64 {
    key_of(w, sq, WHITE as int) ^ key_of(b, sq, BLACK as int)
}

/// The change of the keys on `sq` between two pairs of sets.
pub open spec fn key_change(w: Pieces, b: Pieces, w2: Pieces, b2: Pieces, sq: int) -> u64 {
    key_at(w, b, sq) ^ key_at(w2, b2, sq)
}

/// The changes of the keys on the squares below `n`, combined.
pub open spec fn changes(w: Pieces, b: Pieces, w2: Pieces, b2: Pieces, n: int) -> u64
    decreases n,
{
    if n <= 0 {
        0
    } else {
        changes(w, b, w2, b2, n - 1) ^ key_change(w, b, w2, b2, n - 1)
    }
}

/// The laws of exclusive or that the proofs below use.
proof fn lemma_xor(a: u64, b: u64, c: u64, d: u64)
    by (bit_vector)
    ensures
        a ^ 0 == a,
        0 ^ a == a,
        a ^ a == 0,
        a ^ b == b ^ a,
        (a ^ b) ^ c == a ^ (b ^ c),
        (a ^ b) ^ (c ^ d) == (a ^ c) ^ (b ^ d),
        (a ^ b) ^ b == a,
        (a ^ b) ^ (c ^ d) == (b ^ d) ^ (a ^ c),
        (a ^ c) ^ d == (a ^ b) ^ (c ^ (b ^ d)),
        a & b == b & a,
{
}

/// One square more of the key fold.
proof fn lemma_pieces_key_step(w: Pieces, b: Pieces, n: int)
    requires
        n > 0,
    ensures
        pieces_key(w, b, n) == pieces_key(w, b, n - 1) ^ key_at(w, b, n - 1),
{
    let h = pieces_key(w, b, n - 1);
    let kw = key_of(w, n - 1, WHITE as int);
    let kb = key_of(b, n - 1, BLACK as int);
    lemma_xor(h, kw, kb, 0);
    lemma_xor(h, 0, kb, 0);
    lemma_xor(h, kw, 0, 0);
    lemma_xor(0, kb, 0, 0);
    lemma_xor(kw, 0, 0, 0);
}

/// The key fold of the new sets is the old one with the changes applied.
pub proof fn lemma_pieces_key_changes(w: Pieces, b: Pieces, w2: Pieces, b2: Pieces, n: int)
    requires
        n >= 0,
    ensures
        pieces_key(w2, b2, n) == pieces_key(w, b, n) ^ changes(w, b, w2, b2, n),
    decreases n,
{
    if n == 0 {
        lemma_xor(0, 0, 0, 0);
    } else {
        lemma_pieces_key_changes(w, b, w2, b2, n - 1);
        lemma_pieces_key_step(w, b, n);
        lemma_pieces_key_step(w2, b2, n);
        lemma_xor(pieces_key(w, b, n - 1), key_at(w, b, n - 1), changes(w, b, w2, b2, n - 1), key_at(w2, b2, n - 1));
    }
}

/// The changes over the squares below `n` when only the squares `a`, `b`,
/// `c`, `d` (all different) may change.
pub open spec fn four_changes(ka: u64, kb: u64, kc: u64, kd: u64, a: int, b: int, c: int, d: int, n: int) -> u64 {
    (if a < n { ka } else { 0 }) ^ (if b < n { kb } else { 0 }) ^ (if c < n { kc } else { 0 }) ^ (if d < n {
        kd
    } else {
        0
    })
}

/// When the keys change on no square but `a`, `b`, `c`, `d`, the changes
/// are those of these four squares.
pub proof fn lemma_changes_four(w: Pieces, b: Pieces, w2: Pieces, b2: Pieces, sa: int, sb: int, sc: int, sd: int, n: int)
    requires
        0 <= n <= 64,
        sa != sb && sa != sc && sa != sd && sb != sc && sb != sd && sc != sd,
        forall|q: int|
            0 <= q < 64 && q != sa && q != sb && q != sc && q != sd ==> #[trigger] key_change(w, b, w2, b2, q) == 0,
    ensures
        changes(w, b, w2, b2, n) == four_changes(
            key_change(w, b, w2, b2, sa),
            key_change(w, b, w2, b2, sb),
            key_change(w, b, w2, b2, sc),
            key_change(w, b, w2, b2, sd),
            sa,
            sb,
            sc,
            sd,
            n,
        ),
    decreases n,
{
    let ka = key_change(w, b, w2, b2, sa);
    let kb = key_change(w, b, w2, b2, sb);
    let kc = key_change(w, b, w2, b2, sc);
    let kd = key_change(w, b, w2, b2, sd);
    if n == 0 {
        lemma_xor(0, 0, 0, 0);
        lemma_four_algebra(0, 0, 0, 0, 0);
    } else {
        lemma_changes_four(w, b, w2, b2, sa, sb, sc, sd, n - 1);
        let q = n - 1;
        let x = if sa < q { ka } else { 0 };
        let y = if sb < q { kb } else { 0 };
        let z = if sc < q { kc } else { 0 };
        let v = if sd < q { kd } else { 0 };
        let k = key_change(w, b, w2, b2, q);
        lemma_four_algebra(x, y, z, v, k);
    }
}

proof fn lemma_four_algebra(x: u64, y: u64, z: u64, v: u64, k: u64)
    by (bit_vector)
    ensures
        (0 ^ y ^ z ^ v) ^ k == k ^ y ^ z ^ v,
        (x ^ 0 ^ z ^ v) ^ k == x ^ k ^ z ^ v,
        (x ^ y ^ 0 ^ v) ^ k == x ^ y ^ k ^ v,
        (x ^ y ^ z ^ 0) ^ k == x ^ y ^ z ^ k,
        (x ^ y ^ z ^ v) ^ 0 == x ^ y ^ z ^ v,
        0u64 ^ 0u64 ^ 0u64 ^ 0u64 == 0u64,
{
}

/// Moving the piece on `s` to the empty square `t` of a well-formed set: the
/// piece is found on `t`, nothing on `s`, and every other square as before.
pub proof fn lemma_move_piece_at(o: Pieces, s: int, t: int)
    requires
        pieces_wf(o),
        0 <= s < 64,
        0 <= t < 64,
        s != t,
        bit(all_of(o), s),
        !bit(all_of(o), t),
        bit(o.king, s) ==> o.king == 1u64 << (s as u64),
    ensures
        pieces_wf(move_piece_spec(o, s as u64, t as u64)),
        forall|q: int|
            0 <= q < 64 ==> #[trigger] piece_at(move_piece_spec(o, s as u64, t as u64), q) == (if q == t {
                piece_at(o, s)
            } else if q == s {
                NONE
            } else {
                piece_at(o, q)
            }),
{
    let o2 = move_piece_spec(o, s as u64, t as u64);
    lemma_wf_square(o, s);
    lemma_wf_square(o, t);
    lemma_moved_bits_pub(o.pawns, s as u64, t as u64);
    lemma_moved_bits_pub(o.orthogonals, s as u64, t as u64);
    lemma_moved_bits_pub(o.diagonals, s as u64, t as u64);
    lemma_moved_bits_pub(o.knights, s as u64, t as u64);
    assert forall|q: int| 0 <= q < 64 implies {
        &&& bit(o2.pawns, q) == (if q == t { bit(o.pawns, s) } else if q == s { false } else { bit(o.pawns, q) })
        &&& bit(o2.orthogonals, q) == (if q == t { bit(o.orthogonals, s) } else if q == s { false } else {
            bit(o.orthogonals, q)
        })
        &&& bit(o2.diagonals, q) == (if q == t { bit(o.diagonals, s) } else if q == s { false } else {
            bit(o.diagonals, q)
        })
        &&& bit(o2.knights, q) == (if q == t { bit(o.knights, s) } else if q == s { false } else {
            bit(o.knights, q)
        })
        &&& #[trigger] bit(o2.king, q) == (if q == t { bit(o.king, s) } else if q == s { false } else {
            bit(o.king, q)
        })
    } by {
        lemma_wf_square(o, q);
        lemma_bit_single(t, q);
        lemma_bit_single(s, q);
    }
    assert forall|q: int| 0 <= q < 64 implies #[trigger] piece_at(o2, q) == (if q == t {
        piece_at(o, s)
    } else if q == s {
        NONE
    } else {
        piece_at(o, q)
    }) by {
        assert(bit(o2.king, q) == (if q == t { bit(o.king, s) } else if q == s { false } else { bit(o.king, q) }));
    }
    assert forall|q: int| 0 <= q < 64 implies #[trigger] square_ok(o2, q) by {
        assert(bit(o2.king, q) == (if q == t { bit(o.king, s) } else if q == s { false } else { bit(o.king, q) }));
        lemma_wf_square(o, q);
    }
    lemma_wf_bits(o2);
}

/// Taking from a square empties it unless a king stands there (a king is
/// never taken), and leaves every other square as it was.
pub proof fn lemma_take_at_piece(o: Pieces, sq: int)
    requires
        0 <= sq < 64,
    ensures
        forall|q: int|
            0 <= q < 64 ==> #[trigger] piece_at(crate::moving::move_making::take_at(o, sq), q) == (if q == sq {
                if piece_at(o, sq) != NONE && bit(o.king, sq) {
                    KING
                } else {
                    NONE
                }
            } else {
                piece_at(o, q)
            }),
{
    let m = !(1u64 << (sq as u64));
    assert forall|q: int| 0 <= q < 64 implies #[trigger] piece_at(crate::moving::move_making::take_at(o, sq), q)
        == (if q == sq {
        if piece_at(o, sq) != NONE && bit(o.king, sq) {
            KING
        } else {
            NONE
        }
    } else {
        piece_at(o, q)
    }) by {
        lemma_bits(o.pawns, m, q);
        lemma_bits(o.orthogonals, m, q);
        lemma_bits(o.diagonals, m, q);
        lemma_bits(o.knights, m, q);
        lemma_bits(1u64 << (sq as u64), 0, q);
        lemma_bit_single(sq, q);
    }
}

/// Adding a knight, bishop, rook or queen on an empty square puts it there
/// and leaves every other square as it was.
pub proof fn lemma_add_piece_at(o: Pieces, sq: int, pc: int)
    requires
        0 <= sq < 64,
        KNIGHT <= pc <= QUEEN,
        piece_at(o, sq) == NONE,
    ensures
        forall|q: int|
            0 <= q < 64 ==> #[trigger] piece_at(add_spec(o, sq, pc), q) == (if q == sq {
                pc as usize
            } else {
                piece_at(o, q)
            }),
{
    let m = 1u64 << (sq as u64);
    assert forall|q: int| 0 <= q < 64 implies #[trigger] piece_at(add_spec(o, sq, pc), q) == (if q == sq {
        pc as usize
    } else {
        piece_at(o, q)
    }) by {
        lemma_bits(o.pawns, m, q);
        lemma_bits(o.orthogonals, m, q);
        lemma_bits(o.diagonals, m, q);
        lemma_bits(o.knights, m, q);
        lemma_bits(o.king, m, q);
        lemma_bit_single(sq, q);
    }
}

/// Two sets of one position share no square.
pub open spec fn apart(own: Pieces, other: Pieces) -> bool {
    &&& pieces_wf(own)
    &&& pieces_wf(other)
    &&& all_of(own) & all_of(other) == 0
}

/// A square held by one of two sets that share no square is empty in the other.
proof fn lemma_apart_square(own: Pieces, other: Pieces, q: int)
    requires
        apart(own, other),
        0 <= q < 64,
    ensures
        piece_at(own, q) != NONE ==> piece_at(other, q) == NONE,
        piece_at(other, q) != NONE ==> piece_at(own, q) == NONE,
{
    lemma_wf_square(own, q);
    lemma_wf_square(other, q);
    lemma_bits(all_of(own), all_of(other), q);
    lemma_bits(0, 0, q);
}

/// What the first step of a move (the moving piece moved, the piece on the
/// target square taken) does square by square, for a move that fits.
proof fn lemma_first_step(p: Position, mv: u16)
    requires
        (p.us == WHITE && p.enemy == BLACK) || (p.us == BLACK && p.enemy == WHITE),
        apart(p.side(p.us as int), p.side(p.enemy as int)),
        move_fits(p, mv),
    ensures
        ({
            let own = p.side(p.us as int);
            let other = p.side(p.enemy as int);
            let s = start_of(mv) as int;
            let t = target_of(mv) as int;
            let own1 = first_step(p, mv).side(p.us as int);
            let other1 = first_step(p, mv).side(p.enemy as int);
            &&& 0 <= s < 64 && 0 <= t < 64 && s != t
            &&& piece_at(own, s) != NONE
            &&& piece_at(own, t) == NONE
            &&& piece_at(other, s) == NONE
            &&& pieces_wf(own1)
            &&& own1 == move_piece_spec(own, s as u64, t as u64)
            &&& other1 == take_at(other, t)
            &&& forall|q: int|
                0 <= q < 64 ==> #[trigger] piece_at(own1, q) == (if q == t {
                    piece_at(own, s)
                } else if q == s {
                    NONE
                } else {
                    piece_at(own, q)
                })
            &&& forall|q: int|
                0 <= q < 64 ==> #[trigger] piece_at(other1, q) == (if q == t { NONE } else { piece_at(other, q) })
        }),
{
    let own = p.side(p.us as int);
    let other = p.side(p.enemy as int);
    let s = start_of(mv) as int;
    let t = target_of(mv) as int;
    lemma_move_fields(mv);
    lemma_wf_square(own, s);
    lemma_wf_square(own, t);
    lemma_wf_square(other, t);
    lemma_apart_square(own, other, s);
    lemma_move_piece_at(own, s, t);
    lemma_take_at_piece(other, t);
}

/// The sets of a position once a move has moved, taken and promoted its pieces.
pub open spec fn after_sides(p: Position, mv: u16) -> Position {
    p.with_side(p.us as int, made_pieces(p, mv).0).with_side(p.enemy as int, made_pieces(p, mv).1)
}

/// The change of the keys on `sq` between two positions, side by side.
pub open spec fn side_change(p: Position, q: Position, sq: int, c: int) -> u64 {
    key_of(p.side(c), sq, c) ^ key_of(q.side(c), sq, c)
}

/// The change of the keys on a square is that of the side to move combined
/// with that of the other side.
proof fn lemma_key_split(p: Position, q: Position, sq: int)
    requires
        (p.us == WHITE && p.enemy == BLACK) || (p.us == BLACK && p.enemy == WHITE),
    ensures
        key_change(p.white, p.black, q.white, q.black, sq) == side_change(p, q, sq, p.us as int) ^ side_change(
            p,
            q,
            sq,
            p.enemy as int,
        ),
{
    lemma_xor(key_of(p.white, sq, WHITE as int), key_of(p.black, sq, BLACK as int), key_of(q.white, sq, WHITE as int),
        key_of(q.black, sq, BLACK as int));
}

proof fn lemma_plain_algebra(ks: u64, kt: u64, kc: u64)
    by (bit_vector)
    ensures
        ((0u64 ^ ks) ^ kt) ^ kc == ((((ks ^ 0u64) ^ (0u64 ^ 0u64)) ^ ((0u64 ^ kt) ^ (kc ^ 0u64))) ^ 0u64) ^ 0u64,
        (0u64 ^ ks) ^ kt == ((((ks ^ 0u64) ^ (0u64 ^ 0u64)) ^ ((0u64 ^ kt) ^ (0u64 ^ 0u64))) ^ 0u64) ^ 0u64,
        (0u64 ^ 0u64) ^ (0u64 ^ 0u64) == 0u64,
{
}

/// Both sides hold the same piece on `q` in `p` and in `a`.
pub open spec fn same_at(p: Position, a: Position, q: int) -> bool {
    &&& piece_at(a.side(p.us as int), q) == piece_at(p.side(p.us as int), q)
    &&& piece_at(a.side(p.enemy as int), q) == piece_at(p.side(p.enemy as int), q)
}

/// Where both sides hold what they held, no key changes.
proof fn lemma_unchanged(p: Position, a: Position, x1: int, x2: int, x3: int, x4: int)
    requires
        (p.us == WHITE && p.enemy == BLACK) || (p.us == BLACK && p.enemy == WHITE),
        forall|q: int| 0 <= q < 64 && q != x1 && q != x2 && q != x3 && q != x4 ==> #[trigger] same_at(p, a, q),
    ensures
        forall|q: int|
            0 <= q < 64 && q != x1 && q != x2 && q != x3 && q != x4 ==> #[trigger] key_change(p.white, p.black, a.white, a.black, q)
                == 0,
{
    assert forall|q: int| 0 <= q < 64 && q != x1 && q != x2 && q != x3 && q != x4 implies #[trigger] key_change(
        p.white,
        p.black,
        a.white,
        a.black,
        q,
    ) == 0 by {
        assert(same_at(p, a, q));
        lemma_key_split(p, a, q);
        assert(key_of(a.side(p.us as int), q, p.us as int) == key_of(p.side(p.us as int), q, p.us as int));
        assert(key_of(a.side(p.enemy as int), q, p.enemy as int) == key_of(p.side(p.enemy as int), q, p.enemy as int));
        lemma_plain_algebra(0, 0, 0);
        lemma_xor(key_of(p.side(p.us as int), q, p.us as int), 0, 0, 0);
        lemma_xor(key_of(p.side(p.enemy as int), q, p.enemy as int), 0, 0, 0);
        assert(side_change(p, a, q, p.us as int) == 0);
        assert(side_change(p, a, q, p.enemy as int) == 0);
        lemma_xor(0, 0, 0, 0);
    }
}

/// For a quiet move, a double push or a capture, the sets after the move are
/// those after its first step.
proof fn lemma_plain_sides(p: Position, mv: u16)
    requires
        (p.us == WHITE && p.enemy == BLACK) || (p.us == BLACK && p.enemy == WHITE),
        code_of(mv) != 2 && code_of(mv) != 3 && code_of(mv) != 5,
        mv & 8 == 0,
    ensures
        after_sides(p, mv).side(p.us as int) == first_step(p, mv).side(p.us as int),
        after_sides(p, mv).side(p.enemy as int) == first_step(p, mv).side(p.enemy as int),
{
}

/// The keys a quiet move, a double push or a capture toggles.
proof fn lemma_plain_hash(p: Position, mv: u16)
    requires
        (p.us == WHITE && p.enemy == BLACK) || (p.us == BLACK && p.enemy == WHITE),
        code_of(mv) != 2 && code_of(mv) != 3 && code_of(mv) != 5,
        mv & 8 == 0,
    ensures
        ({
            let s = start_of(mv) as int;
            let t = target_of(mv) as int;
            let moving = piece_at(p.side(p.us as int), s) as int;
            let ks = kkey(s, moving, p.us as int);
            let kt = kkey(t, moving, p.us as int);
            let kc = key_of(p.side(p.enemy as int), t, p.enemy as int);
            pieces_hash(p, mv, 0) == ((0u64 ^ ks) ^ kt) ^ kc
        }),
{
    let s = start_of(mv) as int;
    let t = target_of(mv) as int;
    let moving = piece_at(p.side(p.us as int), s) as int;
    let ks = kkey(s, moving, p.us as int);
    let kt = kkey(t, moving, p.us as int);
    let cap1 = piece_at(p.side(p.enemy as int), t) as int;
    let kc = key_of(p.side(p.enemy as int), t, p.enemy as int);
    assert(pieces_hash(p, mv, 0) == step_hash(p, mv, 0));
    if cap1 == NONE {
        assert(kc == 0);
        lemma_xor((0u64 ^ ks) ^ kt, 0, 0, 0);
    }
}

/// A quiet move, a double push or a capture changes the keys of its start and
/// target squares only, as `pieces_hash` toggles them.
proof fn lemma_case_plain(p: Position, mv: u16)
    requires
        (p.us == WHITE && p.enemy == BLACK) || (p.us == BLACK && p.enemy == WHITE),
        apart(p.side(p.us as int), p.side(p.enemy as int)),
        move_fits(p, mv),
        code_of(mv) != 2 && code_of(mv) != 3 && code_of(mv) != 5,
        mv & 8 == 0,
    ensures
        changes(p.white, p.black, after_sides(p, mv).white, after_sides(p, mv).black, 64) == pieces_hash(p, mv, 0),
{
    let us = p.us as int;
    let them = p.enemy as int;
    let own = p.side(us);
    let other = p.side(them);
    let s = start_of(mv) as int;
    let t = target_of(mv) as int;
    let a = after_sides(p, mv);
    lemma_first_step(p, mv);
    lemma_plain_sides(p, mv);
    let own1 = a.side(us);
    let other1 = a.side(them);
    let moving = piece_at(own, s) as int;
    let ks = kkey(s, moving, us);
    let kt = kkey(t, moving, us);
    let kc = key_of(other, t, them);
    assert forall|q: int| 0 <= q < 64 && q != s && q != t && q != 64 implies #[trigger] same_at(p, a, q) by {
    }
    lemma_unchanged(p, a, s, t, 64, 65);
    assert(key_change(p.white, p.black, a.white, a.black, s) == (ks ^ 0u64) ^ (0u64 ^ 0u64)) by {
        lemma_key_split(p, a, s);
        assert(piece_at(own1, s) == NONE && piece_at(other1, s) == NONE);
    }
    assert(key_change(p.white, p.black, a.white, a.black, t) == (0u64 ^ kt) ^ (kc ^ 0u64)) by {
        lemma_key_split(p, a, t);
        assert(piece_at(own1, t) == moving && piece_at(other1, t) == NONE);
    }
    lemma_plain_hash(p, mv);
    lemma_changes_four(p.white, p.black, a.white, a.black, s, t, 64, 65, 64);
    lemma_plain_algebra(ks, kt, kc);
}

proof fn lemma_promo_algebra(ks: u64, kt: u64, kc: u64, kp: u64)
    by (bit_vector)
    ensures
        ((((0u64 ^ ks) ^ kt) ^ kc) ^ kt) ^ kp == ((((ks ^ 0u64) ^ (0u64 ^ 0u64)) ^ ((0u64 ^ kp) ^ (kc ^ 0u64))) ^ 0u64)
            ^ 0u64,
{
}

/// For a promotion, the moving side ends with the new piece on the target
/// square in place of the pawn, the other side as after the first step.
proof fn lemma_promo_sides(p: Position, mv: u16)
    requires
        (p.us == WHITE && p.enemy == BLACK) || (p.us == BLACK && p.enemy == WHITE),
        code_of(mv) != 2 && code_of(mv) != 3 && code_of(mv) != 5,
        mv & 8 != 0,
    ensures
        after_sides(p, mv).side(p.us as int) == add_spec(
            take_at(first_step(p, mv).side(p.us as int), target_of(mv) as int),
            target_of(mv) as int,
            ((mv & 3) + 1) as int,
        ),
        after_sides(p, mv).side(p.enemy as int) == first_step(p, mv).side(p.enemy as int),
{
    lemma_move_fields(mv);
}

/// The keys a promotion toggles.
proof fn lemma_promo_hash(p: Position, mv: u16)
    requires
        (p.us == WHITE && p.enemy == BLACK) || (p.us == BLACK && p.enemy == WHITE),
        code_of(mv) != 2 && code_of(mv) != 3 && code_of(mv) != 5,
        mv & 8 != 0,
        piece_at(first_step(p, mv).side(p.us as int), target_of(mv) as int) == piece_at(
            p.side(p.us as int),
            start_of(mv) as int,
        ),
        piece_at(p.side(p.us as int), start_of(mv) as int) != NONE,
    ensures
        ({
            let s = start_of(mv) as int;
            let t = target_of(mv) as int;
            let moving = piece_at(p.side(p.us as int), s) as int;
            let ks = kkey(s, moving, p.us as int);
            let kt = kkey(t, moving, p.us as int);
            let kc = key_of(p.side(p.enemy as int), t, p.enemy as int);
            let kp = kkey(t, ((mv & 3) + 1) as int, p.us as int);
            pieces_hash(p, mv, 0) == ((((0u64 ^ ks) ^ kt) ^ kc) ^ kt) ^ kp
        }),
{
    let s = start_of(mv) as int;
    let t = target_of(mv) as int;
    let moving = piece_at(p.side(p.us as int), s) as int;
    let ks = kkey(s, moving, p.us as int);
    let kt = kkey(t, moving, p.us as int);
    let cap1 = piece_at(p.side(p.enemy as int), t) as int;
    lemma_move_fields(mv);
    if cap1 == NONE {
        lemma_xor((0u64 ^ ks) ^ kt, 0, 0, 0);
    }
}

/// A promotion changes the keys of its start and target squares only, as
/// `pieces_hash` toggles them.
proof fn lemma_case_promo(p: Position, mv: u16)
    requires
        (p.us == WHITE && p.enemy == BLACK) || (p.us == BLACK && p.enemy == WHITE),
        apart(p.side(p.us as int), p.side(p.enemy as int)),
        move_fits(p, mv),
        code_of(mv) != 2 && code_of(mv) != 3 && code_of(mv) != 5,
        mv & 8 != 0,
    ensures
        changes(p.white, p.black, after_sides(p, mv).white, after_sides(p, mv).black, 64) == pieces_hash(p, mv, 0),
{
    let us = p.us as int;
    let them = p.enemy as int;
    let own = p.side(us);
    let other = p.side(them);
    let s = start_of(mv) as int;
    let t = target_of(mv) as int;
    let a = after_sides(p, mv);
    let promo = ((mv & 3) + 1) as int;
    lemma_move_fields(mv);
    lemma_first_step(p, mv);
    lemma_promo_sides(p, mv);
    let own1 = first_step(p, mv).side(us);
    let other1 = first_step(p, mv).side(them);
    let own_t = take_at(own1, t);
    lemma_take_at_piece(own1, t);
    lemma_wf_square(own1, t);
    lemma_wf_square(own, s);
    assert(piece_at(own1, t) == PAWN);
    assert(piece_at(own_t, t) == NONE);
    lemma_add_piece_at(own_t, t, promo);
    let own2 = a.side(us);
    let moving = piece_at(own, s) as int;
    let ks = kkey(s, moving, us);
    let kt = kkey(t, moving, us);
    let kc = key_of(other, t, them);
    let kp = kkey(t, promo, us);
    assert forall|q: int| 0 <= q < 64 && q != s && q != t && q != 64 implies #[trigger] same_at(p, a, q) by {
        assert(piece_at(own2, q) == piece_at(own_t, q));
        assert(piece_at(own_t, q) == piece_at(own1, q));
    }
    lemma_unchanged(p, a, s, t, 64, 65);
    assert(key_change(p.white, p.black, a.white, a.black, s) == (ks ^ 0u64) ^ (0u64 ^ 0u64)) by {
        lemma_key_split(p, a, s);
        assert(piece_at(own2, s) == piece_at(own_t, s));
        assert(piece_at(own_t, s) == piece_at(own1, s));
        assert(piece_at(own2, s) == NONE && piece_at(other1, s) == NONE);
    }
    assert(key_change(p.white, p.black, a.white, a.black, t) == (0u64 ^ kp) ^ (kc ^ 0u64)) by {
        lemma_key_split(p, a, t);
        assert(piece_at(own2, t) == promo && piece_at(other1, t) == NONE);
    }
    lemma_promo_hash(p, mv);
    lemma_changes_four(p.white, p.black, a.white, a.black, s, t, 64, 65, 64);
    lemma_promo_algebra(ks, kt, kc, kp);
}

proof fn lemma_ep_algebra(ks: u64, kt: u64, ke: u64)
    by (bit_vector)
    ensures
        ((0u64 ^ ks) ^ kt) ^ ke == ((((ks ^ 0u64) ^ (0u64 ^ 0u64)) ^ ((0u64 ^ kt) ^ (0u64 ^ 0u64))) ^ ((0u64
            ^ 0u64) ^ (ke ^ 0u64))) ^ 0u64,
{
}

/// For en passant, the moving side ends as after the first step, the other
/// side without the pawn taken.
proof fn lemma_ep_sides(p: Position, mv: u16)
    requires
        (p.us == WHITE && p.enemy == BLACK) || (p.us == BLACK && p.enemy == WHITE),
        code_of(mv) == 5,
    ensures
        after_sides(p, mv).side(p.us as int) == first_step(p, mv).side(p.us as int),
        after_sides(p, mv).side(p.enemy as int) == take_at(
            first_step(p, mv).side(p.enemy as int),
            ep_square(p.us as int, target_of(mv) as int),
        ),
{
}

/// The keys en passant toggles.
proof fn lemma_ep_hash(p: Position, mv: u16)
    requires
        (p.us == WHITE && p.enemy == BLACK) || (p.us == BLACK && p.enemy == WHITE),
        code_of(mv) == 5,
        piece_at(p.side(p.enemy as int), target_of(mv) as int) == NONE,
        piece_at(first_step(p, mv).side(p.enemy as int), ep_square(p.us as int, target_of(mv) as int)) == PAWN,
    ensures
        ({
            let s = start_of(mv) as int;
            let t = target_of(mv) as int;
            let moving = piece_at(p.side(p.us as int), s) as int;
            let ks = kkey(s, moving, p.us as int);
            let kt = kkey(t, moving, p.us as int);
            let ke = kkey(ep_square(p.us as int, t), PAWN as int, p.enemy as int);
            pieces_hash(p, mv, 0) == ((0u64 ^ ks) ^ kt) ^ ke
        }),
{
}

/// En passant changes the keys of its start and target squares and of the
/// square of the pawn taken only, as `pieces_hash` toggles them.
proof fn lemma_case_ep(p: Position, mv: u16)
    requires
        (p.us == WHITE && p.enemy == BLACK) || (p.us == BLACK && p.enemy == WHITE),
        apart(p.side(p.us as int), p.side(p.enemy as int)),
        move_fits(p, mv),
        code_of(mv) == 5,
    ensures
        changes(p.white, p.black, after_sides(p, mv).white, after_sides(p, mv).black, 64) == pieces_hash(p, mv, 0),
{
    let us = p.us as int;
    let them = p.enemy as int;
    let own = p.side(us);
    let other = p.side(them);
    let s = start_of(mv) as int;
    let t = target_of(mv) as int;
    let e = ep_square(us, t);
    let a = after_sides(p, mv);
    lemma_first_step(p, mv);
    lemma_ep_sides(p, mv);
    let own1 = first_step(p, mv).side(us);
    let other1 = first_step(p, mv).side(them);
    let other2 = a.side(them);
    lemma_wf_square(other, e);
    lemma_wf_square(other, t);
    lemma_apart_square(own, other, e);
    assert(piece_at(other, e) == PAWN);
    assert(e != s && e != t);
    assert(other1.king == other.king);
    assert(piece_at(other1, e) == PAWN);
    lemma_take_at_piece(other1, e);
    let moving = piece_at(own, s) as int;
    let ks = kkey(s, moving, us);
    let kt = kkey(t, moving, us);
    let ke = kkey(e, PAWN as int, them);
    assert forall|q: int| 0 <= q < 64 && q != s && q != t && q != e implies #[trigger] same_at(p, a, q) by {
        assert(piece_at(other2, q) == piece_at(other1, q));
    }
    lemma_unchanged(p, a, s, t, e, 64);
    assert(key_change(p.white, p.black, a.white, a.black, s) == (ks ^ 0u64) ^ (0u64 ^ 0u64)) by {
        lemma_key_split(p, a, s);
        assert(piece_at(other2, s) == piece_at(other1, s));
    }
    assert(key_change(p.white, p.black, a.white, a.black, t) == (0u64 ^ kt) ^ (0u64 ^ 0u64)) by {
        lemma_key_split(p, a, t);
        assert(piece_at(other2, t) == piece_at(other1, t));
    }
    assert(key_change(p.white, p.black, a.white, a.black, e) == (0u64 ^ 0u64) ^ (ke ^ 0u64)) by {
        lemma_key_split(p, a, e);
        assert(piece_at(other2, e) == NONE);
    }
    lemma_ep_hash(p, mv);
    lemma_changes_four(p.white, p.black, a.white, a.black, s, t, e, 64, 64);
    lemma_ep_algebra(ks, kt, ke);
}

proof fn lemma_castle_algebra(ks: u64, kt: u64, kr: u64, kr2: u64, kx: u64)
    by (bit_vector)
    ensures
        (((0u64 ^ ks) ^ kt) ^ kr) ^ kr2 == ((((ks ^ 0u64) ^ (0u64 ^ 0u64)) ^ ((0u64 ^ kt) ^ (0u64 ^ 0u64))) ^ ((kr
            ^ 0u64) ^ (0u64 ^ 0u64))) ^ ((0u64 ^ kr2) ^ (kx ^ kx)),
{
}

/// For a castle, the moving side ends with its rook moved too, the other side
/// as after the first step.
proof fn lemma_castle_sides(p: Position, mv: u16)
    requires
        (p.us == WHITE && p.enemy == BLACK) || (p.us == BLACK && p.enemy == WHITE),
        code_of(mv) == 2 || code_of(mv) == 3,
    ensures
        after_sides(p, mv).side(p.us as int) == move_piece_spec(
            first_step(p, mv).side(p.us as int),
            castle_rook(mv).0 as u64,
            castle_rook(mv).1 as u64,
        ),
        after_sides(p, mv).side(p.enemy as int) == first_step(p, mv).side(p.enemy as int),
{
}

/// The keys a castle toggles.
proof fn lemma_castle_hash(p: Position, mv: u16)
    requires
        (p.us == WHITE && p.enemy == BLACK) || (p.us == BLACK && p.enemy == WHITE),
        code_of(mv) == 2 || code_of(mv) == 3,
        piece_at(p.side(p.enemy as int), target_of(mv) as int) == NONE,
    ensures
        ({
            let s = start_of(mv) as int;
            let t = target_of(mv) as int;
            let (rs, rt) = castle_rook(mv);
            let moving = piece_at(p.side(p.us as int), s) as int;
            let rook = piece_at(first_step(p, mv).side(p.us as int), rs) as int;
            pieces_hash(p, mv, 0) == (((0u64 ^ kkey(s, moving, p.us as int)) ^ kkey(t, moving, p.us as int)) ^ kkey(
                rs,
                rook,
                p.us as int,
            )) ^ kkey(rt, rook, p.us as int)
        }),
{
}

/// A castle changes the keys of the squares of its king and rook only, as
/// `pieces_hash` toggles them.
proof fn lemma_case_castle(p: Position, mv: u16)
    requires
        (p.us == WHITE && p.enemy == BLACK) || (p.us == BLACK && p.enemy == WHITE),
        apart(p.side(p.us as int), p.side(p.enemy as int)),
        move_fits(p, mv),
        code_of(mv) == 2 || code_of(mv) == 3,
    ensures
        changes(p.white, p.black, after_sides(p, mv).white, after_sides(p, mv).black, 64) == pieces_hash(p, mv, 0),
{
    let us = p.us as int;
    let them = p.enemy as int;
    let own = p.side(us);
    let other = p.side(them);
    let s = start_of(mv) as int;
    let t = target_of(mv) as int;
    let (rs, rt) = castle_rook(mv);
    let home: int = if p.us == WHITE { 0 } else { 56 };
    let a = after_sides(p, mv);
    lemma_first_step(p, mv);
    lemma_castle_sides(p, mv);
    let own1 = first_step(p, mv).side(us);
    let other1 = first_step(p, mv).side(them);
    let own2 = a.side(us);
    assert(rs == (if code_of(mv) == 2 { home + 7 } else { home }));
    assert(rt == (if code_of(mv) == 2 { home + 5 } else { home + 3 }));
    lemma_wf_square(own, rs);
    lemma_wf_square(own, rt);
    lemma_wf_square(other, t);
    lemma_apart_square(own, other, rs);
    assert(piece_at(own1, rs) == ROOK);
    assert(piece_at(own1, rt) == NONE);
    lemma_wf_square(own1, rs);
    lemma_wf_square(own1, rt);
    lemma_move_piece_at(own1, rs, rt);
    let moving = piece_at(own, s) as int;
    let ks = kkey(s, moving, us);
    let kt = kkey(t, moving, us);
    let kr = kkey(rs, ROOK as int, us);
    let kx = key_of(other, rt, them);
    assert forall|q: int| 0 <= q < 64 && q != s && q != t && q != rs && q != rt implies #[trigger] same_at(p, a, q) by {
        assert(piece_at(own2, q) == piece_at(own1, q));
    }
    lemma_unchanged(p, a, s, t, rs, rt);
    assert(key_change(p.white, p.black, a.white, a.black, s) == (ks ^ 0u64) ^ (0u64 ^ 0u64)) by {
        lemma_key_split(p, a, s);
        assert(piece_at(own2, s) == piece_at(own1, s));
    }
    assert(key_change(p.white, p.black, a.white, a.black, t) == (0u64 ^ kt) ^ (0u64 ^ 0u64)) by {
        lemma_key_split(p, a, t);
        assert(piece_at(own2, t) == piece_at(own1, t));
    }
    assert(key_change(p.white, p.black, a.white, a.black, rs) == (kr ^ 0u64) ^ (0u64 ^ 0u64)) by {
        lemma_key_split(p, a, rs);
        assert(piece_at(other1, rs) == piece_at(other, rs));
    }
    assert(key_change(p.white, p.black, a.white, a.black, rt) == (0u64 ^ kkey(rt, ROOK as int, us)) ^ (kx ^ kx)) by {
        lemma_key_split(p, a, rt);
        assert(piece_at(other1, rt) == piece_at(other, rt));
    }
    lemma_castle_hash(p, mv);
    lemma_changes_four(p.white, p.black, a.white, a.black, s, t, rs, rt, 64);
    lemma_castle_algebra(ks, kt, kr, kkey(rt, ROOK as int, us), kx);
}

proof fn lemma_lin(h: u64, x: u64, k: u64)
    by (bit_vector)
    ensures
        (h ^ x) ^ k == h ^ (x ^ k),
        (h ^ x) ^ k == h ^ ((0u64 ^ x) ^ k),
{
}

/// `pieces_hash` toggles keys that do not depend on the hash it starts from.
proof fn lemma_pieces_hash_linear(p: Position, mv: u16, h: u64)
    ensures
        pieces_hash(p, mv, h) == h ^ pieces_hash(p, mv, 0),
{
    let us = p.us as int;
    let them = p.enemy as int;
    let s = start_of(mv) as int;
    let t = target_of(mv) as int;
    let moving = piece_at(p.side(us), s) as int;
    let cap1 = piece_at(p.side(them), t) as int;
    let ka = kkey(s, moving, us);
    let kb = kkey(t, moving, us);
    let kc = kkey(t, cap1, them);
    let s0 = step_hash(p, mv, 0);
    assert(step_hash(p, mv, h) == h ^ s0) by {
        lemma_lin(h, ka, kb);
        lemma_lin(h, (0u64 ^ ka) ^ kb, kc);
    }
    let code = code_of(mv);
    let q = first_step(p, mv);
    if code == 2 || code == 3 {
        let (rs, rt) = castle_rook(mv);
        let rook = piece_at(q.side(us), rs) as int;
        lemma_lin(h, s0, kkey(rs, rook, us));
        lemma_lin(h, s0 ^ kkey(rs, rook, us), kkey(rt, rook, us));
    } else if code == 1 {
    } else if code == 5 {
        let e = ep_square(us, t);
        let c = piece_at(q.side(them), e) as int;
        lemma_lin(h, s0, kkey(e, c, them));
    } else if mv & 8 != 0 {
        let pc = piece_at(q.side(us), t) as int;
        let kp = kkey(t, ((mv & 3) + 1) as int, us);
        lemma_lin(h, s0, kkey(t, pc, us));
        if pc != NONE {
            lemma_lin(h, s0 ^ kkey(t, pc, us), kp);
        } else {
            lemma_lin(h, s0, kp);
        }
    }
}

proof fn lemma_final_algebra(pk: u64, d: u64, co: u64, eo: u64, cn: u64, en: u64, sk: u64)
    by (bit_vector)
    ensures
        ((((((pk ^ co) ^ eo) ^ co) ^ eo) ^ d) ^ en ^ sk) ^ cn == (((pk ^ d) ^ cn) ^ en) ^ sk,
        (((((((pk ^ co) ^ eo) ^ sk) ^ co) ^ eo) ^ d) ^ en ^ sk) ^ cn == ((pk ^ d) ^ cn) ^ en,
{
}

/// Making a move keeps the hash that the board carries equal to the hash of
/// the position computed from scratch: when the hash of a consistent position
/// is its Zobrist hash, so is the hash after any move that fits it.
pub proof fn law_make_keeps_hash(p: Position, mg: MoveGenerator, mv: u16)
    requires
        position_wf(p, mg),
        move_fits(p, mv),
        p.hash == position_hash(p),
    ensures
        made(p, mg, mv).hash == position_hash(made(p, mg, mv)),
{
    let us = p.us as int;
    let them = p.enemy as int;
    let code = code_of(mv);
    let a = after_sides(p, mv);
    let m = made(p, mg, mv);
    lemma_xor(all_of(p.white), all_of(p.black), 0, 0);
    assert(apart(p.side(us), p.side(them)));
    if code == 2 || code == 3 {
        lemma_case_castle(p, mv);
    } else if code == 5 {
        lemma_case_ep(p, mv);
    } else if mv & 8 != 0 {
        lemma_case_promo(p, mv);
    } else {
        lemma_case_plain(p, mv);
    }
    assert(m.white == a.white && m.black == a.black);
    let d = pieces_hash(p, mv, 0);
    lemma_pieces_key_changes(p.white, p.black, a.white, a.black, 64);
    let pk = pieces_key(p.white, p.black, 64);
    assert(pieces_key(m.white, m.black, 64) == pk ^ d);
    let st = p.state;
    let ns = made_state(p, mv);
    let co = zobrist_key((768 + castling_of(st)) as u64);
    let cn = zobrist_key((768 + castling_of(ns)) as u64);
    let eo = if ep_file_of(st) != 0 { zobrist_key((784 + ep_file_of(st) - 1) as u64) } else { 0 };
    let en = if ep_file_of(ns) != 0 { zobrist_key((784 + ep_file_of(ns) - 1) as u64) } else { 0 };
    let sk = zobrist_key(792);
    lemma_xor(pk ^ co, 0, 0, 0);
    lemma_xor((pk ^ d) ^ cn, 0, 0, 0);
    let h0 = p.hash ^ co;
    lemma_xor(h0, 0, 0, 0);
    let h1 = h0 ^ eo;
    lemma_pieces_hash_linear(p, mv, h1);
    lemma_xor(h1 ^ d, 0, 0, 0);
    assert(m.hash == (((h1 ^ d) ^ en) ^ sk) ^ cn);
    lemma_final_algebra(pk, d, co, eo, cn, en, sk);
    if p.us == WHITE {
        assert(p.hash == (pk ^ co) ^ eo);
        assert(position_hash(m) == (((pk ^ d) ^ cn) ^ en) ^ sk);
    } else {
        assert(p.hash == ((pk ^ co) ^ eo) ^ sk);
        assert(position_hash(m) == ((pk ^ d) ^ cn) ^ en);
    }
}
} // verus!
