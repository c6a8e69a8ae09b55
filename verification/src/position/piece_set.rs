use vstd::prelude::*;
use crate::bits::{lemma_bits, lemma_bits_all, lemma_bit_single, lemma_bits_ext, lemma_square_masks};
use crate::constants::{bit, PAWN, KNIGHT, BISHOP, ROOK, QUEEN, KING, NONE, WHITE, BLACK};

verus! {

/// The pieces of one side. Rooks and queens are kept in `orthogonals`,
/// bishops and queens in `diagonals`, so a queen is a square set in both.
#[derive(Clone, Copy)]
pub struct PieceSet {
    pawns: u64,
    orthogonals: u64,
    diagonals: u64,
    knights: u64,
    king: u64,
    color: usize,
}

/// The mathematical content of a `PieceSet`.
pub struct Pieces {
    pub pawns: u64,
    pub orthogonals: u64,
    pub diagonals: u64,
    pub knights: u64,
    pub king: u64,
    pub color: usize,
}

impl View for PieceSet {
    type V = Pieces;

    closed spec fn view(&self) -> Pieces {
        Pieces {
            pawns: self.pawns,
            orthogonals: self.orthogonals,
            diagonals: self.diagonals,
            knights: self.knights,
            king: self.king,
            color: self.color,
        }
    }
}

/// `b` with square `s` removed and square `t` added.
pub open spec fn moved(b: u64, s: u64, t: u64) -> u64 {
    (b & !(1u64 << s)) | (1u64 << t)
}

/// Union of all pieces of a set.
pub open spec fn all_of(p: Pieces) -> u64 {
    p.pawns | p.orthogonals | p.diagonals | p.knights | p.king
}

/// The piece code on square `sq` as `get_piece_at` reads it: pawn, then queen,
/// rook, bishop, knight, king, else `NONE`.
pub open spec fn piece_at(p: Pieces, sq: int) -> usize {
    if bit(p.pawns, sq) {
        PAWN
    } else if bit(p.orthogonals, sq) && bit(p.diagonals, sq) {
        QUEEN
    } else if bit(p.orthogonals, sq) {
        ROOK
    } else if bit(p.diagonals, sq) {
        BISHOP
    } else if bit(p.knights, sq) {
        KNIGHT
    } else if bit(p.king, sq) {
        KING
    } else {
        NONE
    }
}

/// A well-formed piece set: the kinds of pieces do not share squares (apart
/// from queens, which sit in both slider boards).
pub open spec fn pieces_wf(p: Pieces) -> bool {
    &&& p.pawns & (p.orthogonals | p.diagonals | p.knights | p.king) == 0
    &&& (p.orthogonals | p.diagonals) & (p.knights | p.king) == 0
    &&& p.knights & p.king == 0
    &&& (p.color == WHITE || p.color == BLACK)
}

/// The set with every piece but a king removed from `sq`.
pub open spec fn take_spec(o: Pieces, sq: int) -> Pieces {
    let m = !(1u64 << (sq as u64));
    Pieces {
        pawns: o.pawns & m,
        orthogonals: o.orthogonals & m,
        diagonals: o.diagonals & m,
        knights: o.knights & m,
        ..o
    }
}

/// The set with a piece of kind `piece` added on `sq` (a queen in both slider boards).
pub open spec fn add_spec(o: Pieces, sq: int, piece: int) -> Pieces {
    let m = 1u64 << (sq as u64);
    if piece == PAWN {
        Pieces { pawns: o.pawns | m, ..o }
    } else if piece == ROOK {
        Pieces { orthogonals: o.orthogonals | m, ..o }
    } else if piece == BISHOP {
        Pieces { diagonals: o.diagonals | m, ..o }
    } else if piece == KNIGHT {
        Pieces { knights: o.knights | m, ..o }
    } else if piece == KING {
        Pieces { king: o.king | m, ..o }
    } else {
        Pieces { orthogonals: o.orthogonals | m, diagonals: o.diagonals | m, ..o }
    }
}

/// Squares of the king and rook before and after a castle, per side.
pub open spec fn castle_king_home(color: usize) -> u64 {
    if color == WHITE { 0x10 } else { 0x1000000000000000 }
}

proof fn lemma_bit_of_shift(b: u64, s: u64)
    requires
        s < 64,
    ensures
        (b & (1u64 << s) != 0) == bit(b, s as int),
        ((1u64 << s) & b != 0) == bit(b, s as int),
{
    lemma_bits(b, 0, s as int);
}

proof fn lemma_moved_bits(b: u64, s: u64, t: u64)
    requires
        s < 64,
        t < 64,
        s != t,
    ensures
        bit(moved(b, s, t), t as int),
        !bit(moved(b, s, t), s as int),
        bit(b, s as int) && !bit(b, t as int) ==> moved(moved(b, s, t), t, s) == b,
        bit(1u64 << t, t as int),
        !bit(1u64 << t, s as int),
        forall|q: int| 0 <= q < 64 ==> #[trigger] bit(moved(b, s, t), q) == (q == t || (q != s && bit(b, q))),
{
    let ms = 1u64 << s;
    let mt = 1u64 << t;
    let m = moved(b, s, t);
    assert forall|q: int| 0 <= q < 64 implies #[trigger] bit(m, q) == (q == t || (q != s && bit(b, q))) by {
        lemma_bits(b, !ms, q);
        lemma_bits(b & !ms, mt, q);
        lemma_bits(ms, 0, q);
        lemma_bit_single(s as int, q);
        lemma_bit_single(t as int, q);
    }
    lemma_bit_single(t as int, t as int);
    lemma_bit_single(t as int, s as int);
    if bit(b, s as int) && !bit(b, t as int) {
        let m2 = moved(m, t, s);
        assert forall|q: int| 0 <= q < 64 implies bit(m2, q) == bit(b, q) by {
            lemma_bits(m, !mt, q);
            lemma_bits(m & !mt, ms, q);
            lemma_bits(mt, 0, q);
            lemma_bit_single(s as int, q);
            lemma_bit_single(t as int, q);
        }
        lemma_bits_ext(m2, b);
    }
}

impl PieceSet {
    pub fn new(color: usize) -> (r: Self)
        ensures
            r@ == (Pieces { pawns: 0, orthogonals: 0, diagonals: 0, knights: 0, king: 0, color }),
    {
        PieceSet { pawns: 0, orthogonals: 0, diagonals: 0, knights: 0, king: 0, color }
    }

    pub fn get_all(&self) -> (r: u64)
        ensures
            r == all_of(self@),
    {
        self.pawns | self.orthogonals | self.diagonals | self.knights | self.king
    }

    pub fn get_queens(&self) -> (r: u64)
        ensures
            r == self@.diagonals & self@.orthogonals,
    {
        self.diagonals & self.orthogonals
    }

    /// Rooks that are not queens.
    pub fn get_rooks(&self) -> (r: u64)
        ensures
            r == self@.orthogonals & !self@.diagonals,
    {
        self.orthogonals & !self.diagonals
    }

    /// Bishops that are not queens.
    pub fn get_bishops(&self) -> (r: u64)
        ensures
            r == self@.diagonals & !self@.orthogonals,
    {
        self.diagonals & !self.orthogonals
    }

    /// The piece code on `field`, or `NONE`.
    pub fn get_piece_at(&self, field: usize) -> (r: usize)
        requires
            field < 64,
        ensures
            r == piece_at(self@, field as int),
    {
        let pointer: u64 = 1u64 << field;
        proof {
            lemma_bit_of_shift(self.pawns, field as u64);
            lemma_bit_of_shift(self.orthogonals, field as u64);
            lemma_bit_of_shift(self.diagonals, field as u64);
            lemma_bit_of_shift(self.knights, field as u64);
            lemma_bit_of_shift(self.king, field as u64);
        }
        if pointer & self.pawns != 0 {
            return PAWN;
        }
        let is_orthogonal = pointer & self.orthogonals != 0;
        let is_diagonal = pointer & self.diagonals != 0;
        if is_orthogonal && is_diagonal {
            return QUEEN;
        }
        if is_orthogonal {
            return ROOK;
        }
        if is_diagonal {
            return BISHOP;
        }
        if pointer & self.knights != 0 {
            return KNIGHT;
        }
        if pointer & self.king != 0 {
            return KING;
        }
        NONE
    }

    /// Moves the king to c1 (c8) and the rook from a1 (a8) to d1 (d8).
    pub fn make_queenside_castle(&mut self)
        ensures
            final(self)@.color == old(self)@.color,
            final(self)@.pawns == old(self)@.pawns,
            final(self)@.diagonals == old(self)@.diagonals,
            final(self)@.knights == old(self)@.knights,
            old(self)@.color == WHITE ==> final(self)@.king == 0x4 && final(self)@.orthogonals
                == moved(old(self)@.orthogonals, 0, 3),
            old(self)@.color != WHITE ==> final(self)@.king == 0x400000000000000
                && final(self)@.orthogonals == moved(old(self)@.orthogonals, 56, 59),
    {
        if self.color == WHITE {
            self.king = 0b100;
            self.orthogonals = (self.orthogonals & !1u64) | 0b1000u64;
        } else {
            self.king = 0x400000000000000;
            self.orthogonals = (self.orthogonals & !0x100000000000000u64) | 0x800000000000000u64;
        }
        proof {
            lemma_square_masks();
        }
    }

    /// Puts the king back on e1 (e8) and the rook from d1 (d8) back to a1 (a8).
    pub fn unmake_queenside_castle(&mut self)
        ensures
            final(self)@.color == old(self)@.color,
            final(self)@.pawns == old(self)@.pawns,
            final(self)@.diagonals == old(self)@.diagonals,
            final(self)@.knights == old(self)@.knights,
            final(self)@.king == castle_king_home(old(self)@.color),
            old(self)@.color == WHITE ==> final(self)@.orthogonals == moved(old(self)@.orthogonals, 3, 0),
            old(self)@.color != WHITE ==> final(self)@.orthogonals == moved(old(self)@.orthogonals, 59, 56),
    {
        if self.color == WHITE {
            self.king = 0x10;
            self.orthogonals = (self.orthogonals & !0b1000u64) | 1u64;
        } else {
            self.king = 0x1000000000000000;
            self.orthogonals = (self.orthogonals & !0x800000000000000u64) | 0x100000000000000u64;
        }
        proof {
            lemma_square_masks();
        }
    }

    /// Moves the king to g1 (g8) and the rook from h1 (h8) to f1 (f8).
    pub fn make_kingside_castle(&mut self)
        ensures
            final(self)@.color == old(self)@.color,
            final(self)@.pawns == old(self)@.pawns,
            final(self)@.diagonals == old(self)@.diagonals,
            final(self)@.knights == old(self)@.knights,
            old(self)@.color == WHITE ==> final(self)@.king == 0x40 && final(self)@.orthogonals
                == moved(old(self)@.orthogonals, 7, 5),
            old(self)@.color != WHITE ==> final(self)@.king == 0x4000000000000000
                && final(self)@.orthogonals == moved(old(self)@.orthogonals, 63, 61),
    {
        if self.color == WHITE {
            self.king = 0x40;
            self.orthogonals = (self.orthogonals & !0x80u64) | 0x20u64;
        } else {
            self.king = 0x4000000000000000;
            self.orthogonals = (self.orthogonals & !0x8000000000000000u64) | 0x2000000000000000u64;
        }
        proof {
            lemma_square_masks();
        }
    }

    /// Puts the king back on e1 (e8) and the rook from f1 (f8) back to h1 (h8).
    pub fn unmake_kingside_castle(&mut self)
        ensures
            final(self)@.color == old(self)@.color,
            final(self)@.pawns == old(self)@.pawns,
            final(self)@.diagonals == old(self)@.diagonals,
            final(self)@.knights == old(self)@.knights,
            final(self)@.king == castle_king_home(old(self)@.color),
            old(self)@.color == WHITE ==> final(self)@.orthogonals == moved(old(self)@.orthogonals, 5, 7),
            old(self)@.color != WHITE ==> final(self)@.orthogonals == moved(old(self)@.orthogonals, 61, 63),
    {
        if self.color == WHITE {
            self.king = 0x10;
            self.orthogonals = (self.orthogonals & !0x20u64) | 0x80u64;
        } else {
            self.king = 0x1000000000000000;
            self.orthogonals = (self.orthogonals & !0x2000000000000000u64) | 0x8000000000000000u64;
        }
        proof {
            lemma_square_masks();
        }
    }

    /// Moves whatever stands on `start` to `target`: a pawn alone; otherwise
    /// the slider boards holding `start`, then (unless a bishop or queen moved)
    /// a knight, then a king.
    pub fn move_piece(&mut self, start: usize, target: usize)
        requires
            start < 64,
            target < 64,
        ensures
            ({
                let o = old(self)@;
                let n = final(self)@;
                let s = start as u64;
                let t = target as u64;
                &&& n.color == o.color
                &&& bit(o.pawns, s as int) ==> n == Pieces { pawns: moved(o.pawns, s, t), ..o }
                &&& !bit(o.pawns, s as int) ==> {
                    &&& n.pawns == o.pawns
                    &&& n.orthogonals == (if bit(o.orthogonals, s as int) { moved(o.orthogonals, s, t) } else { o.orthogonals })
                    &&& n.diagonals == (if bit(o.diagonals, s as int) { moved(o.diagonals, s, t) } else { o.diagonals })
                    &&& n.knights == (if !bit(o.diagonals, s as int) && bit(o.knights, s as int) { moved(o.knights, s, t) } else { o.knights })
                    &&& n.king == (if !bit(o.diagonals, s as int) && !bit(o.knights, s as int) && bit(o.king, s as int) { 1u64 << t } else { o.king })
                }
            }),
    {
        let start_mask: u64 = 1u64 << start;
        let target_mask: u64 = 1u64 << target;
        proof {
            lemma_bit_of_shift(self.pawns, start as u64);
            lemma_bit_of_shift(self.orthogonals, start as u64);
            lemma_bit_of_shift(self.diagonals, start as u64);
            lemma_bit_of_shift(self.knights, start as u64);
            lemma_bit_of_shift(self.king, start as u64);
        }
        if start_mask & self.pawns != 0 {
            self.pawns = (self.pawns & !start_mask) | target_mask;
            return;
        }
        if start_mask & self.orthogonals != 0 {
            self.orthogonals = (self.orthogonals & !start_mask) | target_mask;
        }
        if start_mask & self.diagonals != 0 {
            self.diagonals = (self.diagonals & !start_mask) | target_mask;
            return;
        }
        if start_mask & self.knights != 0 {
            self.knights = (self.knights & !start_mask) | target_mask;
            return;
        }
        if start_mask & self.king != 0 {
            self.king = target_mask;
        }
    }

    /// Removes a pawn, knight, bishop, rook or queen from `field` (a king stays).
    pub fn take(&mut self, field: usize)
        requires
            field < 64,
        ensures
            final(self)@ == take_spec(old(self)@, field as int),
    {
        let mask: u64 = !(1u64 << field);
        self.pawns = self.pawns & mask;
        self.diagonals = self.diagonals & mask;
        self.orthogonals = self.orthogonals & mask;
        self.knights = self.knights & mask;
    }

    /// Puts a piece of type `piece_type` on `field` (a queen into both slider boards).
    pub fn add_piece(&mut self, field: usize, piece_type: usize)
        requires
            field < 64,
            piece_type < 6,
        ensures
            final(self)@ == add_spec(old(self)@, field as int, piece_type as int),
    {
        let mask: u64 = 1u64 << field;
        if piece_type == PAWN {
            self.pawns = self.pawns | mask;
        } else if piece_type == ROOK {
            self.orthogonals = self.orthogonals | mask;
        } else if piece_type == BISHOP {
            self.diagonals = self.diagonals | mask;
        } else if piece_type == KNIGHT {
            self.knights = self.knights | mask;
        } else if piece_type == KING {
            self.king = self.king | mask;
        } else {
            self.orthogonals = self.orthogonals | mask;
            self.diagonals = self.diagonals | mask;
        }
    }

    pub fn get_pawns(&self) -> (r: u64)
        ensures
            r == self@.pawns,
    {
        self.pawns
    }

    pub fn set_pawns(&mut self, pawns: u64)
        ensures
            final(self)@ == (Pieces { pawns, ..old(self)@ }),
    {
        self.pawns = pawns;
    }

    /// Rooks and queens.
    pub fn get_orthogonals(&self) -> (r: u64)
        ensures
            r == self@.orthogonals,
    {
        self.orthogonals
    }

    pub fn set_orthognals(&mut self, orthogonals: u64)
        ensures
            final(self)@ == (Pieces { orthogonals, ..old(self)@ }),
    {
        self.orthogonals = orthogonals;
    }

    pub fn get_knights(&self) -> (r: u64)
        ensures
            r == self@.knights,
    {
        self.knights
    }

    pub fn set_knights(&mut self, knights: u64)
        ensures
            final(self)@ == (Pieces { knights, ..old(self)@ }),
    {
        self.knights = knights;
    }

    /// Bishops and queens.
    pub fn get_diagonals(&self) -> (r: u64)
        ensures
            r == self@.diagonals,
    {
        self.diagonals
    }

    pub fn set_diagonals(&mut self, diagonals: u64)
        ensures
            final(self)@ == (Pieces { diagonals, ..old(self)@ }),
    {
        self.diagonals = diagonals;
    }

    pub fn get_king(&self) -> (r: u64)
        ensures
            r == self@.king,
    {
        self.king
    }

    pub fn set_king(&mut self, king: u64)
        ensures
            final(self)@ == (Pieces { king, ..old(self)@ }),
    {
        self.king = king;
    }

    pub fn get_color(&self) -> (r: usize)
        ensures
            r == self@.color,
    {
        self.color
    }

    /// The six bitboards indexed by piece code. Queens are held in the rook and
    /// bishop boards, so the queen slot is empty.
    pub fn iter(&self) -> (r: Vec<u64>)
        ensures
            r@ == seq![self@.pawns, self@.knights, self@.diagonals, self@.orthogonals, 0u64, self@.king],
    {
        let v = vec![self.pawns, self.knights, self.diagonals, self.orthogonals, 0u64, self.king];
        proof {
            assert(v@ =~= seq![self@.pawns, self@.knights, self@.diagonals, self@.orthogonals, 0u64, self@.king]);
        }
        v
    }

    /// The six bitboards paired with their piece codes.
    pub fn iter_w_vals(&self) -> (r: Vec<(u64, usize)>)
        ensures
            r@ == seq![(self@.pawns, PAWN), (self@.knights, KNIGHT), (self@.diagonals, BISHOP),
                (self@.orthogonals, ROOK), (0u64, QUEEN), (self@.king, KING)],
    {
        let v = vec![(self.pawns, PAWN), (self.knights, KNIGHT), (self.diagonals, BISHOP),
            (self.orthogonals, ROOK), (0u64, QUEEN), (self.king, KING)];
        proof {
            assert(v@ =~= seq![(self@.pawns, PAWN), (self@.knights, KNIGHT), (self@.diagonals, BISHOP),
                (self@.orthogonals, ROOK), (0u64, QUEEN), (self@.king, KING)]);
        }
        v
    }
}

/// Undoing a kingside castle restores the pieces, when the king stood on its
/// home square and the rook on its corner with the square between them free.
pub proof fn law_kingside_castle_round_trip(o: Pieces)
    requires
        o.color == WHITE ==> o.king == 0x10 && bit(o.orthogonals, 7) && !bit(o.orthogonals, 5),
        o.color != WHITE ==> o.king == 0x1000000000000000 && bit(o.orthogonals, 63) && !bit(o.orthogonals, 61),
    ensures
        o.color == WHITE ==> moved(moved(o.orthogonals, 7, 5), 5, 7) == o.orthogonals
            && castle_king_home(o.color) == o.king,
        o.color != WHITE ==> moved(moved(o.orthogonals, 63, 61), 61, 63) == o.orthogonals
            && castle_king_home(o.color) == o.king,
{
    lemma_moved_bits(o.orthogonals, 7, 5);
    lemma_moved_bits(o.orthogonals, 63, 61);
}

/// Undoing a queenside castle restores the pieces, when the king stood on its
/// home square and the rook on its corner with its target square free.
pub proof fn law_queenside_castle_round_trip(o: Pieces)
    requires
        o.color == WHITE ==> o.king == 0x10 && bit(o.orthogonals, 0) && !bit(o.orthogonals, 3),
        o.color != WHITE ==> o.king == 0x1000000000000000 && bit(o.orthogonals, 56) && !bit(o.orthogonals, 59),
    ensures
        o.color == WHITE ==> moved(moved(o.orthogonals, 0, 3), 3, 0) == o.orthogonals
            && castle_king_home(o.color) == o.king,
        o.color != WHITE ==> moved(moved(o.orthogonals, 56, 59), 59, 56) == o.orthogonals
            && castle_king_home(o.color) == o.king,
{
    lemma_moved_bits(o.orthogonals, 0, 3);
    lemma_moved_bits(o.orthogonals, 56, 59);
}

/// Moving a piece from one square to another and back restores the set, for
/// a well-formed set with a piece on the start square and the target square
/// free of own pieces.
pub proof fn law_move_piece_round_trip(o: Pieces, s: u64, t: u64)
    requires
        s < 64,
        t < 64,
        s != t,
        pieces_wf(o),
        bit(all_of(o), s as int),
        !bit(all_of(o), t as int),
        bit(o.king, s as int) ==> o.king == (1u64 << s),
    ensures
        move_piece_spec(move_piece_spec(o, s, t), t, s) == o,
{
    lemma_move_piece_round_trip(o, s, t);
}

/// The result of `move_piece` on a set, as its contract states it.
pub open spec fn move_piece_spec(o: Pieces, s: u64, t: u64) -> Pieces {
    if bit(o.pawns, s as int) {
        Pieces { pawns: moved(o.pawns, s, t), ..o }
    } else {
        Pieces {
            pawns: o.pawns,
            orthogonals: if bit(o.orthogonals, s as int) { moved(o.orthogonals, s, t) } else { o.orthogonals },
            diagonals: if bit(o.diagonals, s as int) { moved(o.diagonals, s, t) } else { o.diagonals },
            knights: if !bit(o.diagonals, s as int) && bit(o.knights, s as int) { moved(o.knights, s, t) } else { o.knights },
            king: if !bit(o.diagonals, s as int) && !bit(o.knights, s as int) && bit(o.king, s as int) { 1u64 << t } else { o.king },
            color: o.color,
        }
    }
}

proof fn lemma_move_piece_round_trip(o: Pieces, s: u64, t: u64)
    requires
        s < 64,
        t < 64,
        s != t,
        pieces_wf(o),
        bit(all_of(o), s as int),
        !bit(all_of(o), t as int),
        bit(o.king, s as int) ==> o.king == (1u64 << s),
    ensures
        move_piece_spec(move_piece_spec(o, s, t), t, s) == o,
{
    let (p, r, d, n, k) = (o.pawns, o.orthogonals, o.diagonals, o.knights, o.king);
    lemma_moved_bits(p, s, t);
    lemma_moved_bits(r, s, t);
    lemma_moved_bits(d, s, t);
    lemma_moved_bits(n, s, t);
    lemma_moved_bits(k, s, t);
    lemma_moved_bits(p, t, s);
    lemma_moved_bits(r, t, s);
    lemma_moved_bits(d, t, s);
    lemma_moved_bits(n, t, s);
    lemma_moved_bits(k, t, s);
    // the boards of a well-formed set at one square
    assert(forall|q: int| 0 <= q < 64 ==> (bit(all_of(o), q) <==> (bit(p, q) || bit(r, q) || bit(d, q)
        || bit(n, q) || bit(k, q)))) by {
        assert forall|q: int| 0 <= q < 64 implies (bit(all_of(o), q) <==> (bit(p, q) || bit(r, q) || bit(d, q)
            || bit(n, q) || bit(k, q))) by {
            lemma_bits(p, r, q);
            lemma_bits(p | r, d, q);
            lemma_bits(p | r | d, n, q);
            lemma_bits(p | r | d | n, k, q);
        }
    }
    assert(forall|q: int| 0 <= q < 64 ==> (bit(p, q) ==> !bit(r, q) && !bit(d, q) && !bit(n, q) && !bit(k, q))
        && ((bit(r, q) || bit(d, q)) ==> !bit(n, q) && !bit(k, q)) && (bit(n, q) ==> !bit(k, q))) by {
        assert forall|q: int| 0 <= q < 64 implies (bit(p, q) ==> !bit(r, q) && !bit(d, q) && !bit(n, q) && !bit(k, q))
            && ((bit(r, q) || bit(d, q)) ==> !bit(n, q) && !bit(k, q)) && (bit(n, q) ==> !bit(k, q)) by {
            lemma_bits(r, d, q);
            lemma_bits(n, k, q);
            lemma_bits(r | d, n, q);
            lemma_bits(r | d | n, k, q);
            lemma_bits(p, r | d | n | k, q);
            lemma_bits(r | d, n | k, q);
            lemma_bits(0, 0, q);
        }
    }
    let m1 = move_piece_spec(o, s, t);
    let m2 = move_piece_spec(m1, t, s);
    assert(bit(1u64 << s, s as int));
    assert(!bit(1u64 << t, s as int) && bit(1u64 << t, t as int));
    assert(m2.pawns == o.pawns);
    assert(m2.orthogonals == o.orthogonals);
    assert(m2.diagonals == o.diagonals);
    assert(m2.knights == o.knights);
    assert(m2.king == o.king);
}

/// The boards of a well-formed set on one square: what each kind excludes,
/// and which squares the union holds.
pub proof fn lemma_wf_square(o: Pieces, q: int)
    requires
        pieces_wf(o),
        0 <= q < 64,
    ensures
        bit(o.pawns, q) ==> !bit(o.orthogonals, q) && !bit(o.diagonals, q) && !bit(o.knights, q) && !bit(o.king, q),
        (bit(o.orthogonals, q) || bit(o.diagonals, q)) ==> !bit(o.knights, q) && !bit(o.king, q),
        bit(o.knights, q) ==> !bit(o.king, q),
        bit(all_of(o), q) <==> (bit(o.pawns, q) || bit(o.orthogonals, q) || bit(o.diagonals, q) || bit(o.knights, q)
            || bit(o.king, q)),
        (piece_at(o, q) == NONE) <==> !bit(all_of(o), q),
{
    let (p, r, d, n, k) = (o.pawns, o.orthogonals, o.diagonals, o.knights, o.king);
    lemma_bits(r, d, q);
    lemma_bits(n, k, q);
    lemma_bits(r | d, n, q);
    lemma_bits(r | d | n, k, q);
    lemma_bits(p, r | d | n | k, q);
    lemma_bits(r | d, n | k, q);
    lemma_bits(0, 0, q);
    lemma_bits(p, r, q);
    lemma_bits(p | r, d, q);
    lemma_bits(p | r | d, n, q);
    lemma_bits(p | r | d | n, k, q);
}

/// Clearing a bit and setting it again restores a board that held it; clearing
/// a bit a board does not hold changes nothing.
pub proof fn lemma_clear_set(x: u64, sq: int)
    requires
        0 <= sq < 64,
    ensures
        bit(x, sq) ==> (x & !(1u64 << (sq as u64))) | (1u64 << (sq as u64)) == x,
        !bit(x, sq) ==> x & !(1u64 << (sq as u64)) == x,
        !bit(x, sq) ==> (x | (1u64 << (sq as u64))) & !(1u64 << (sq as u64)) == x,
{
    let m = 1u64 << (sq as u64);
    lemma_bits_all(x, !m);
    lemma_bits_all(x & !m, m);
    lemma_bits_all(m, 0);
    lemma_bits_all(x, m);
    lemma_bits_all(x | m, !m);
    assert forall|q: int| 0 <= q < 64 implies #[trigger] bit(m, q) == (q == sq) by {
        lemma_bit_single(sq, q);
    }
    if bit(x, sq) {
        lemma_bits_ext((x & !m) | m, x);
    } else {
        lemma_bits_ext(x & !m, x);
        lemma_bits_ext((x | m) & !m, x);
    }
}

/// Taking a piece other than a king from a square and adding a piece of the
/// same kind back restores a well-formed set.
pub proof fn lemma_take_add(o: Pieces, sq: int)
    requires
        pieces_wf(o),
        0 <= sq < 64,
        bit(all_of(o), sq),
        !bit(o.king, sq),
    ensures
        add_spec(take_spec(o, sq), sq, piece_at(o, sq) as int) == o,
{
    lemma_wf_square(o, sq);
    lemma_clear_set(o.pawns, sq);
    lemma_clear_set(o.orthogonals, sq);
    lemma_clear_set(o.diagonals, sq);
    lemma_clear_set(o.knights, sq);
}

/// Removing from a square that holds nothing changes nothing.
pub proof fn lemma_take_empty(o: Pieces, sq: int)
    requires
        pieces_wf(o),
        0 <= sq < 64,
        !bit(all_of(o), sq),
    ensures
        take_spec(o, sq) == o,
        piece_at(o, sq) == NONE,
{
    lemma_wf_square(o, sq);
    lemma_clear_set(o.pawns, sq);
    lemma_clear_set(o.orthogonals, sq);
    lemma_clear_set(o.diagonals, sq);
    lemma_clear_set(o.knights, sq);
}

/// The squares of a board after moving bit `s` to bit `t`, and the round trip
/// of such a move.
pub proof fn lemma_moved_bits_pub(b: u64, s: u64, t: u64)
    requires
        s < 64,
        t < 64,
        s != t,
    ensures
        forall|q: int| 0 <= q < 64 ==> #[trigger] bit(moved(b, s, t), q) == (q == t || (q != s && bit(b, q))),
        bit(b, s as int) && !bit(b, t as int) ==> moved(moved(b, s, t), t, s) == b,
{
    lemma_moved_bits(b, s, t);
}

/// A word with no bit set is zero.
proof fn lemma_zero_of_bits(x: u64)
    requires
        forall|i: int| 0 <= i < 64 ==> !#[trigger] bit(x, i),
    ensures
        x == 0,
{
    assert forall|i: int| 0 <= i < 64 implies bit(x, i) == bit(0u64, i) by {
        lemma_bits(0, 0, i);
    }
    lemma_bits_ext(x, 0);
}

/// On square `q` the kinds of pieces of a set do not overlap.
pub open spec fn square_ok(o: Pieces, q: int) -> bool {
    &&& bit(o.pawns, q) ==> !bit(o.orthogonals, q) && !bit(o.diagonals, q) && !bit(o.knights, q) && !bit(o.king, q)
    &&& (bit(o.orthogonals, q) || bit(o.diagonals, q)) ==> !bit(o.knights, q) && !bit(o.king, q)
    &&& bit(o.knights, q) ==> !bit(o.king, q)
}

/// Well-formedness of a set read square by square.
pub proof fn lemma_wf_bits(o: Pieces)
    requires
        o.color == WHITE || o.color == BLACK,
        forall|q: int| 0 <= q < 64 ==> #[trigger] square_ok(o, q),
    ensures
        pieces_wf(o),
{
    let (pw, r, d, n, k) = (o.pawns, o.orthogonals, o.diagonals, o.knights, o.king);
    assert forall|i: int| 0 <= i < 64 implies !#[trigger] bit(pw & (r | d | n | k), i) by {
        lemma_bits(pw, r | d | n | k, i);
        lemma_bits(r | d | n, k, i);
        lemma_bits(r | d, n, i);
        lemma_bits(r, d, i);
        assert(square_ok(o, i));
    }
    lemma_zero_of_bits(pw & (r | d | n | k));
    assert forall|i: int| 0 <= i < 64 implies !#[trigger] bit((r | d) & (n | k), i) by {
        lemma_bits(r | d, n | k, i);
        lemma_bits(r, d, i);
        lemma_bits(n, k, i);
        assert(square_ok(o, i));
    }
    lemma_zero_of_bits((r | d) & (n | k));
    assert forall|i: int| 0 <= i < 64 implies !#[trigger] bit(n & k, i) by {
        lemma_bits(n, k, i);
        assert(square_ok(o, i));
    }
    lemma_zero_of_bits(n & k);
}

} // verus!
