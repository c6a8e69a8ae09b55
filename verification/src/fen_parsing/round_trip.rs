use vstd::prelude::*;
use crate::constants::{bit, WHITE, BLACK, PAWN, KNIGHT, BISHOP, ROOK, QUEEN, KING, NONE};
use crate::bits::{lemma_bits, lemma_bit_single, lemma_bits_ext};
use crate::position::board::Position;
use crate::position::board_state::{castling_of, ep_file_of, kingside_mask, queenside_mask, halfmove_of, move_clock_of};
use crate::position::piece_set::{Pieces, piece_at, pieces_wf, add_spec, lemma_wf_square, all_of, square_ok,
    lemma_wf_bits};
use crate::text::{split_on, decimal, digit_char, digit_value, digits_value, all_digits, parse_u32_spec,
    lemma_split_nonempty, file_char, utf8_len_of};
use crate::fen_parsing::fen_parsing::{piece_of_char, ReadState, rank_step, rank_from, ranks_from, no_pieces,
    pieces_parse, FenPosition, FenFault, parse_fen_spec, castling_from, castling_parse, en_passant_parse, file_number};
use crate::fen_parsing::parse_to_fen::{fen_char, skip_text, rank_text, placement_text, fen_text, castling_text,
    en_passant_text};

verus! {

/// A text without the separator splits into itself alone.
pub proof fn lemma_split_none(a: Seq<char>, sep: char)
    requires
        !a.contains(sep),
    ensures
        split_on(a, sep) == seq![a],
    decreases a.len(),
{
    if a.len() > 0 {
        assert(!a.drop_last().contains(sep)) by {
            if a.drop_last().contains(sep) {
                let i = choose|i: int| 0 <= i < a.drop_last().len() && a.drop_last()[i] == sep;
                assert(a[i] == sep);
            }
        }
        lemma_split_none(a.drop_last(), sep);
        assert(a.last() != sep) by {
            assert(a[a.len() - 1] == a.last());
        }
        assert(a.drop_last().push(a.last()) =~= a);
    } else {
        assert(a =~= Seq::<char>::empty());
    }
}

/// A text without the separator, then the separator, then the rest: the
/// first piece is that text, the others those of the rest.
pub proof fn lemma_split_append(a: Seq<char>, b: Seq<char>, sep: char)
    requires
        !a.contains(sep),
    ensures
        split_on(a + seq![sep] + b, sep) == seq![a] + split_on(b, sep),
    decreases b.len(),
{
    let s = a + seq![sep] + b;
    if b.len() == 0 {
        lemma_split_none(a, sep);
        assert(s.drop_last() =~= a);
        assert(split_on(b, sep) == seq![Seq::<char>::empty()]);
        assert(seq![a].push(Seq::<char>::empty()) =~= seq![a] + seq![Seq::<char>::empty()]);
    } else {
        lemma_split_append(a, b.drop_last(), sep);
        assert(s.drop_last() =~= a + seq![sep] + b.drop_last());
        assert(s.last() == b.last());
        let x = split_on(b.drop_last(), sep);
        lemma_split_nonempty(b.drop_last(), sep);
        let y = seq![a] + x;
        if b.last() == sep {
            assert(y.push(Seq::<char>::empty()) =~= seq![a] + x.push(Seq::<char>::empty()));
        } else {
            assert(y.update(y.len() - 1, y.last().push(b.last())) =~= seq![a] + x.update(x.len() - 1, x.last().push(
                b.last())));
        }
    }
}

/// The value of a digit character.
pub proof fn lemma_digit_char(d: int)
    requires
        0 <= d <= 9,
    ensures
        digit_value(digit_char(d)) == Some(d as u32),
        digit_char(d) != '/',
        digit_char(d) != ' ',
        digit_char(d) != '+',
{
}

/// Appending characters leaves the value of a prefix unchanged.
proof fn lemma_digits_prefix(s: Seq<char>, c: char, k: int)
    requires
        0 <= k <= s.len(),
    ensures
        digits_value(s.push(c), k) == digits_value(s, k),
    decreases k,
{
    if k > 0 {
        lemma_digits_prefix(s, c, k - 1);
        assert(s.push(c)[k - 1] == s[k - 1]);
    }
}

/// The decimal text of `n` reads back as `n`.
pub proof fn lemma_decimal_value(n: nat)
    ensures
        decimal(n).len() > 0,
        all_digits(decimal(n), 0),
        digits_value(decimal(n), decimal(n).len() as int) == n,
        decimal(n)[0] != '+',
        !decimal(n).contains(' '),
        !decimal(n).contains('/'),
    decreases n,
{
    if n < 10 {
        lemma_digit_char(n as int);
        assert(decimal(n) == seq![digit_char(n as int)]);
        assert(digits_value(decimal(n), 1) == digits_value(decimal(n), 0) * 10 + digit_value(decimal(n)[0]).unwrap());
    } else {
        let q = (n / 10) as nat;
        let d = (n % 10) as int;
        lemma_decimal_value(q);
        lemma_digit_char(d);
        let s = decimal(q);
        let t = s.push(digit_char(d));
        assert(decimal(n) == t);
        assert forall|i: int| 0 <= i < t.len() implies (#[trigger] digit_value(t[i])) is Some by {
            if i < s.len() {
                assert(t[i] == s[i]);
            }
        }
        lemma_digits_prefix(s, digit_char(d), s.len() as int);
        assert(digits_value(t, t.len() as int) == digits_value(t, s.len() as int) * 10 + d);
        assert(q * 10 + d == n) by (nonlinear_arith)
            requires
                q == n / 10,
                d == n % 10,
        ;
        assert(t[0] == s[0]);
        assert(!t.contains(' ')) by {
            if t.contains(' ') {
                let i = choose|i: int| 0 <= i < t.len() && t[i] == ' ';
                if i < s.len() {
                    assert(s[i] == ' ');
                }
            }
        }
        assert(!t.contains('/')) by {
            if t.contains('/') {
                let i = choose|i: int| 0 <= i < t.len() && t[i] == '/';
                if i < s.len() {
                    assert(s[i] == '/');
                }
            }
        }
    }
}

/// Reading back the decimal text of a 32-bit number gives the number.
pub proof fn lemma_decimal_round_trip(n: u32)
    ensures
        parse_u32_spec(decimal(n as nat)) == Some(n),
{
    lemma_decimal_value(n as nat);
    let s = decimal(n as nat);
    assert(s.subrange(0, s.len() as int) =~= s);
}


/// Reading the castling field from index `j` is reading what follows `j`.
proof fn lemma_castling_suffix(s: Seq<char>, j: int, acc: u32)
    requires
        0 <= j <= s.len(),
    ensures
        castling_from(s, j, acc) == castling_from(s.subrange(j, s.len() as int), 0, acc),
    decreases s.len() - j,
{
    let sub = s.subrange(j, s.len() as int);
    if j < s.len() {
        assert(sub[0] == s[j]);
        let c = s[j];
        let next = if c == 'K' {
            Some(acc | kingside_mask(WHITE as int))
        } else if c == 'k' {
            Some(acc | kingside_mask(BLACK as int))
        } else if c == 'Q' {
            Some(acc | queenside_mask(WHITE as int))
        } else if c == 'q' {
            Some(acc | queenside_mask(BLACK as int))
        } else {
            None
        };
        if let Some(n) = next {
            lemma_castling_suffix(s, j + 1, n);
            lemma_castling_suffix(sub, 1, n);
            assert(sub.subrange(1, sub.len() as int) =~= s.subrange(j + 1, s.len() as int));
        }
    }
}

/// A castling letter, then the rest: the right of the letter is granted and
/// the rest is read.
proof fn lemma_castling_step(c: char, rest: Seq<char>, acc: u32, m: u32)
    requires
        (c == 'K' && m == 0b1000u32) || (c == 'Q' && m == 0b10000u32) || (c == 'k' && m == 0b10u32) || (c == 'q'
            && m == 0b100u32),
    ensures
        castling_from(seq![c] + rest, 0, acc) == castling_from(rest, 0, acc | m),
{
    let s = seq![c] + rest;
    assert(s[0] == c);
    lemma_castling_suffix(s, 1, acc | m);
    assert(s.subrange(1, s.len() as int) =~= rest);
}

/// The text of an optional castling letter.
pub open spec fn opt_letter(present: bool, c: char) -> Seq<char> {
    if present {
        seq![c]
    } else {
        Seq::empty()
    }
}

proof fn lemma_castling_opt(present: bool, c: char, rest: Seq<char>, acc: u32, m: u32)
    requires
        (c == 'K' && m == 0b1000u32) || (c == 'Q' && m == 0b10000u32) || (c == 'k' && m == 0b10u32) || (c == 'q'
            && m == 0b100u32),
    ensures
        castling_from(opt_letter(present, c) + rest, 0, acc) == castling_from(rest, 0, if present { acc | m } else { acc }),
{
    if present {
        lemma_castling_step(c, rest, acc, m);
    } else {
        assert(opt_letter(present, c) + rest =~= rest);
    }
}

/// The castling field written for a state reads back as its castling rights.
pub proof fn lemma_castling_round_trip(st: u32)
    ensures
        castling_parse(castling_text(st), 0) == Ok::<u32, FenFault>(st & 0x1e),
{
    let a = st & 0b1000 != 0;
    let b = st & 0b10000 != 0;
    let c = st & 0b10 != 0;
    let d = st & 0b100 != 0;
    if castling_of(st) == 0 {
        assert(st & 0x1e == 0) by (bit_vector)
            requires
                (st & 0x1e) >> 1 == 0,
        ;
    } else {
        let t = castling_text(st);
        let e = Seq::<char>::empty();
        assert(t =~= opt_letter(a, 'K') + (opt_letter(b, 'Q') + (opt_letter(c, 'k') + (opt_letter(d, 'q') + e))));
        let x0: u32 = 0;
        let x1: u32 = if a { x0 | 0b1000u32 } else { x0 };
        let x2: u32 = if b { x1 | 0b10000u32 } else { x1 };
        let x3: u32 = if c { x2 | 0b10u32 } else { x2 };
        let x4: u32 = if d { x3 | 0b100u32 } else { x3 };
        lemma_castling_opt(a, 'K', opt_letter(b, 'Q') + (opt_letter(c, 'k') + (opt_letter(d, 'q') + e)), x0,
            0b1000u32);
        lemma_castling_opt(b, 'Q', opt_letter(c, 'k') + (opt_letter(d, 'q') + e), x1, 0b10000u32);
        lemma_castling_opt(c, 'k', opt_letter(d, 'q') + e, x2, 0b10u32);
        lemma_castling_opt(d, 'q', e, x3, 0b100u32);
        assert(x4 == st & 0x1e) by (bit_vector)
            requires
                a == (st & 0b1000 != 0),
                b == (st & 0b10000 != 0),
                c == (st & 0b10 != 0),
                d == (st & 0b100 != 0),
                x0 == 0,
                x1 == if a { x0 | 0b1000u32 } else { x0 },
                x2 == if b { x1 | 0b10000u32 } else { x1 },
                x3 == if c { x2 | 0b10u32 } else { x2 },
                x4 == if d { x3 | 0b100u32 } else { x3 },
        ;
        assert(t.len() > 0 && t[0] != '-') by {
            assert(a || b || c || d) by (bit_vector)
                requires
                    (st & 0x1e) >> 1 != 0,
                    a == (st & 0b1000 != 0),
                    b == (st & 0b10000 != 0),
                    c == (st & 0b10 != 0),
                    d == (st & 0b100 != 0),
            ;
        }
        assert(t != seq!['-']) by {
            if t == seq!['-'] {
                assert(t[0] == '-');
            }
        }
    }
}

/// The en passant field written for a state reads back as its file.
pub proof fn lemma_en_passant_round_trip(st: u32, us: usize, st1: u32)
    requires
        ep_file_of(st) <= 8,
    ensures
        en_passant_parse(en_passant_text(st, us), st1) == Ok::<u32, FenFault>(
            if ep_file_of(st) == 0 {
                st1
            } else {
                (st1 & !0x1e0u32) | (ep_file_of(st) << 5u32)
            },
        ),
{
    let f = ep_file_of(st) as int;
    if f != 0 {
        let s = en_passant_text(st, us);
        assert(s.len() == 2);
        assert(s[0] == file_char(f - 1));
        assert((s[0] as u32) < 0x80 && (s[1] as u32) < 0x80);
        assert(utf8_len_of(s, 0) == 0);
        assert(utf8_len_of(s, 1) == 1);
        assert(utf8_len_of(s, 2) == 2);
        assert(file_number(s[0]) == Some(f as usize));
        assert(s != seq!['-']) by {
            if s == seq!['-'] {
                assert(s.len() == 1);
            }
        }
    }
}

/// Adding a piece of any kind on an empty square of a well-formed set puts it
/// there, leaves every other square as it was, and keeps the set well formed.
pub proof fn lemma_add_on_empty(o: Pieces, sq: int, pc: int)
    requires
        pieces_wf(o),
        0 <= sq < 64,
        PAWN <= pc <= KING,
        piece_at(o, sq) == NONE,
    ensures
        pieces_wf(add_spec(o, sq, pc)),
        add_spec(o, sq, pc).color == o.color,
        forall|q: int|
            0 <= q < 64 ==> #[trigger] piece_at(add_spec(o, sq, pc), q) == (if q == sq {
                pc as usize
            } else {
                piece_at(o, q)
            }),
{
    let a = add_spec(o, sq, pc);
    let m = 1u64 << (sq as u64);
    assert forall|q: int| 0 <= q < 64 implies {
        &&& bit(a.pawns, q) == (if q == sq { pc == PAWN } else { bit(o.pawns, q) })
        &&& bit(a.orthogonals, q) == (if q == sq { pc == ROOK || pc == QUEEN } else { bit(o.orthogonals, q) })
        &&& bit(a.diagonals, q) == (if q == sq { pc == BISHOP || pc == QUEEN } else { bit(o.diagonals, q) })
        &&& bit(a.knights, q) == (if q == sq { pc == KNIGHT } else { bit(o.knights, q) })
        &&& #[trigger] bit(a.king, q) == (if q == sq { pc == KING } else { bit(o.king, q) })
    } by {
        lemma_wf_square(o, q);
        lemma_bits(o.pawns, m, q);
        lemma_bits(o.orthogonals, m, q);
        lemma_bits(o.diagonals, m, q);
        lemma_bits(o.knights, m, q);
        lemma_bits(o.king, m, q);
        lemma_bit_single(sq, q);
    }
    assert forall|q: int| 0 <= q < 64 implies #[trigger] piece_at(a, q) == (if q == sq {
        pc as usize
    } else {
        piece_at(o, q)
    }) by {
        assert(bit(a.king, q) == (if q == sq { pc == KING } else { bit(o.king, q) }));
    }
    assert forall|q: int| 0 <= q < 64 implies #[trigger] square_ok(a, q) by {
        assert(bit(a.king, q) == (if q == sq { pc == KING } else { bit(o.king, q) }));
        lemma_wf_square(o, q);
    }
    lemma_wf_bits(a);
}

/// Two well-formed sets of one colour that hold the same piece on every
/// square are the same set.
pub proof fn lemma_pieces_ext(a: Pieces, b: Pieces)
    requires
        pieces_wf(a),
        pieces_wf(b),
        a.color == b.color,
        forall|q: int| 0 <= q < 64 ==> #[trigger] piece_at(a, q) == piece_at(b, q),
    ensures
        a == b,
{
    assert forall|q: int| 0 <= q < 64 implies {
        &&& bit(a.pawns, q) == bit(b.pawns, q)
        &&& bit(a.orthogonals, q) == bit(b.orthogonals, q)
        &&& bit(a.diagonals, q) == bit(b.diagonals, q)
        &&& bit(a.knights, q) == bit(b.knights, q)
        &&& #[trigger] bit(a.king, q) == bit(b.king, q)
    } by {
        assert(piece_at(a, q) == piece_at(b, q));
        lemma_wf_square(a, q);
        lemma_wf_square(b, q);
    }
    assert forall|q: int| 0 <= q < 64 implies #[trigger] bit(a.pawns, q) == bit(b.pawns, q) by {
        assert(bit(a.king, q) == bit(b.king, q));
    }
    assert forall|q: int| 0 <= q < 64 implies #[trigger] bit(a.orthogonals, q) == bit(b.orthogonals, q) by {
        assert(bit(a.king, q) == bit(b.king, q));
    }
    assert forall|q: int| 0 <= q < 64 implies #[trigger] bit(a.diagonals, q) == bit(b.diagonals, q) by {
        assert(bit(a.king, q) == bit(b.king, q));
    }
    assert forall|q: int| 0 <= q < 64 implies #[trigger] bit(a.knights, q) == bit(b.knights, q) by {
        assert(bit(a.king, q) == bit(b.king, q));
    }
    lemma_bits_ext(a.pawns, b.pawns);
    lemma_bits_ext(a.orthogonals, b.orthogonals);
    lemma_bits_ext(a.diagonals, b.diagonals);
    lemma_bits_ext(a.knights, b.knights);
    lemma_bits_ext(a.king, b.king);
}

/// The letter of a piece reads back as that piece, upper case exactly for white.
pub proof fn lemma_fen_char(piece: int, white: bool)
    requires
        PAWN <= piece <= KING,
    ensures
        piece_of_char(fen_char(piece, white)) == Some(piece as usize),
        ('A' <= fen_char(piece, white) && fen_char(piece, white) <= 'Z') == white,
        digit_value(fen_char(piece, white)) is None,
        fen_char(piece, white) != '/',
        fen_char(piece, white) != ' ',
{
}

/// A rank of the placement field holds neither `/` nor a space.
pub proof fn lemma_rank_text_chars(w: Pieces, b: Pieces, rank: int, f: int, skip: int)
    requires
        0 <= skip <= f <= 8,
    ensures
        !rank_text(w, b, rank, f, skip).contains('/'),
        !rank_text(w, b, rank, f, skip).contains(' '),
    decreases 8 - f,
{
    let t = rank_text(w, b, rank, f, skip);
    if skip != 0 {
        lemma_digit_char(skip);
    }
    let st = skip_text(skip);
    assert(!st.contains('/') && !st.contains(' ')) by {
        if skip != 0 {
            assert(st == seq![digit_char(skip)]);
            if st.contains('/') || st.contains(' ') {
                assert(st[0] == digit_char(skip));
            }
        }
    }
    if f < 8 {
        let sq = rank * 8 + f;
        let bp = piece_at(b, sq);
        let wp = piece_at(w, sq);
        let piece = if bp != NONE { bp } else { wp };
        if piece == NONE {
            lemma_rank_text_chars(w, b, rank, f + 1, skip + 1);
        } else {
            lemma_rank_text_chars(w, b, rank, f + 1, 0);
            lemma_fen_char(piece as int, bp == NONE);
            let c = fen_char(piece as int, bp == NONE);
            let rest = rank_text(w, b, rank, f + 1, 0);
            assert(t == st + seq![c] + rest);
            assert forall|x: char| x == '/' || x == ' ' implies !(st + seq![c] + rest).contains(x) by {
                if (st + seq![c] + rest).contains(x) {
                    let i = choose|i: int| 0 <= i < (st + seq![c] + rest).len() && (st + seq![c] + rest)[i] == x;
                    if i < st.len() {
                        assert(st[i] == x);
                    } else if i == st.len() {
                        assert(c == x);
                    } else {
                        assert(rest[i - st.len() - 1] == x);
                    }
                }
            }
        }
    }
}

/// The placement field from rank `r` down splits on `/` into its ranks, the
/// highest first.
pub proof fn lemma_placement_split(w: Pieces, b: Pieces, r: int)
    requires
        r >= 0,
    ensures
        split_on(placement_text(w, b, r), '/') == Seq::new((r + 1) as nat, |k: int| rank_text(w, b, r - k, 0, 0)),
    decreases r,
{
    lemma_rank_text_chars(w, b, r, 0, 0);
    if r == 0 {
        lemma_split_none(rank_text(w, b, 0, 0, 0), '/');
        assert(seq![rank_text(w, b, 0, 0, 0)] =~= Seq::new(1, |k: int| rank_text(w, b, 0 - k, 0, 0)));
    } else {
        lemma_placement_split(w, b, r - 1);
        lemma_split_append(rank_text(w, b, r, 0, 0), placement_text(w, b, r - 1), '/');
        assert(seq![rank_text(w, b, r, 0, 0)] + Seq::new(r as nat, |k: int| rank_text(w, b, r - 1 - k, 0, 0)) =~= Seq::new(
            (r + 1) as nat,
            |k: int| rank_text(w, b, r - k, 0, 0),
        ));
    }
}

/// The placement field holds no space.
pub proof fn lemma_placement_no_space(w: Pieces, b: Pieces, r: int)
    requires
        r >= 0,
    ensures
        !placement_text(w, b, r).contains(' '),
    decreases r,
{
    lemma_rank_text_chars(w, b, r, 0, 0);
    if r > 0 {
        lemma_placement_no_space(w, b, r - 1);
        let a = rank_text(w, b, r, 0, 0);
        let c = placement_text(w, b, r - 1);
        let t = a + seq!['/'] + c;
        if t.contains(' ') {
            let i = choose|i: int| 0 <= i < t.len() && t[i] == ' ';
            if i < a.len() {
                assert(a[i] == ' ');
            } else if i > a.len() {
                assert(c[i - a.len() - 1] == ' ');
            }
        }
    }
}

/// Reading a rank from index `j` is reading what follows `j`.
proof fn lemma_rank_suffix(s: Seq<char>, j: int, i: int, st: ReadState)
    requires
        0 <= j <= s.len(),
    ensures
        rank_from(s, j, i, st) == rank_from(s.subrange(j, s.len() as int), 0, i, st),
    decreases s.len() - j,
{
    let sub = s.subrange(j, s.len() as int);
    if j < s.len() {
        assert(sub[0] == s[j]);
        if let Ok(st2) = rank_step(st, s[j], i) {
            lemma_rank_suffix(s, j + 1, i, st2);
            lemma_rank_suffix(sub, 1, i, st2);
            assert(sub.subrange(1, sub.len() as int) =~= s.subrange(j + 1, s.len() as int));
        }
    }
}

/// The position of a square in reading order: ranks from the eighth down,
/// files from a to h.
pub open spec fn read_order(sq: int) -> int {
    (7 - sq / 8) * 8 + sq % 8
}

/// A read state holds exactly the pieces of `w` and `b` on the squares read
/// before position `n`, in well-formed sets of the right colours.
pub open spec fn placed(st: ReadState, w: Pieces, b: Pieces, n: int) -> bool {
    &&& pieces_wf(st.white)
    &&& pieces_wf(st.black)
    &&& st.white.color == WHITE
    &&& st.black.color == BLACK
    &&& forall|sq: int|
        0 <= sq < 64 ==> #[trigger] piece_at(st.white, sq) == (if read_order(sq) < n {
            piece_at(w, sq)
        } else {
            NONE
        })
    &&& forall|sq: int|
        0 <= sq < 64 ==> #[trigger] piece_at(st.black, sq) == (if read_order(sq) < n {
            piece_at(b, sq)
        } else {
            NONE
        })
}

/// No square holds a piece of both sets.
pub open spec fn no_overlap(w: Pieces, b: Pieces) -> bool {
    forall|sq: int| 0 <= sq < 64 ==> #[trigger] piece_at(w, sq) == NONE || piece_at(b, sq) == NONE
}

/// The reading position of the square on rank `r`, file `g`.
proof fn lemma_read_order(r: int, g: int)
    requires
        0 <= r < 8,
        0 <= g < 8,
    ensures
        read_order(r * 8 + g) == (7 - r) * 8 + g,
        forall|q: int| 0 <= q < 64 && read_order(q) == (7 - r) * 8 + g ==> q == r * 8 + g,
{
    assert((r * 8 + g) / 8 == r && (r * 8 + g) % 8 == g) by (nonlinear_arith)
        requires
            0 <= g < 8,
    ;
    assert forall|q: int| 0 <= q < 64 && read_order(q) == (7 - r) * 8 + g implies q == r * 8 + g by {
        assert(q == (q / 8) * 8 + q % 8 && 0 <= q % 8 < 8) by (nonlinear_arith)
            requires
                0 <= q,
        ;
    }
}

/// Empty squares of both sets need no reading: a state placed up to `n` is
/// placed up to `n2` when every square read between them is empty.
proof fn lemma_placed_extend(st: ReadState, w: Pieces, b: Pieces, n: int, n2: int)
    requires
        placed(st, w, b, n),
        n <= n2,
        forall|sq: int| 0 <= sq < 64 && n <= read_order(sq) < n2 ==> #[trigger] piece_at(w, sq) == NONE && piece_at(b, sq)
            == NONE,
    ensures
        placed(st, w, b, n2),
{
    assert forall|sq: int| 0 <= sq < 64 implies #[trigger] piece_at(st.white, sq) == (if read_order(sq) < n2 {
        piece_at(w, sq)
    } else {
        NONE
    }) by {
        assert(piece_at(st.black, sq) == (if read_order(sq) < n { piece_at(b, sq) } else { NONE }));
    }
    assert forall|sq: int| 0 <= sq < 64 implies #[trigger] piece_at(st.black, sq) == (if read_order(sq) < n2 {
        piece_at(b, sq)
    } else {
        NONE
    }) by {
        assert(piece_at(st.white, sq) == (if read_order(sq) < n { piece_at(w, sq) } else { NONE }));
    }
}

/// Placing the pieces of square `sq`, the next in reading order, moves the
/// reading position one on.
proof fn lemma_place_one(st: ReadState, st2: ReadState, w: Pieces, b: Pieces, n: int, sq: int)
    requires
        placed(st, w, b, n),
        0 <= sq < 64,
        read_order(sq) == n,
        forall|q: int| 0 <= q < 64 && read_order(q) == n ==> q == sq,
        pieces_wf(st2.white),
        pieces_wf(st2.black),
        st2.white.color == WHITE,
        st2.black.color == BLACK,
        forall|q: int|
            0 <= q < 64 ==> #[trigger] piece_at(st2.white, q) == (if q == sq {
                piece_at(w, sq)
            } else {
                piece_at(st.white, q)
            }),
        forall|q: int|
            0 <= q < 64 ==> #[trigger] piece_at(st2.black, q) == (if q == sq {
                piece_at(b, sq)
            } else {
                piece_at(st.black, q)
            }),
    ensures
        placed(st2, w, b, n + 1),
{
    assert forall|q: int| 0 <= q < 64 implies #[trigger] piece_at(st2.white, q) == (if read_order(q) < n + 1 {
        piece_at(w, q)
    } else {
        NONE
    }) by {
        assert(piece_at(st.white, q) == (if read_order(q) < n { piece_at(w, q) } else { NONE }));
    }
    assert forall|q: int| 0 <= q < 64 implies #[trigger] piece_at(st2.black, q) == (if read_order(q) < n + 1 {
        piece_at(b, q)
    } else {
        NONE
    }) by {
        assert(piece_at(st.black, q) == (if read_order(q) < n { piece_at(b, q) } else { NONE }));
    }
}

/// The letter written for the piece on rank `r`, file `f`: a black piece is
/// written before a white one.
pub open spec fn letter_at(w: Pieces, b: Pieces, sq: int) -> char {
    let bp = piece_at(b, sq);
    let wp = piece_at(w, sq);
    fen_char((if bp != NONE { bp } else { wp }) as int, bp == NONE)
}

/// Reading the letter of the next square places its piece.
proof fn lemma_read_letter(w: Pieces, b: Pieces, r: int, f: int, st: ReadState)
    requires
        no_overlap(w, b),
        0 <= r < 8,
        0 <= f < 8,
        piece_at(w, r * 8 + f) != NONE || piece_at(b, r * 8 + f) != NONE,
        st.file == f,
        placed(st, w, b, (7 - r) * 8 + f),
    ensures
        rank_step(st, letter_at(w, b, r * 8 + f), 7 - r) is Ok,
        placed(rank_step(st, letter_at(w, b, r * 8 + f), 7 - r)->Ok_0, w, b, (7 - r) * 8 + f + 1),
        rank_step(st, letter_at(w, b, r * 8 + f), 7 - r)->Ok_0.file == f + 1,
{
    let sq = r * 8 + f;
    let n = (7 - r) * 8 + f;
    let bp = piece_at(b, sq);
    let wp = piece_at(w, sq);
    let piece = if bp != NONE { bp } else { wp };
    assert(piece_at(w, sq) == NONE || piece_at(b, sq) == NONE);
    lemma_fen_char(piece as int, bp == NONE);
    lemma_read_order(r, f);
    assert(piece_at(st.white, sq) == NONE && piece_at(st.black, sq) == NONE);
    assert((7 - (7 - r)) * 8 + st.file == sq);
    let st2 = rank_step(st, letter_at(w, b, sq), 7 - r)->Ok_0;
    if bp == NONE {
        lemma_add_on_empty(st.white, sq, piece as int);
        assert(st2.white == add_spec(st.white, sq, piece as int));
        assert(st2.black == st.black);
    } else {
        lemma_add_on_empty(st.black, sq, piece as int);
        assert(st2.black == add_spec(st.black, sq, piece as int));
        assert(st2.white == st.white);
    }
    lemma_place_one(st, st2, w, b, n, sq);
}

/// Reading rank `r` from file `f` on, with `skip` empty files pending, places
/// the pieces of the rest of the rank and ends on its eighth file.
proof fn lemma_rank_read(w: Pieces, b: Pieces, r: int, f: int, skip: int, st: ReadState)
    requires
        no_overlap(w, b),
        0 <= r < 8,
        0 <= skip <= f <= 8,
        forall|sq: int| r * 8 + f - skip <= sq < r * 8 + f ==> #[trigger] piece_at(w, sq) == NONE && piece_at(b, sq) == NONE,
        st.file == f - skip,
        placed(st, w, b, (7 - r) * 8 + f),
    ensures
        rank_from(rank_text(w, b, r, f, skip), 0, 7 - r, st) is Ok,
        placed(rank_from(rank_text(w, b, r, f, skip), 0, 7 - r, st)->Ok_0, w, b, (7 - r) * 8 + 8),
    decreases 8 - f,
{
    let t = rank_text(w, b, r, f, skip);
    let i = 7 - r;
    if skip != 0 {
        lemma_digit_char(skip);
    }
    if f >= 8 {
        if skip != 0 {
            assert(t == seq![digit_char(skip)]);
            let st1 = rank_step(st, t[0], i)->Ok_0;
            assert(st1.file == 8);
            lemma_rank_suffix(t, 1, i, st1);
            assert(t.subrange(1, 1) =~= Seq::<char>::empty());
        }
    } else {
        let sq = r * 8 + f;
        let bp = piece_at(b, sq);
        let wp = piece_at(w, sq);
        let piece = if bp != NONE { bp } else { wp };
        lemma_read_order(r, f);
        if piece == NONE {
            assert(placed(st, w, b, (7 - r) * 8 + f + 1)) by {
                lemma_placed_extend(st, w, b, (7 - r) * 8 + f, (7 - r) * 8 + f + 1);
            }
            assert forall|q: int| r * 8 + (f + 1) - (skip + 1) <= q < r * 8 + (f + 1) implies #[trigger] piece_at(w, q)
                == NONE && piece_at(b, q) == NONE by {
                if q != sq {
                    assert(r * 8 + f - skip <= q < r * 8 + f);
                }
            }
            lemma_rank_read(w, b, r, f + 1, skip + 1, st);
        } else {
            let c = letter_at(w, b, sq);
            let rest = rank_text(w, b, r, f + 1, 0);
            if skip != 0 {
                assert(t == seq![digit_char(skip)] + seq![c] + rest);
                let st1 = rank_step(st, t[0], i)->Ok_0;
                assert(st1.file == f);
                assert(placed(st1, w, b, (7 - r) * 8 + f));
                assert(t[1] == c);
                lemma_read_letter(w, b, r, f, st1);
                let st2 = rank_step(st1, c, i)->Ok_0;
                lemma_rank_suffix(t, 2, i, st2);
                assert(t.subrange(2, t.len() as int) =~= rest);
                lemma_rank_read(w, b, r, f + 1, 0, st2);
            } else {
                assert(t =~= seq![c] + rest);
                assert(t[0] == c);
                lemma_read_letter(w, b, r, f, st);
                let st2 = rank_step(st, c, i)->Ok_0;
                lemma_rank_suffix(t, 1, i, st2);
                assert(t.subrange(1, t.len() as int) =~= rest);
                lemma_rank_read(w, b, r, f + 1, 0, st2);
            }
        }
    }
}

/// Reading the ranks from the `k`-th on places the pieces of the rest of the board.
proof fn lemma_ranks_read(w: Pieces, b: Pieces, ranks: Seq<Seq<char>>, k: int, st: ReadState)
    requires
        no_overlap(w, b),
        ranks == Seq::new(8, |i: int| rank_text(w, b, 7 - i, 0, 0)),
        0 <= k <= 8,
        placed(st, w, b, k * 8),
    ensures
        ranks_from(ranks, k, st) is Ok,
        placed(ranks_from(ranks, k, st)->Ok_0, w, b, 64),
    decreases 8 - k,
{
    if k < 8 {
        let st0 = ReadState { file: 0, ..st };
        assert(ranks[k] == rank_text(w, b, 7 - k, 0, 0));
        assert(7 - (7 - k) == k);
        lemma_rank_read(w, b, 7 - k, 0, 0, st0);
        let st2 = rank_from(ranks[k], 0, k, st0)->Ok_0;
        lemma_ranks_read(w, b, ranks, k + 1, st2);
    }
}

/// The placement field written for two sets that share no square reads back
/// as those sets.
pub proof fn lemma_placement_round_trip(w: Pieces, b: Pieces)
    requires
        pieces_wf(w),
        pieces_wf(b),
        w.color == WHITE,
        b.color == BLACK,
        no_overlap(w, b),
    ensures
        pieces_parse(placement_text(w, b, 7)) is Ok,
        (pieces_parse(placement_text(w, b, 7))->Ok_0).white == w,
        (pieces_parse(placement_text(w, b, 7))->Ok_0).black == b,
{
    lemma_placement_split(w, b, 7);
    let ranks = split_on(placement_text(w, b, 7), '/');
    assert(ranks =~= Seq::new(8, |i: int| rank_text(w, b, 7 - i, 0, 0)));
    let st0 = ReadState { white: no_pieces(WHITE), black: no_pieces(BLACK), file: 0, pos: 0 };
    assert(placed(st0, w, b, 0)) by {
        assert forall|sq: int| 0 <= sq < 64 implies read_order(sq) >= 0 by {
            assert(0 <= sq / 8 < 8 && 0 <= sq % 8) by (nonlinear_arith)
                requires
                    0 <= sq < 64,
            ;
        }
        lemma_bits(0, 0, 0);
        assert forall|q: int| 0 <= q < 64 implies #[trigger] square_ok(no_pieces(WHITE), q) by {
            lemma_bits(0, 0, q);
        }
        assert forall|q: int| 0 <= q < 64 implies #[trigger] square_ok(no_pieces(BLACK), q) by {
            lemma_bits(0, 0, q);
        }
        lemma_wf_bits(no_pieces(WHITE));
        lemma_wf_bits(no_pieces(BLACK));
        assert forall|sq: int| 0 <= sq < 64 implies #[trigger] piece_at(no_pieces(WHITE), sq) == NONE by {
            lemma_bits(0, 0, sq);
        }
        assert forall|sq: int| 0 <= sq < 64 implies #[trigger] piece_at(no_pieces(BLACK), sq) == NONE by {
            lemma_bits(0, 0, sq);
        }
    }
    lemma_ranks_read(w, b, ranks, 0, st0);
    let st = ranks_from(ranks, 0, st0)->Ok_0;
    assert forall|sq: int| 0 <= sq < 64 implies read_order(sq) < 64 by {
        assert(0 <= sq / 8 < 8 && 0 <= sq % 8 < 8) by (nonlinear_arith)
            requires
                0 <= sq < 64,
        ;
    }
    assert forall|q: int| 0 <= q < 64 implies #[trigger] piece_at(st.white, q) == piece_at(w, q) by {
        assert(read_order(q) < 64);
    }
    assert forall|q: int| 0 <= q < 64 implies #[trigger] piece_at(st.black, q) == piece_at(b, q) by {
        assert(read_order(q) < 64);
    }
    lemma_pieces_ext(st.white, w);
    lemma_pieces_ext(st.black, b);
}

/// The castling and en passant fields hold no space.
proof fn lemma_fields_no_space(st: u32, us: usize)
    requires
        ep_file_of(st) <= 8,
    ensures
        !castling_text(st).contains(' '),
        !en_passant_text(st, us).contains(' '),
{
    let c = castling_text(st);
    if c.contains(' ') {
        let i = choose|i: int| 0 <= i < c.len() && c[i] == ' ';
        assert(c[i] == '-' || c[i] == 'K' || c[i] == 'Q' || c[i] == 'k' || c[i] == 'q');
    }
    let e = en_passant_text(st, us);
    if e.contains(' ') {
        let i = choose|i: int| 0 <= i < e.len() && e[i] == ' ';
        assert(e[i] != ' ');
    }
}

/// Two sets that share no square of their unions hold no square together.
proof fn lemma_no_overlap(w: Pieces, b: Pieces)
    requires
        pieces_wf(w),
        pieces_wf(b),
        all_of(w) & all_of(b) == 0,
    ensures
        no_overlap(w, b),
{
    assert forall|sq: int| 0 <= sq < 64 implies #[trigger] piece_at(w, sq) == NONE || piece_at(b, sq) == NONE by {
        lemma_wf_square(w, sq);
        lemma_wf_square(b, sq);
        lemma_bits(all_of(w), all_of(b), sq);
        lemma_bits(0, 0, sq);
    }
}

/// Reading back the FEN text of a position gives its pieces, its side to
/// move, and the fields of its state that FEN carries: castling rights, en
/// passant file, halfmove clock and move number.
pub proof fn law_fen_round_trip(p: Position)
    requires
        p.us == WHITE || p.us == BLACK,
        pieces_wf(p.white),
        pieces_wf(p.black),
        p.white.color == WHITE,
        p.black.color == BLACK,
        all_of(p.white) & all_of(p.black) == 0,
        ep_file_of(p.state) <= 8,
    ensures
        parse_fen_spec(fen_text(p)) == Ok::<FenPosition, FenFault>(
            FenPosition { white: p.white, black: p.black, us: p.us, state: p.state & 0x1ffffffe },
        ),
{
    let st = p.state;
    let pl = placement_text(p.white, p.black, 7);
    let side: Seq<char> = if p.us == WHITE { seq!['w'] } else { seq!['b'] };
    let ca = castling_text(st);
    let ep = en_passant_text(st, p.us);
    let hm = decimal(halfmove_of(st) as nat);
    let mc = decimal(move_clock_of(st) as nat);
    let sp = seq![' '];
    assert(fen_text(p) =~= pl + sp + (side + sp + (ca + sp + (ep + sp + (hm + sp + mc)))));
    lemma_placement_no_space(p.white, p.black, 7);
    lemma_fields_no_space(st, p.us);
    lemma_decimal_value(halfmove_of(st) as nat);
    lemma_decimal_value(move_clock_of(st) as nat);
    assert(!side.contains(' ')) by {
        if side.contains(' ') {
            let i = choose|i: int| 0 <= i < side.len() && side[i] == ' ';
            assert(side[i] != ' ');
        }
    }
    lemma_split_none(mc, ' ');
    lemma_split_append(hm, mc, ' ');
    lemma_split_append(ep, hm + sp + mc, ' ');
    lemma_split_append(ca, ep + sp + (hm + sp + mc), ' ');
    lemma_split_append(side, ca + sp + (ep + sp + (hm + sp + mc)), ' ');
    lemma_split_append(pl, side + sp + (ca + sp + (ep + sp + (hm + sp + mc))), ' ');
    let f = split_on(fen_text(p), ' ');
    assert(f =~= seq![pl, side, ca, ep, hm, mc]);
    lemma_no_overlap(p.white, p.black);
    lemma_placement_round_trip(p.white, p.black);
    lemma_castling_round_trip(st);
    let st1 = st & 0x1e;
    lemma_en_passant_round_trip(st, p.us, st1);
    let st2 = if ep_file_of(st) == 0 { st1 } else { (st1 & !0x1e0u32) | (ep_file_of(st) << 5u32) };
    let h = halfmove_of(st);
    let m = move_clock_of(st);
    lemma_decimal_round_trip(h);
    lemma_decimal_round_trip(m);
    let st3 = (st2 & !0x1fe00u32) | ((h << 9u32) as u32);
    let st4 = (st3 & !0x1ffe0000u32) | ((m << 17u32) as u32);
    assert(st4 == st & 0x1ffffffe) by (bit_vector)
        requires
            st1 == st & 0x1e,
            (st & 0x1e0) >> 5 <= 8,
            st2 == if (st & 0x1e0) >> 5 == 0 { st1 } else { (st1 & !0x1e0u32) | (((st & 0x1e0) >> 5) << 5u32) },
            h == (st & 0x1fe00) >> 9,
            m == (st & 0x1ffe0000) >> 17,
            st3 == (st2 & !0x1fe00u32) | ((h << 9u32) as u32),
            st4 == (st3 & !0x1ffe0000u32) | ((m << 17u32) as u32),
    ;
    assert(f[1] == side);
    if p.us == WHITE {
        assert(f[1] == seq!['w']);
    } else {
        assert(f[1] != seq!['w']) by {
            assert(f[1][0] == 'b');
        }
        assert(f[1] == seq!['b']);
    }
}
} // verus!
