use vstd::prelude::*;
use vstd::string::StringExecFns;
use std::sync::Arc;
use crate::constants::{WHITE, BLACK, PAWN, KNIGHT, BISHOP, ROOK, QUEEN, KING};
use crate::position::board::{Board, Position, position_occupancy, position_checkers};
use crate::position::board_state::{BoardState, ep_file_of, kingside_mask, queenside_mask, lemma_packed_fields};
use crate::position::piece_set::{PieceSet, Pieces, add_spec};
use crate::position::zobrist_hashing::{ZobristHasher, position_hash};
use crate::moving::move_generation::{MoveGenerator, tables_exact};
use crate::text::{split_on, split_chars, chars_of, decimal, push_decimal, digit_value, to_digit, parse_u32,
    parse_u32_spec, utf8_len_of, utf8_length, lemma_split_nonempty};

verus! {

/// What goes wrong when reading a FEN string.
#[derive(Debug)]
pub enum FenError {
    InvalidCharacter { ch: char, position: usize },
    InvalidRankCount { found: usize },
    InvalidStructure { reason: String },
    InvalidFileCount { found: usize, rank: usize },
}

/// The mathematical content of a `FenError`.
pub enum FenFault {
    InvalidCharacter(char, int),
    InvalidRankCount(int),
    InvalidStructure(Seq<char>),
    InvalidFileCount(int, int),
}

impl View for FenError {
    type V = FenFault;

    open spec fn view(&self) -> FenFault {
        match self {
            FenError::InvalidCharacter { ch, position } => FenFault::InvalidCharacter(*ch, *position as int),
            FenError::InvalidRankCount { found } => FenFault::InvalidRankCount(*found as int),
            FenError::InvalidStructure { reason } => FenFault::InvalidStructure(reason@),
            FenError::InvalidFileCount { found, rank } => FenFault::InvalidFileCount(*found as int, *rank as int),
        }
    }
}

/// The piece kind of a FEN letter, either case.
pub open spec fn piece_of_char(c: char) -> Option<usize> {
    if c == 'r' || c == 'R' {
        Some(ROOK)
    } else if c == 'b' || c == 'B' {
        Some(BISHOP)
    } else if c == 'k' || c == 'K' {
        Some(KING)
    } else if c == 'q' || c == 'Q' {
        Some(QUEEN)
    } else if c == 'n' || c == 'N' {
        Some(KNIGHT)
    } else if c == 'p' || c == 'P' {
        Some(PAWN)
    } else {
        None
    }
}

/// The state of the piece placement reader: white and black pieces, the file
/// in the current rank, and the number of characters read outside separators.
pub struct ReadState {
    pub white: Pieces,
    pub black: Pieces,
    pub file: int,
    pub pos: int,
}

/// One character of rank `i`: a digit skips files; a letter places a piece,
/// white for upper case, unless the rank is full or the letter is no piece.
pub open spec fn rank_step(st: ReadState, ch: char, i: int) -> Result<ReadState, FenFault> {
    match digit_value(ch) {
        Some(d) => Ok(ReadState { file: st.file + d, pos: st.pos + 1, ..st }),
        None => if st.file >= 8 {
            Err(FenFault::InvalidStructure("Too many pieces in rank "@ + decimal(i as nat)))
        } else {
            match piece_of_char(ch) {
                None => Err(FenFault::InvalidCharacter(ch, st.pos)),
                Some(pt) => {
                    let sq = (7 - i) * 8 + st.file;
                    if 'A' <= ch && ch <= 'Z' {
                        Ok(ReadState { white: add_spec(st.white, sq, pt as int), file: st.file + 1, pos: st.pos + 1, ..st })
                    } else {
                        Ok(ReadState { black: add_spec(st.black, sq, pt as int), file: st.file + 1, pos: st.pos + 1, ..st })
                    }
                },
            }
        },
    }
}

/// Reading the characters of rank `i` from index `j` on; a rank must end on
/// its eighth file.
pub open spec fn rank_from(rank: Seq<char>, j: int, i: int, st: ReadState) -> Result<ReadState, FenFault>
    decreases rank.len() - j,
{
    if j >= rank.len() {
        if st.file != 8 {
            Err(FenFault::InvalidFileCount(st.file, i))
        } else {
            Ok(st)
        }
    } else {
        match rank_step(st, rank[j], i) {
            Err(e) => Err(e),
            Ok(st2) => rank_from(rank, j + 1, i, st2),
        }
    }
}

/// Reading the ranks from index `k` on.
pub open spec fn ranks_from(ranks: Seq<Seq<char>>, k: int, st: ReadState) -> Result<ReadState, FenFault>
    decreases ranks.len() - k,
{
    if k >= ranks.len() {
        Ok(st)
    } else {
        match rank_from(ranks[k], 0, k, ReadState { file: 0, ..st }) {
            Err(e) => Err(e),
            Ok(st2) => ranks_from(ranks, k + 1, st2),
        }
    }
}

/// An empty set of pieces of `color`.
pub open spec fn no_pieces(color: usize) -> Pieces {
    Pieces { pawns: 0, orthogonals: 0, diagonals: 0, knights: 0, king: 0, color }
}

/// The piece placement field: at least eight ranks separated by `/`.
pub open spec fn pieces_parse(s: Seq<char>) -> Result<ReadState, FenFault> {
    let ranks = split_on(s, '/');
    if ranks.len() < 8 {
        Err(FenFault::InvalidRankCount(ranks.len() as int))
    } else {
        ranks_from(ranks, 0, ReadState { white: no_pieces(WHITE), black: no_pieces(BLACK), file: 0, pos: 0 })
    }
}

/// Ranks beyond the eighth hold only digits (a piece there has no square).
pub open spec fn extra_ranks_digits(s: Seq<char>) -> bool {
    let ranks = split_on(s, '/');
    forall|k: int, j: int| 8 <= k < ranks.len() && 0 <= j < ranks[k].len() ==> (#[trigger] digit_value(
        ranks[k][j])) is Some
}

/// The castling field from index `j` on, each letter granting one right.
pub open spec fn castling_from(s: Seq<char>, j: int, st: u32) -> Result<u32, FenFault>
    decreases s.len() - j,
{
    if j >= s.len() {
        Ok(st)
    } else {
        let c = s[j];
        let next = if c == 'K' {
            Some(st | kingside_mask(WHITE as int))
        } else if c == 'k' {
            Some(st | kingside_mask(BLACK as int))
        } else if c == 'Q' {
            Some(st | queenside_mask(WHITE as int))
        } else if c == 'q' {
            Some(st | queenside_mask(BLACK as int))
        } else {
            None
        };
        match next {
            None => Err(FenFault::InvalidStructure("Invalid castling rights character: "@ + seq![c])),
            Some(n) => castling_from(s, j + 1, n),
        }
    }
}

/// The castling field: `-` or letters among `KQkq`.
pub open spec fn castling_parse(s: Seq<char>, st: u32) -> Result<u32, FenFault> {
    if s == seq!['-'] {
        Ok(st)
    } else {
        castling_from(s, 0, st)
    }
}

/// The file number (1 = a .. 8 = h) of a file letter.
pub open spec fn file_number(c: char) -> Option<usize> {
    if 'a' <= c && c <= 'h' {
        Some((c as u32 - 'a' as u32 + 1) as usize)
    } else {
        None
    }
}

/// The en passant field: `-`, or two bytes whose first is a file letter.
pub open spec fn en_passant_parse(s: Seq<char>, st: u32) -> Result<u32, FenFault> {
    if s == seq!['-'] {
        Ok(st)
    } else if utf8_len_of(s, s.len() as int) != 2 || file_number(s[0]) is None {
        Err(FenFault::InvalidStructure("Invalid en-passant structure: "@ + s))
    } else {
        Ok((st & !0x1e0u32) | ((file_number(s[0]).unwrap() as u32) << 5u32))
    }
}

/// What a FEN string describes: the pieces, the side to move and the packed state.
pub struct FenPosition {
    pub white: Pieces,
    pub black: Pieces,
    pub us: usize,
    pub state: u32,
}

/// Reading a FEN string: placement, side, castling, en passant, and, when
/// present, the halfmove clock and the move number.
pub open spec fn parse_fen_spec(s: Seq<char>) -> Result<FenPosition, FenFault> {
    let f = split_on(s, ' ');
    if f.len() < 4 {
        Err(FenFault::InvalidStructure("Invalid number of splits, expected 6, found "@ + decimal(f.len())))
    } else {
        match pieces_parse(f[0]) {
            Err(e) => Err(e),
            Ok(pl) => {
                let side = if f[1] == seq!['w'] {
                    Some(WHITE)
                } else if f[1] == seq!['b'] {
                    Some(BLACK)
                } else {
                    None
                };
                match side {
                    None => Err(FenFault::InvalidStructure("Invalid side to move field "@ + f[1]
                        + ", expected 'w' or 'b'"@)),
                    Some(us) => match castling_parse(f[2], 0) {
                        Err(e) => Err(e),
                        Ok(st1) => match en_passant_parse(f[3], st1) {
                            Err(e) => Err(e),
                            Ok(st2) => {
                                let half = if f.len() > 4 { parse_u32_spec(f[4]) } else { Some(0) };
                                match half {
                                    None => Err(FenFault::InvalidStructure("Invalid halfmove field: "@ + f[4])),
                                    Some(h) => {
                                        let st3 = if f.len() > 4 { (st2 & !0x1fe00u32) | ((h << 9u32) as u32) } else {
                                            st2
                                        };
                                        let mc = if f.len() > 5 { parse_u32_spec(f[5]) } else { Some(0) };
                                        match mc {
                                            None => Err(FenFault::InvalidStructure("Invalid move field: "@ + f[5])),
                                            Some(m) => {
                                                let st4 = if f.len() > 5 {
                                                    (st3 & !0x1ffe0000u32) | ((m << 17u32) as u32)
                                                } else {
                                                    st3
                                                };
                                                Ok(FenPosition { white: pl.white, black: pl.black, us, state: st4 })
                                            },
                                        }
                                    },
                                }
                            },
                        },
                    },
                }
            },
        }
    }
}

/// The position a successful read gives: empty stacks, the hash computed from
/// scratch, occupancy and checkers computed from the pieces.
pub open spec fn fen_position(fp: FenPosition, mg: MoveGenerator) -> Position {
    let p = Position {
        black: fp.black,
        white: fp.white,
        us: fp.us,
        enemy: if fp.us == WHITE { BLACK } else { WHITE },
        hash: 0,
        state: fp.state,
        state_stack: Seq::empty(),
        hash_stack: Seq::empty(),
        checkers: 0,
        occ: 0,
    };
    let q = Position { occ: position_occupancy(p), checkers: position_checkers(mg, p), ..p };
    Position { hash: position_hash(q), ..q }
}

/// A FEN string the reader can take: of a size that its counters can hold,
/// no piece beyond the eighth rank, and, when it reads, a king for the side to
/// move.
pub open spec fn fen_readable(s: Seq<char>) -> bool {
    &&& s.len() < 0x1000_0000
    &&& extra_ranks_digits(split_on(s, ' ')[0])
    &&& match parse_fen_spec(s) {
        Ok(fp) => (if fp.us == WHITE { fp.white.king } else { fp.black.king }) != 0,
        Err(_) => true,
    }
}

/// The piece kind of a FEN letter, either case.
fn piece_type_of(c: char) -> (r: Option<usize>)
    ensures
        r == piece_of_char(c),
{
    if c == 'r' || c == 'R' {
        Some(ROOK)
    } else if c == 'b' || c == 'B' {
        Some(BISHOP)
    } else if c == 'k' || c == 'K' {
        Some(KING)
    } else if c == 'q' || c == 'Q' {
        Some(QUEEN)
    } else if c == 'n' || c == 'N' {
        Some(KNIGHT)
    } else if c == 'p' || c == 'P' {
        Some(PAWN)
    } else {
        None
    }
}

/// An error whose reason is `text` followed by the decimal digits of `n`.
fn structure_error_num(text: &str, n: u32) -> (r: FenError)
    ensures
        r@ == FenFault::InvalidStructure(text@ + decimal(n as nat)),
{
    let mut reason = String::from_str(text);
    push_decimal(&mut reason, n);
    FenError::InvalidStructure { reason }
}

/// An error whose reason is `text` followed by `chars`, then `tail`.
fn structure_error_chars_tail(text: &str, chars: &Vec<char>, tail: &str) -> (r: FenError)
    ensures
        r@ == FenFault::InvalidStructure(text@ + chars@ + tail@),
{
    let mut reason = String::from_str(text);
    crate::text::push_chars(&mut reason, chars);
    reason.append(tail);
    FenError::InvalidStructure { reason }
}

/// An error whose reason is `text` followed by `chars`.
fn structure_error_chars(text: &str, chars: &Vec<char>) -> (r: FenError)
    ensures
        r@ == FenFault::InvalidStructure(text@ + chars@),
{
    let mut reason = String::from_str(text);
    crate::text::push_chars(&mut reason, chars);
    FenError::InvalidStructure { reason }
}

/// An error whose reason is `text` followed by the character `c`.
fn structure_error_char(text: &str, c: char) -> (r: FenError)
    ensures
        r@ == FenFault::InvalidStructure(text@ + seq![c]),
{
    let mut reason = String::from_str(text);
    crate::text::push_char(&mut reason, c);
    proof {
        assert(reason@ =~= text@ + seq![c]);
    }
    FenError::InvalidStructure { reason }
}

/// Reads rank `i` of the piece placement.
fn parse_rank(rank: &Vec<char>, i: usize, white: &mut PieceSet, black: &mut PieceSet, pos: &mut usize) -> (r:
    Result<(), FenError>)
    requires
        i < 0x1000_0000,
        *old(pos) + rank@.len() < 0x1000_0000,
        i >= 8 ==> forall|j: int| 0 <= j < rank@.len() ==> (#[trigger] digit_value(rank@[j])) is Some,
    ensures
        ({
            let st = ReadState { white: old(white)@, black: old(black)@, file: 0, pos: *old(pos) as int };
            match r {
                Ok(_) => rank_from(rank@, 0, i as int, st) == Ok::<ReadState, FenFault>(ReadState {
                    white: final(white)@,
                    black: final(black)@,
                    file: 8,
                    pos: *final(pos) as int,
                }),
                Err(e) => rank_from(rank@, 0, i as int, st) == Err::<ReadState, FenFault>(e@),
            }
        }),
        *final(pos) <= *old(pos) + rank@.len(),
        final(white)@.color == old(white)@.color,
        final(black)@.color == old(black)@.color,
{
    let ghost st0 = ReadState { white: white@, black: black@, file: 0, pos: *pos as int };
    let mut file: usize = 0;
    let mut j: usize = 0;
    while j < rank.len()
        invariant
            j <= rank.len(),
            i < 0x1000_0000,
            *old(pos) + rank@.len() < 0x1000_0000,
            *pos == *old(pos) + j,
            file <= 9 * j,
            st0 == (ReadState { white: old(white)@, black: old(black)@, file: 0, pos: *old(pos) as int }),
            white@.color == old(white)@.color,
            black@.color == old(black)@.color,
            i >= 8 ==> forall|k: int| 0 <= k < rank@.len() ==> (#[trigger] digit_value(rank@[k])) is Some,
            rank_from(rank@, 0, i as int, st0) == rank_from(rank@, j as int, i as int, ReadState {
                white: white@,
                black: black@,
                file: file as int,
                pos: *pos as int,
            }),
        decreases rank.len() - j,
    {
        let ch = rank[j];
        match to_digit(ch) {
            Some(num) => {
                file = file + num as usize;
            },
            None => {
                if file >= 8 {
                    return Err(structure_error_num("Too many pieces in rank ", i as u32));
                }
                let piece_type = piece_type_of(ch);
                match piece_type {
                    None => {
                        return Err(FenError::InvalidCharacter { ch, position: *pos });
                    },
                    Some(pt) => {
                        let field: usize = (7 - i) * 8 + file;
                        if 'A' <= ch && ch <= 'Z' {
                            white.add_piece(field, pt);
                        } else {
                            black.add_piece(field, pt);
                        }
                        file = file + 1;
                    },
                }
            },
        }
        *pos = *pos + 1;
        j = j + 1;
    }
    if file != 8 {
        return Err(FenError::InvalidFileCount { found: file, rank: i });
    }
    Ok(())
}

/// Reads the piece placement field.
fn parse_pieces(piece_str: &Vec<char>) -> (r: Result<(PieceSet, PieceSet), FenError>)
    requires
        piece_str@.len() < 0x1000_0000,
        extra_ranks_digits(piece_str@),
    ensures
        match r {
            Ok((w, b)) => pieces_parse(piece_str@) is Ok && pieces_parse(piece_str@)->Ok_0.white == w@
                && pieces_parse(piece_str@)->Ok_0.black == b@ && w@.color == WHITE && b@.color == BLACK,
            Err(e) => pieces_parse(piece_str@) == Err::<ReadState, FenFault>(e@),
        },
{
    let ranks = split_chars(piece_str, '/');
    let ghost rs = split_on(piece_str@, '/');
    proof {
        crate::text::lemma_split_lens(piece_str@, '/');
        crate::text::lemma_split_count(piece_str@, '/');
        assert(ranks@.len() == rs.len());
    }
    if ranks.len() < 8 {
        return Err(FenError::InvalidRankCount { found: ranks.len() });
    }
    let mut white = PieceSet::new(WHITE);
    let mut black = PieceSet::new(BLACK);
    let mut pos: usize = 0;
    let ghost init = ReadState { white: no_pieces(WHITE), black: no_pieces(BLACK), file: 0, pos: 0 };
    let mut k: usize = 0;
    let ghost mut file_now: int = 0;
    while k < ranks.len()
        invariant
            k <= ranks@.len(),
            ranks@.len() == rs.len(),
            ranks@.map_values(|v: Vec<char>| v@) == rs,
            rs == split_on(piece_str@, '/'),
            rs.len() >= 8,
            rs.len() <= piece_str@.len() + 1,
            init == (ReadState { white: no_pieces(WHITE), black: no_pieces(BLACK), file: 0, pos: 0 }),
            white@.color == WHITE,
            black@.color == BLACK,
            piece_str@.len() < 0x1000_0000,
            extra_ranks_digits(piece_str@),
            forall|j: int| 0 <= j <= rs.len() ==> #[trigger] crate::text::lens_sum(rs, j) <= piece_str@.len(),
            pos <= crate::text::lens_sum(rs, k as int),
            file_now == 0 || file_now == 8,
            k > 0 ==> file_now == 8,
            ranks_from(rs, 0, init) == ranks_from(rs, k as int, ReadState {
                white: white@,
                black: black@,
                file: file_now,
                pos: pos as int,
            }),
        decreases ranks.len() - k,
    {
        let rank = &ranks[k];
        proof {
            assert(rank@ == rs[k as int]);
            assert(crate::text::lens_sum(rs, k as int + 1) == crate::text::lens_sum(rs, k as int) + rs[k as int].len());
            if k >= 8 {
                assert forall|j: int| 0 <= j < rank@.len() implies (#[trigger] digit_value(rank@[j])) is Some by {
                    assert(digit_value(rs[k as int][j]) is Some);
                }
            }
        }
        let res = parse_rank(rank, k, &mut white, &mut black, &mut pos);
        match res {
            Err(e) => {
                proof {
                    assert(pieces_parse(piece_str@) == ranks_from(rs, 0, init));
                }
                return Err(e);
            },
            Ok(_) => {},
        }
        proof {
            file_now = 8;
        }
        k = k + 1;
    }
    proof {
        assert(ranks_from(rs, k as int, ReadState { white: white@, black: black@, file: file_now, pos: pos as int })
            == Ok::<ReadState, FenFault>(ReadState { white: white@, black: black@, file: file_now, pos: pos as int }));
    }
    Ok((white, black))
}

/// Whether `s` is the one-character text `c`.
fn is_single(s: &Vec<char>, c: char) -> (r: bool)
    ensures
        r == (s@ == seq![c]),
{
    let r = s.len() == 1 && s[0] == c;
    proof {
        if s@.len() == 1 && s@[0] == c {
            assert(s@ =~= seq![c]);
        }
    }
    r
}

/// Reads the castling field.
fn parse_castling_rights(state: &mut BoardState, castling_rights: &Vec<char>) -> (r: Result<(), FenError>)
    ensures
        match r {
            Ok(_) => castling_parse(castling_rights@, old(state)@) == Ok::<u32, FenFault>(final(state)@),
            Err(e) => castling_parse(castling_rights@, old(state)@) == Err::<u32, FenFault>(e@),
        },
        ep_file_of(final(state)@) == ep_file_of(old(state)@),
{
    if is_single(castling_rights, '-') {
        return Ok(());
    }
    let mut j: usize = 0;
    while j < castling_rights.len()
        invariant
            j <= castling_rights@.len(),
            castling_rights@ != seq!['-'],
            castling_parse(castling_rights@, old(state)@) == castling_from(castling_rights@, j as int, state@),
            ep_file_of(state@) == ep_file_of(old(state)@),
        decreases castling_rights.len() - j,
    {
        let ch = castling_rights[j];
        proof {
            lemma_packed_fields(state@, 0, 0);
        }
        if ch == 'K' {
            state.set_castling_rights_for(WHITE, KING);
        } else if ch == 'k' {
            state.set_castling_rights_for(BLACK, KING);
        } else if ch == 'Q' {
            state.set_castling_rights_for(WHITE, QUEEN);
        } else if ch == 'q' {
            state.set_castling_rights_for(BLACK, QUEEN);
        } else {
            return Err(structure_error_char("Invalid castling rights character: ", ch));
        }
        j = j + 1;
    }
    Ok(())
}

/// Reads the en passant field.
fn parse_en_passant_file(state: &mut BoardState, en_passant_field: &Vec<char>) -> (r: Result<(), FenError>)
    requires
        en_passant_field@.len() < 0x1000_0000,
    ensures
        match r {
            Ok(_) => en_passant_parse(en_passant_field@, old(state)@) == Ok::<u32, FenFault>(final(state)@),
            Err(e) => en_passant_parse(en_passant_field@, old(state)@) == Err::<u32, FenFault>(e@),
        },
        ep_file_of(final(state)@) <= 8 || ep_file_of(final(state)@) == ep_file_of(old(state)@),
{
    if is_single(en_passant_field, '-') {
        return Ok(());
    }
    if utf8_length(en_passant_field) != 2 {
        return Err(structure_error_chars("Invalid en-passant structure: ", en_passant_field));
    }
    proof {
        if en_passant_field@.len() == 0 {
            assert(utf8_len_of(en_passant_field@, 0) == 0);
        }
    }
    let c = en_passant_field[0];
    if 'a' <= c && c <= 'h' {
        let file = ((c as u32) - ('a' as u32) + 1) as usize;
        state.set_en_passant_file(file);
        Ok(())
    } else {
        Err(structure_error_chars("Invalid en-passant structure: ", en_passant_field))
    }
}

/// Reads the fields of a FEN string: the pieces of both sides, the side to
/// move and the other side, and the packed state.
fn read_fields(fen: &str) -> (r: Result<(PieceSet, PieceSet, usize, usize, BoardState), FenError>)
    requires
        fen@.len() < 0x1000_0000,
        extra_ranks_digits(split_on(fen@, ' ')[0]),
    ensures
        match r {
            Ok((white, black, us, enemy, state)) => {
                &&& parse_fen_spec(fen@) is Ok
                &&& parse_fen_spec(fen@)->Ok_0.white == white@
                &&& parse_fen_spec(fen@)->Ok_0.black == black@
                &&& parse_fen_spec(fen@)->Ok_0.us == us
                &&& parse_fen_spec(fen@)->Ok_0.state == state@
                &&& enemy == (if us == WHITE { BLACK } else { WHITE })
                &&& (us == WHITE || us == BLACK)
                &&& white@.color == WHITE
                &&& black@.color == BLACK
                &&& ep_file_of(state@) <= 8
            },
            Err(e) => parse_fen_spec(fen@) == Err::<FenPosition, FenFault>(e@),
        },
{
    let chars = chars_of(fen);
    let splits = split_chars(&chars, ' ');
    let ghost f = split_on(fen@, ' ');
    proof {
        assert(splits@.len() == f.len());
        crate::text::lemma_split_count(fen@, ' ');
        crate::text::lemma_split_lens(fen@, ' ');
    }
    if splits.len() < 4 {
        return Err(structure_error_num("Invalid number of splits, expected 6, found ", splits.len() as u32));
    }
    proof {
        assert(splits@[0]@ == f[0]);
        assert(splits@[1]@ == f[1]);
        assert(splits@[2]@ == f[2]);
        assert(splits@[3]@ == f[3]);
        crate::text::lemma_lens_mono(f, 0, 0);
        crate::text::lemma_lens_mono(f, 0, 3);
        assert(crate::text::lens_sum(f, 1) == crate::text::lens_sum(f, 0) + f[0].len());
        assert(crate::text::lens_sum(f, 4) == crate::text::lens_sum(f, 3) + f[3].len());
    }
    let pieces = parse_pieces(&splits[0]);
    let (white, black) = match pieces {
        Err(e) => {
            return Err(e);
        },
        Ok(wb) => wb,
    };
    let (us, enemy) = if is_single(&splits[1], 'w') {
        (WHITE, BLACK)
    } else if is_single(&splits[1], 'b') {
        (BLACK, WHITE)
    } else {
        return Err(structure_error_chars_tail("Invalid side to move field ", &splits[1], ", expected 'w' or 'b'"));
    };
    let mut state = BoardState::new();
    proof {
        lemma_packed_fields(state@, 0, 0);
    }
    match parse_castling_rights(&mut state, &splits[2]) {
        Err(e) => {
            return Err(e);
        },
        Ok(_) => {},
    }
    match parse_en_passant_file(&mut state, &splits[3]) {
        Err(e) => {
            return Err(e);
        },
        Ok(_) => {},
    }
    let ghost st2 = state@;
    if splits.len() > 4 {
        proof {
            assert(splits@[4]@ == f[4]);
        }
        match parse_u32(&splits[4]) {
            None => {
                return Err(structure_error_chars("Invalid halfmove field: ", &splits[4]));
            },
            Some(h) => {
                proof {
                    lemma_packed_fields(state@, h, 0);
                }
                state.set_halfmove_clock(h);
            },
        }
    }
    let ghost st3 = state@;
    if splits.len() > 5 {
        proof {
            assert(splits@[5]@ == f[5]);
        }
        match parse_u32(&splits[5]) {
            None => {
                return Err(structure_error_chars("Invalid move field: ", &splits[5]));
            },
            Some(m) => {
                proof {
                    lemma_packed_fields(state@, m, 0);
                }
                state.set_move_clock(m);
            },
        }
    }
    proof {
        let fp = parse_fen_spec(fen@)->Ok_0;
        assert(parse_fen_spec(fen@) is Ok);
        assert(fp.white == white@ && fp.black == black@ && fp.us == us && fp.state == state@);
        assert(ep_file_of(state@) <= 8);
    }
    Ok((white, black, us, enemy, state))
}

/// Reads a FEN string into a position that uses the attack tables `mg`.
pub fn parse_fen_with(fen: &str, mg: Arc<MoveGenerator>) -> (r: Result<Board, FenError>)
    requires
        fen_readable(fen@),
    ensures
        match r {
            Ok(b) => parse_fen_spec(fen@) is Ok && b@ == fen_position(parse_fen_spec(fen@)->Ok_0, *mg) && b.gen()
                == *mg,
            Err(e) => parse_fen_spec(fen@) == Err::<FenPosition, FenFault>(e@),
        },
{
    let (white, black, us, enemy, state) = match read_fields(fen) {
        Err(e) => {
            return Err(e);
        },
        Ok(x) => x,
    };
    let mut board = Board::new(ZobristHasher::new(), mg);
    board.players = [black, white];
    board.us = us;
    board.enemy = enemy;
    board.set_state(state);
    board.compute_occ_and_checkers();
    board.compute_hash();
    proof {
        assert(board@ =~= fen_position(parse_fen_spec(fen@)->Ok_0, *mg));
    }
    Ok(board)
}

/// Reads a FEN string into a position with attack tables of its own.
pub fn parse_fen(fen: &str) -> (r: Result<Board, FenError>)
    requires
        fen_readable(fen@),
    ensures
        match r {
            Ok(b) => parse_fen_spec(fen@) is Ok && b@ == fen_position(parse_fen_spec(fen@)->Ok_0, b.gen())
                && tables_exact(b.gen()),
            Err(e) => parse_fen_spec(fen@) == Err::<FenPosition, FenFault>(e@),
        },
{
    let mg = Arc::new(MoveGenerator::new());
    parse_fen_with(fen, mg)
}


/// Whether the ranks beyond the eighth of a placement field hold only digits.
fn extra_ranks_are_digits(place: &Vec<char>) -> (r: bool)
    ensures
        r == extra_ranks_digits(place@),
{
    let ranks = split_chars(place, '/');
    let ghost rs = split_on(place@, '/');
    proof {
        assert(ranks@.len() == rs.len());
    }
    let mut k: usize = 8;
    while k < ranks.len()
        invariant
            8 <= k,
            ranks@.map_values(|v: Vec<char>| v@) == rs,
            rs == split_on(place@, '/'),
            forall|kk: int, j: int| 8 <= kk < k && kk < rs.len() && 0 <= j < rs[kk].len() ==> (#[trigger] digit_value(
                rs[kk][j])) is Some,
        decreases ranks@.len() - k,
    {
        let rank = &ranks[k];
        proof {
            assert(rank@ == rs[k as int]);
        }
        let mut j: usize = 0;
        while j < rank.len()
            invariant
                0 <= j <= rank@.len(),
                8 <= k < rs.len(),
                rs == split_on(place@, '/'),
                rank@ == rs[k as int],
                forall|jj: int| 0 <= jj < j ==> (#[trigger] digit_value(rs[k as int][jj])) is Some,
            decreases rank@.len() - j,
        {
            if to_digit(rank[j]).is_none() {
                proof {
                    assert(rank@[j as int] == rs[k as int][j as int]);
                    assert(digit_value(rs[k as int][j as int]) is None);
                }
                return false;
            }
            j += 1;
        }
        k += 1;
    }
    true
}

/// Reads a FEN string when the reader can take it (see `fen_readable`):
/// nothing for a string too long for its counters, with a piece beyond the
/// eighth rank, or that reads without a king for the side to move; else what
/// `parse_fen` gives.
pub fn read_fen(fen: &str) -> (r: Option<Result<Board, FenError>>)
    ensures
        r is None <==> !fen_readable(fen@),
        r matches Some(x) ==> match x {
            Ok(b) => parse_fen_spec(fen@) is Ok && b@ == fen_position(parse_fen_spec(fen@)->Ok_0, b.gen()),
            Err(e) => parse_fen_spec(fen@) == Err::<FenPosition, FenFault>(e@),
        },
{
    let chars = chars_of(fen);
    if chars.len() >= 0x1000_0000 {
        return None;
    }
    let splits = split_chars(&chars, ' ');
    proof {
        lemma_split_nonempty(fen@, ' ');
        assert(splits@.map_values(|v: Vec<char>| v@).len() == splits@.len());
        assert(splits@[0]@ == split_on(fen@, ' ')[0]);
    }
    if !extra_ranks_are_digits(&splits[0]) {
        return None;
    }
    match read_fields(fen) {
        Err(e) => Some(Err(e)),
        Ok((white, black, us, _enemy, _state)) => {
            let king = if us == WHITE { white.get_king() } else { black.get_king() };
            if king == 0 {
                None
            } else {
                Some(parse_fen(fen))
            }
        },
    }
}
} // verus!
