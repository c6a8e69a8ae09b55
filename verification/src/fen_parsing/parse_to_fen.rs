use vstd::prelude::*;
use crate::constants::{WHITE, PAWN, KNIGHT, BISHOP, ROOK, QUEEN, NONE};
use crate::position::board::{Board, Position};
use crate::position::board_state::{castling_of, ep_file_of, halfmove_of, move_clock_of, lemma_packed_fields};
use crate::position::piece_set::{Pieces, piece_at};
use crate::text::{push_char, push_decimal, decimal, digit_char, file_char, char_of_digit};

verus! {

/// The FEN letter of a piece: lower case for black, upper case for white.
pub open spec fn fen_char(piece: int, white: bool) -> char {
    if piece == PAWN {
        if white { 'P' } else { 'p' }
    } else if piece == ROOK {
        if white { 'R' } else { 'r' }
    } else if piece == BISHOP {
        if white { 'B' } else { 'b' }
    } else if piece == KNIGHT {
        if white { 'N' } else { 'n' }
    } else if piece == QUEEN {
        if white { 'Q' } else { 'q' }
    } else {
        if white { 'K' } else { 'k' }
    }
}

/// The digit for a run of `skip` empty squares, if any.
pub open spec fn skip_text(skip: int) -> Seq<char> {
    if skip != 0 {
        seq![digit_char(skip)]
    } else {
        Seq::empty()
    }
}

/// The text of rank `rank` from file `f` on, `skip` empty squares pending; a
/// black piece is read before a white one on the same square.
pub open spec fn rank_text(w: Pieces, b: Pieces, rank: int, f: int, skip: int) -> Seq<char>
    decreases 8 - f,
{
    if f >= 8 {
        skip_text(skip)
    } else {
        let sq = rank * 8 + f;
        let bp = piece_at(b, sq);
        let wp = piece_at(w, sq);
        let piece = if bp != NONE { bp } else { wp };
        if piece == NONE {
            rank_text(w, b, rank, f + 1, skip + 1)
        } else {
            skip_text(skip) + seq![fen_char(piece as int, bp == NONE)] + rank_text(w, b, rank, f + 1, 0)
        }
    }
}

/// The piece placement field from rank `r` down to the first rank.
pub open spec fn placement_text(w: Pieces, b: Pieces, r: int) -> Seq<char>
    decreases r,
{
    if r <= 0 {
        rank_text(w, b, 0, 0, 0)
    } else {
        rank_text(w, b, r, 0, 0) + seq!['/'] + placement_text(w, b, r - 1)
    }
}

/// The castling field.
pub open spec fn castling_text(st: u32) -> Seq<char> {
    if castling_of(st) == 0 {
        seq!['-']
    } else {
        (if st & 0b1000 != 0 { seq!['K'] } else { Seq::empty() }) + (if st & 0b10000 != 0 { seq!['Q'] } else {
            Seq::empty()
        }) + (if st & 0b10 != 0 { seq!['k'] } else { Seq::empty() }) + (if st & 0b100 != 0 { seq!['q'] } else {
            Seq::empty()
        })
    }
}

/// The en passant field: the file and the rank behind the pawn that moved.
pub open spec fn en_passant_text(st: u32, us: usize) -> Seq<char> {
    let file = ep_file_of(st) as int;
    if file == 0 {
        seq!['-']
    } else {
        seq![file_char(file - 1), if us == WHITE { '6' } else { '3' }]
    }
}

/// The FEN text of a position.
pub open spec fn fen_text(p: Position) -> Seq<char> {
    placement_text(p.white, p.black, 7) + seq![' '] + (if p.us == WHITE { seq!['w'] } else { seq!['b'] }) + seq![
        ' ',
    ] + castling_text(p.state) + seq![' '] + en_passant_text(p.state, p.us) + seq![' '] + decimal(
        halfmove_of(p.state) as nat,
    ) + seq![' '] + decimal(move_clock_of(p.state) as nat)
}

/// The FEN letter of a piece.
fn piece_to_char(piece: usize, white: bool) -> (c: char)
    requires
        piece < 6,
    ensures
        c == fen_char(piece as int, white),
{
    if piece == PAWN {
        if white { 'P' } else { 'p' }
    } else if piece == ROOK {
        if white { 'R' } else { 'r' }
    } else if piece == BISHOP {
        if white { 'B' } else { 'b' }
    } else if piece == KNIGHT {
        if white { 'N' } else { 'n' }
    } else if piece == QUEEN {
        if white { 'Q' } else { 'q' }
    } else {
        if white { 'K' } else { 'k' }
    }
}

/// The letter of file `file < 8`.
fn file_to_char(file: u32) -> (c: char)
    requires
        file < 8,
    ensures
        c == file_char(file as int),
{
    if file == 0 { 'a' } else if file == 1 { 'b' } else if file == 2 { 'c' } else if file == 3 { 'd' }
    else if file == 4 { 'e' } else if file == 5 { 'f' } else if file == 6 { 'g' } else { 'h' }
}

impl Board {
    /// The position as a FEN string.
    pub fn to_fen(&self) -> (r: String)
        requires
            ep_file_of(self@.state) <= 8,
        ensures
            r@ == fen_text(self@),
    {
        let mut s = String::new();
        self.parse_pieces(&mut s);
        push_char(&mut s, ' ');
        self.parse_side_to_move(&mut s);
        push_char(&mut s, ' ');
        self.parse_castling_rights(&mut s);
        push_char(&mut s, ' ');
        self.parse_en_passant_file(&mut s);
        push_char(&mut s, ' ');
        let state = self.get_state();
        push_decimal(&mut s, state.get_halfmove_clock());
        push_char(&mut s, ' ');
        push_decimal(&mut s, state.get_move_clock());
        proof {
            assert(s@ =~= fen_text(self@));
        }
        s
    }

    /// Appends the piece placement field.
    fn parse_pieces(&self, s: &mut String)
        ensures
            final(s)@ == old(s)@ + placement_text(self@.white, self@.black, 7),
    {
        let ghost w = self@.white;
        let ghost b = self@.black;
        let mut rank: usize = 8;
        while rank > 0
            invariant
                rank <= 8,
                w == self@.white,
                b == self@.black,
                rank == 8 ==> s@ == old(s)@,
                rank < 8 ==> s@ + seq!['/'] + placement_text(w, b, rank as int - 1) == old(s)@ + placement_text(w,
                    b, 7) || (rank == 0 && s@ == old(s)@ + placement_text(w, b, 7)),
                rank < 8 && rank > 0 ==> s@ + seq!['/'] + placement_text(w, b, rank as int - 1) == old(s)@
                    + placement_text(w, b, 7),
                rank == 0 ==> s@ == old(s)@ + placement_text(w, b, 7),
            decreases rank,
        {
            let ghost before = s@;
            rank = rank - 1;
            if rank < 7 {
                push_char(s, '/');
            }
            let ghost mid = s@;
            self.push_rank(s, rank);
            proof {
                if rank == 7 {
                    if rank > 0 {
                        assert(placement_text(w, b, 7) == rank_text(w, b, 7, 0, 0) + seq!['/'] + placement_text(w,
                            b, 6));
                        assert(s@ + seq!['/'] + placement_text(w, b, rank as int - 1) =~= old(s)@ + placement_text(w,
                            b, 7));
                    }
                } else {
                    if rank > 0 {
                        assert(placement_text(w, b, rank as int) == rank_text(w, b, rank as int, 0, 0) + seq!['/']
                            + placement_text(w, b, rank as int - 1));
                        assert(s@ + seq!['/'] + placement_text(w, b, rank as int - 1) =~= before + seq!['/']
                            + placement_text(w, b, rank as int));
                    } else {
                        assert(s@ =~= before + seq!['/'] + placement_text(w, b, 0));
                    }
                }
            }
        }
    }

    /// Appends the text of rank `rank`.
    fn push_rank(&self, s: &mut String, rank: usize)
        requires
            rank < 8,
        ensures
            final(s)@ == old(s)@ + rank_text(self@.white, self@.black, rank as int, 0, 0),
    {
        let white_piece_set = &self.players[WHITE];
        let black_piece_set = &self.players[0];
        let ghost w = self@.white;
        let ghost b = self@.black;
        let mut skip_count: usize = 0;
        let mut file: usize = 0;
        while file < 8
            invariant
                file <= 8,
                rank < 8,
                skip_count <= file,
                w == white_piece_set@,
                b == black_piece_set@,
                s@ + rank_text(w, b, rank as int, file as int, skip_count as int) == old(s)@ + rank_text(w, b, rank
                    as int, 0, 0),
            decreases 8 - file,
        {
            let ghost before = s@;
            let field = rank * 8 + file;
            let white_piece = white_piece_set.get_piece_at(field);
            let black_piece = black_piece_set.get_piece_at(field);
            let make_upper = black_piece == NONE;
            let piece = if black_piece != NONE { black_piece } else { white_piece };
            if piece == NONE {
                skip_count = skip_count + 1;
            } else {
                if skip_count != 0 {
                    push_char(s, char_of_digit(skip_count as u32));
                }
                push_char(s, piece_to_char(piece, make_upper));
                proof {
                    assert(s@ + rank_text(w, b, rank as int, file as int + 1, 0) =~= before + rank_text(w, b, rank as int,
                        file as int, skip_count as int));
                }
                skip_count = 0;
            }
            file = file + 1;
        }
        if skip_count != 0 {
            let ghost before = s@;
            push_char(s, char_of_digit(skip_count as u32));
            proof {
                assert(s@ =~= before + rank_text(w, b, rank as int, 8, skip_count as int));
            }
        }
        proof {
            assert(s@ =~= old(s)@ + rank_text(w, b, rank as int, 0, 0));
        }
    }

    /// Appends the side to move.
    fn parse_side_to_move(&self, s: &mut String)
        ensures
            final(s)@ == old(s)@ + (if self@.us == WHITE { seq!['w'] } else { seq!['b'] }),
    {
        if self.us == WHITE {
            push_char(s, 'w');
        } else {
            push_char(s, 'b');
        }
        proof {
            assert(s@ =~= old(s)@ + (if self@.us == WHITE { seq!['w'] } else { seq!['b'] }));
        }
    }

    /// Appends the castling field.
    fn parse_castling_rights(&self, s: &mut String)
        ensures
            final(s)@ == old(s)@ + castling_text(self@.state),
    {
        let state = self.get_state();
        let castling_rights = state.get_castling_rights();
        if castling_rights == 0 {
            push_char(s, '-');
        } else {
            if state.can_castle_kingside(WHITE) {
                push_char(s, 'K');
            }
            if state.can_castle_queenside(WHITE) {
                push_char(s, 'Q');
            }
            if state.can_castle_kingside(0) {
                push_char(s, 'k');
            }
            if state.can_castle_queenside(0) {
                push_char(s, 'q');
            }
        }
        proof {
            assert(s@ =~= old(s)@ + castling_text(self@.state));
        }
    }

    /// Appends the en passant field.
    fn parse_en_passant_file(&self, s: &mut String)
        requires
            ep_file_of(self@.state) <= 8,
        ensures
            final(s)@ == old(s)@ + en_passant_text(self@.state, self@.us),
    {
        let file = self.get_state().get_en_passant_file();
        if file == 0 {
            push_char(s, '-');
        } else {
            let file = file - 1;
            push_char(s, file_to_char(file as u32));
            if self.us == WHITE {
                push_char(s, '6');
            } else {
                push_char(s, '3');
            }
        }
        proof {
            assert(s@ =~= old(s)@ + en_passant_text(self@.state, self@.us));
        }
    }
}

} // verus!
