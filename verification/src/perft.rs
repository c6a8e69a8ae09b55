use vstd::prelude::*;
use crate::position::board::{Board, Position};
use crate::moving::mv::Move;
use crate::moving::move_list::MoveList;
use crate::moving::generation::{generate_moves, legal_moves, same_board, lemma_legal_moves_read_view};
use crate::moving::move_generation::{MoveGenerator, tables_exact, lemma_wf_exact};
use crate::moving::move_making::{move_fits, made, position_wf, law_unmake_undoes_make};
use crate::moving::soundness::{position_sound, lemma_wf_sound, lemma_made_wf};
use crate::fen_parsing::fen_parsing::{parse_fen, FenError, FenFault, FenPosition, fen_readable, parse_fen_spec,
    fen_position};

verus! {

/// The leaf count of a position by depth, with the count of each first move.
pub struct PerftCount {
    pub result: usize,
    pub moves: Vec<(Move, usize)>,
}

/// The sum, wrapping as the counter does, of the counts of a list of first moves.
pub open spec fn perft_total(moves: Seq<(Move, usize)>) -> usize
    decreases moves.len(),
{
    if moves.len() == 0 {
        0
    } else {
        perft_total(moves.drop_last()).wrapping_add(moves.last().1)
    }
}

/// The legal moves of a position: those the generator gives for any board
/// with that view (they depend on the view alone).
pub open spec fn moves_at(mg: MoveGenerator, p: Position) -> Seq<u16> {
    legal_moves(mg, board_at(p))
}

/// A board with view `p` and sides in range, when there is one.
pub open spec fn board_at(p: Position) -> Board {
    choose|b: Board| same_board(b, b) && b@ == p
}

/// The legal moves of a board are those of its view.
pub proof fn lemma_moves_at(mg: MoveGenerator, b: Board)
    requires
        same_board(b, b),
    ensures
        moves_at(mg, b@) == legal_moves(mg, b),
{
    let p = b@;
    assert(exists|x: Board| same_board(x, x) && x@ == p) by {
        assert(same_board(b, b) && b@ == p);
    }
    let w = board_at(p);
    assert(same_board(w, w) && w@ == p);
    lemma_legal_moves_read_view(mg, b, w);
}

/// The perft count of a position by depth: 1 at depth 0, the number of legal
/// moves at depth 1 (or below), else the wrapping sum over the legal moves
/// that fit the position and leave it sound of the count below them.
pub open spec fn perft_of(mg: MoveGenerator, p: Position, d: int) -> usize
    decreases d, 1int, 0int,
{
    if d == 0 {
        1
    } else if d <= 1 {
        moves_at(mg, p).len() as usize
    } else {
        perft_sum(mg, p, moves_at(mg, p), moves_at(mg, p).len() as int, d)
    }
}

/// The wrapping sum over the first `k` moves of `ms` of the counts below them
/// at depth `d - 1`; a move that does not fit, or leaves a position that is
/// not sound, counts nothing.
pub open spec fn perft_sum(mg: MoveGenerator, p: Position, ms: Seq<u16>, k: int, d: int) -> usize
    decreases d, 0int, k,
{
    if k <= 0 || d <= 1 {
        0
    } else {
        let m = ms[k - 1];
        let below: usize = if move_fits(p, m) && position_sound(made(p, mg, m)) {
            perft_of(mg, made(p, mg, m), d - 1)
        } else {
            0
        };
        perft_sum(mg, p, ms, k - 1, d).wrapping_add(below)
    }
}

/// The number of move sequences of `depth_left` plies from `board` (the
/// moves of the last ply counted, not played); every move is played and
/// taken back, so the board ends as it started.
pub fn test_perft(board: &mut Board, depth_left: i32) -> (r: usize)
    requires
        position_wf(old(board)@, old(board).gen()),
    ensures
        final(board)@ == old(board)@,
        final(board).gen() == old(board).gen(),
        r == perft_of(old(board).gen(), old(board)@, depth_left as int),
    decreases depth_left,
{
    if depth_left == 0 {
        return 1;
    }
    proof {
        lemma_wf_sound(*board);
    }
    let mut new_move_list = MoveList::new();
    generate_moves(&mut new_move_list, board);
    let ghost p0 = board@;
    let ghost mg = board.gen();
    proof {
        lemma_moves_at(mg, *board);
    }
    if depth_left <= 1 {
        return new_move_list.get_count();
    }
    let ghost ms = moves_at(mg, p0);
    let mut i: usize = 0;
    let mut result: usize = 0;
    while i < new_move_list.get_count()
        invariant
            board@ == p0,
            p0 == old(board)@,
            board.gen() == mg,
            mg == old(board).gen(),
            position_wf(p0, mg),
            depth_left > 1,
            board.us < 2 && board.enemy < 2,
            new_move_list@ == ms,
            0 <= i <= ms.len(),
            result == perft_sum(mg, p0, ms, i as int, depth_left as int),
        decreases new_move_list@.len() - i,
    {
        let mv = *new_move_list.get_move(i);
        if board.fits_move(&mv) {
            proof {
                law_unmake_undoes_make(p0, mg, mv@);
            }
            board.make_move(&mv);
            if board.is_sound() {
                proof {
                    lemma_made_wf(p0, mg, mv@);
                }
                let mv_res = test_perft(board, depth_left - 1);
                result = result.wrapping_add(mv_res);
            }
            board.unmake_move(&mv);
        }
        i += 1;
    }
    result
}

/// The first moves of a perft, each with its count at depth `d - 1`: those of
/// the first `k` moves of `ms` that fit the position and leave it sound.
pub open spec fn perft_moves(mg: MoveGenerator, p: Position, ms: Seq<u16>, k: int, d: int) -> Seq<(u16, usize)>
    decreases k,
{
    if k <= 0 {
        Seq::empty()
    } else {
        let m = ms[k - 1];
        let rest = perft_moves(mg, p, ms, k - 1, d);
        if move_fits(p, m) && position_sound(made(p, mg, m)) {
            rest.push((m, perft_of(mg, made(p, mg, m), d - 1)))
        } else {
            rest
        }
    }
}

/// The packed moves of a list of first moves with their counts.
pub open spec fn counts_view(moves: Seq<(Move, usize)>) -> Seq<(u16, usize)> {
    moves.map_values(|x: (Move, usize)| (x.0@, x.1))
}

/// What a perft of `fen` at `depth` lists with the attack tables `mg`: nothing
/// when the position is not sound, else its first moves with their counts.
pub open spec fn perft_listed(fen: Seq<char>, mg: MoveGenerator, depth: int, listed: Seq<(u16, usize)>) -> bool {
    let p = fen_position(parse_fen_spec(fen)->Ok_0, mg);
    if position_sound(p) {
        listed == perft_moves(mg, p, moves_at(mg, p), moves_at(mg, p).len() as int, depth)
    } else {
        listed.len() == 0
    }
}

/// The perft count of the position of `fen` at `depth`: the leaf count, and
/// for each first move (in the order the generator gives them) the count
/// below it; a position without both kings counts nothing.
pub fn make_perft(fen: &str, depth: i32) -> (r: Result<PerftCount, FenError>)
    requires
        fen_readable(fen@),
        depth > i32::MIN,
    ensures
        match r {
            Ok(c) => {
                &&& parse_fen_spec(fen@) is Ok
                &&& c.result == perft_total(c.moves@)
                &&& exists|mg: MoveGenerator| tables_exact(mg) && #[trigger] perft_listed(fen@, mg, depth as int, counts_view(c.moves@))
            },
            Err(e) => parse_fen_spec(fen@) == Err::<FenPosition, FenFault>(e@),
        },
{
    let mut board = match parse_fen(fen) {
        Ok(b) => b,
        Err(e) => {
            return Err(e);
        },
    };
    let mut moves: Vec<(Move, usize)> = Vec::new();
    let ghost mg = board.gen();
    let tables = board.get_mg();
    proof {
        use_type_invariant(tables);
        lemma_wf_exact(*tables);
    }
    if !board.is_sound() {
        proof {
            assert(counts_view(moves@) =~= Seq::<(u16, usize)>::empty());
            assert(perft_listed(fen@, mg, depth as int, counts_view(moves@)));
        }
        return Ok(PerftCount { result: 0, moves });
    }
    proof {
        lemma_wf_sound(board);
    }
    let ghost p0 = board@;
    let mut result: usize = 0;
    let mut mv_list = MoveList::new();
    generate_moves(&mut mv_list, &board);
    let ghost ms = moves_at(mg, p0);
    proof {
        lemma_moves_at(mg, board);
        assert(counts_view(moves@) =~= perft_moves(mg, p0, ms, 0, depth as int));
    }
    let count = mv_list.get_count();
    let mut i: usize = 0;
    while i < count
        invariant
            board@ == p0,
            board.gen() == mg,
            position_wf(p0, mg),
            count == mv_list@.len(),
            board.us < 2 && board.enemy < 2,
            depth > i32::MIN,
            result == perft_total(moves@),
            mv_list@ == ms,
            0 <= i <= count,
            counts_view(moves@) == perft_moves(mg, p0, ms, i as int, depth as int),
        decreases count - i,
    {
        let mv = *mv_list.get_move(i);
        if board.fits_move(&mv) {
            proof {
                law_unmake_undoes_make(p0, mg, mv@);
            }
            board.make_move(&mv);
            if board.is_sound() {
                proof {
                    lemma_made_wf(p0, mg, mv@);
                }
                let mv_result = test_perft(&mut board, depth - 1);
                let ghost before = moves@;
                moves.push((mv, mv_result));
                result = result.wrapping_add(mv_result);
                proof {
                    assert(moves@.drop_last() =~= before);
                    assert(counts_view(moves@) =~= counts_view(before).push((mv@, mv_result)));
                }
            }
            board.unmake_move(&mv);
        }
        i += 1;
    }
    proof {
        assert(perft_listed(fen@, mg, depth as int, counts_view(moves@)));
    }
    Ok(PerftCount { result, moves })
}

} // verus!
