use vstd::prelude::*;
use std::sync::Arc;
use std::sync::atomic::AtomicBool;
use crate::constants::{WHITE, BLACK};
use crate::bitboard_helpers::{count_ones, popcount, lemma_popcount_le_64};
use crate::position::board::{Board, Position, position_occupancy};
use crate::position::piece_set::PieceSet;
use crate::moving::mv::{Move, lemma_move_fields, start_of, target_of};
use crate::moving::move_list::MoveList;
use crate::moving::generation::{generate_moves, legal_moves, lemma_legal_moves_read_view,
    lemma_legality_reads_view, same_board};
use crate::moving::legality::move_legal;
use crate::moving::move_making::{position_wf, move_fits, made, unmade, unmake_ready, law_unmake_undoes_make};
use crate::moving::null_move::{null_made, law_unmake_null_undoes_null};
use crate::moving::soundness::{position_sound, lemma_wf_sound, lemma_made_wf, lemma_null_wf};
use crate::evaluation::evaluator::{Evaluator, evaluation, lemma_evaluation_reads_view};
use crate::evaluation::pawn_structure::cache_correct;
use crate::search::history::HistoryTable;
use crate::search::negamax::{Tables, nsearch, nloop, nmove, lmr_of, lemma_unfold, rsearch, rloop,
    lemma_rloop_unfold, deepen};
use crate::search::move_ordering::lemma_order_next_views;
use crate::search::quiescence::{negate, board_at, lemma_board_at, qsearch, qloop, lemma_qsearch_start,
    lemma_qloop_none, lemma_qloop_skip, lemma_qloop_score, lemma_qsearch_no_moves, lemma_qsearch_stand_pat, history_with, killers_with,
    move_with, lemma_tables_with, lemma_move_with};
use crate::search::killers::KillerTable;
use crate::search::transposition::{TTable, Entry, TTEntryType, probed, tt_slot};
use crate::search::pv_table::{move_text, push_move_text, pv_line};
use crate::text::{push_char, push_signed, push_decimal_u64, signed_decimal, decimal};
use vstd::string::StringExecFns;
use crate::search::move_ordering::{OrderedMovesIter, QuiesceOrderedMovesIter, all_fit, order_next, quiesce_next,
    law_order_next_fits, law_quiesce_next_fits, lemma_quiesce_list_fits, law_quiesce_next_from_remaining,
    MoveOrderingPhase, phase_index, lemma_order_next_empty, all_legal, QuiesceOrderingPhase, quiesce_list,
    lemma_quiesce_list_views};

verus! {

/// A score above every evaluation, the bounds of the root window.
pub const INFINITY: i32 = 10_000_000;
/// The score of a mate (less the plies it takes).
pub const MATE: i32 = 1_000_000;
/// The depth a null move search is reduced by.
pub const NULL_MOVE_RED: i32 = 3;
/// The deepest search: the history bonus `depth² + 1` must fit an `i32`.
pub const MAX_SEARCH_DEPTH: i32 = 46340;

/// The late move reductions by remaining depth: for depth `d`, the move
/// numbers from which the reduction reaches 1, 2, .. 8 plies
/// (`0.99 + ln(d) ln(n) / π` rounded down, for depths and move numbers from
/// 4 on; 218 means never).
pub const LMR_THRESHOLDS: [[u8; 8]; 64] = [
    [218, 218, 218, 218, 218, 218, 218, 218],
    [218, 218, 218, 218, 218, 218, 218, 218],
    [2, 98, 218, 218, 218, 218, 218, 218],
    [2, 18, 218, 218, 218, 218, 218, 218],
    [2, 10, 96, 218, 218, 218, 218, 218],
    [2, 8, 51, 218, 218, 218, 218, 218],
    [2, 6, 34, 196, 218, 218, 218, 218],
    [2, 6, 26, 129, 218, 218, 218, 218],
    [2, 5, 21, 95, 218, 218, 218, 218],
    [2, 5, 18, 74, 218, 218, 218, 218],
    [2, 4, 16, 61, 218, 218, 218, 218],
    [2, 4, 14, 52, 192, 218, 218, 218],
    [2, 4, 13, 45, 160, 218, 218, 218],
    [2, 4, 12, 40, 136, 218, 218, 218],
    [2, 4, 11, 36, 119, 218, 218, 218],
    [2, 4, 11, 33, 105, 218, 218, 218],
    [2, 4, 10, 31, 95, 218, 218, 218],
    [2, 4, 10, 29, 86, 218, 218, 218],
    [2, 3, 9, 27, 79, 218, 218, 218],
    [2, 3, 9, 25, 73, 210, 218, 218],
    [2, 3, 9, 24, 68, 192, 218, 218],
    [2, 3, 8, 23, 63, 176, 218, 218],
    [2, 3, 8, 22, 59, 163, 218, 218],
    [2, 3, 8, 21, 56, 152, 218, 218],
    [2, 3, 8, 20, 53, 142, 218, 218],
    [2, 3, 8, 19, 51, 133, 218, 218],
    [2, 3, 7, 19, 48, 126, 218, 218],
    [2, 3, 7, 18, 46, 119, 218, 218],
    [2, 3, 7, 18, 44, 113, 218, 218],
    [2, 3, 7, 17, 43, 108, 218, 218],
    [2, 3, 7, 17, 41, 103, 218, 218],
    [2, 3, 7, 16, 40, 98, 218, 218],
    [2, 3, 7, 16, 38, 94, 218, 218],
    [2, 3, 7, 15, 37, 91, 218, 218],
    [2, 3, 6, 15, 36, 87, 212, 218],
    [2, 3, 6, 15, 35, 84, 203, 218],
    [2, 3, 6, 14, 34, 81, 195, 218],
    [2, 3, 6, 14, 33, 79, 187, 218],
    [2, 3, 6, 14, 32, 76, 180, 218],
    [2, 3, 6, 14, 32, 74, 174, 218],
    [2, 3, 6, 13, 31, 72, 168, 218],
    [2, 3, 6, 13, 30, 70, 162, 218],
    [2, 3, 6, 13, 30, 68, 157, 218],
    [2, 3, 6, 13, 29, 66, 152, 218],
    [2, 3, 6, 13, 28, 65, 147, 218],
    [2, 3, 6, 12, 28, 63, 143, 218],
    [2, 3, 6, 12, 27, 62, 139, 218],
    [2, 3, 6, 12, 27, 60, 135, 218],
    [2, 3, 6, 12, 26, 59, 132, 218],
    [2, 3, 6, 12, 26, 58, 128, 218],
    [2, 3, 6, 12, 26, 56, 125, 218],
    [2, 3, 5, 12, 25, 55, 122, 218],
    [2, 3, 5, 11, 25, 54, 119, 218],
    [2, 3, 5, 11, 24, 53, 117, 218],
    [2, 3, 5, 11, 24, 52, 114, 218],
    [2, 3, 5, 11, 24, 51, 112, 218],
    [2, 3, 5, 11, 23, 50, 109, 218],
    [2, 3, 5, 11, 23, 50, 107, 218],
    [2, 3, 5, 11, 23, 49, 105, 218],
    [2, 3, 5, 11, 22, 48, 103, 218],
    [2, 3, 5, 11, 22, 47, 101, 217],
    [2, 3, 5, 10, 22, 47, 99, 213],
    [2, 3, 5, 10, 22, 46, 98, 208],
    [2, 3, 5, 10, 21, 45, 96, 204],
];

/// The outcome of a search: the best move, the nodes searched, the depth of
/// the last iteration and the table and null move hits of it.
pub struct SearchResult {
    pub mv: Move,
    pub nodes_searched: u64,
    pub depth_reached: i32,
    pub ttable_hits: i32,
    pub nmp_hits: i32,
}

/// An alpha-beta searcher with a transposition table, history and killer
/// move ordering, null move pruning, late move reductions and a quiescence
/// search; the flag `stop` ends a search early.
pub struct Searcher {
    ttable: TTable,
    history: HistoryTable,
    killers: KillerTable,
    evaluator: Evaluator,
    search_depth: i32,
    ttable_hits: i32,
    nodes_searched: u64,
    generation: i32,
    nmp_hits: i32,
    stop: Arc<AtomicBool>,
    stop_seen: Ghost<bool>,
}

/// Whether iterative deepening under a time limit starts the iteration at
/// `depth`: not once the flag is set or past the deepest search, and, with
/// `cut`, not after half of `time` (milliseconds) has gone by.
pub fn may_start_iteration(elapsed: u128, time: u128, cut: bool, stopped: bool, depth: i32) -> (r: bool)
    ensures
        r == ((elapsed <= time / 2 || !cut) && !stopped && depth <= MAX_SEARCH_DEPTH),
{
    (elapsed <= time / 2 || !cut) && !stopped && depth <= MAX_SEARCH_DEPTH
}

/// What iterative deepening keeps after the iteration at `depth` found
/// `value` and `mv`: that move and depth unless the flag was set meanwhile
/// (the iteration was cut short), and whether to go deeper: not once the
/// score shows a mate.
pub fn after_iteration(best: Move, reached: i32, depth: i32, value: i32, mv: Move, stopped: bool) -> (r: (
    Move,
    i32,
    bool,
))
    ensures
        r.0 == (if stopped {
            best
        } else {
            mv
        }),
        r.1 == (if stopped {
            reached
        } else {
            depth
        }),
        r.2 == (value <= MATE / 10),
{
    let (b, d) = if stopped {
        (best, reached)
    } else {
        (mv, depth)
    };
    (b, d, value <= MATE / 10)
}

/// The move a timed search answers with: its best move, or `fallback` (the
/// first generated move) when no iteration found one.
pub fn answer_move(best: Move, fallback: Move) -> (r: Move)
    ensures
        r == (if best@ == 0 {
            fallback
        } else {
            best
        }),
{
    if best.is_null() {
        fallback
    } else {
        best
    }
}

/// A side with nothing but king and pawns, where passing the move may be the
/// best it can do.
pub open spec fn only_king_and_pawns(p: crate::position::piece_set::Pieces) -> bool {
    p.orthogonals | p.diagonals | p.knights == 0
}

/// A move the search may answer with from `b`: one of its legal moves, or a
/// move that fits the position and passes the legality test (as the hash
/// move from the table must).
pub open spec fn playable(mg: crate::moving::move_generation::MoveGenerator, b: Board, m: u16) -> bool {
    legal_moves(mg, b).contains(m) || (move_fits(b@, m) && move_legal(mg, b, m))
}

/// The number of pieces on the board plus the number of pawns: every capture
/// and every promotion lowers it.
pub open spec fn material_count(p: Position) -> int {
    (popcount(position_occupancy(p)) + popcount(p.white.pawns | p.black.pawns)) as int
}

fn neg(x: i32) -> (r: i32)
    ensures
        r == negate(x),
{
    proof {
        reveal(negate);
    }
    0i32.wrapping_sub(x)
}

/// The number of thresholds of a row that `n` reaches.
pub open spec fn reached(row: Seq<u8>, n: int, k: int) -> int
    decreases k,
{
    if k <= 0 {
        0
    } else {
        reached(row, n, k - 1) + if n >= row[k - 1] { 1int } else { 0int }
    }
}

/// The late move reduction for move number `n` at remaining depth `d`.
pub open spec fn lmr_value(n: int, d: int) -> int {
    reached(LMR_THRESHOLDS[d]@, n, 8)
}

fn lmr_reduction(move_num: i32, depth: usize) -> (r: i32)
    requires
        depth < 64,
    ensures
        r == lmr_value(move_num as int, depth as int),
        0 <= r <= 8,
{
    let row = LMR_THRESHOLDS[depth];
    let mut k: usize = 0;
    let mut count: i32 = 0;
    while k < 8
        invariant
            row@ == LMR_THRESHOLDS[depth as int]@,
            0 <= k <= 8,
            count == reached(row@, move_num as int, k as int),
            0 <= count <= k,
        decreases 8 - k,
    {
        if move_num >= row[k] as i32 {
            count += 1;
        }
        k += 1;
    }
    count
}

/// The material count of a board.
fn material_of(board: &Board) -> (r: u32)
    requires
        board.occ() == position_occupancy(board@),
    ensures
        r == material_count(board@),
        r <= 128,
{
    let occ = board.get_occupancy();
    let pawns = board.get_pieces(WHITE).get_pawns() | board.get_pieces(BLACK).get_pawns();
    proof {
        lemma_popcount_le_64(occ);
        lemma_popcount_le_64(pawns);
    }
    count_ones(occ) + count_ones(pawns)
}

impl Searcher {
    /// The tables of the searcher are in order.
    pub closed spec fn wf(&self) -> bool {
        &&& self.ttable.wf()
        &&& self.history.wf()
        &&& self.killers.wf()
        &&& cache_correct(self.evaluator.pawn_hash)
        &&& self.search_depth >= 0
    }

    /// The depth of the current iteration.
    pub closed spec fn depth(&self) -> i32 {
        self.search_depth
    }

    /// The nodes counted so far.
    pub closed spec fn nodes(&self) -> u64 {
        self.nodes_searched
    }

    /// The table hits of the current iteration.
    pub closed spec fn tt_hits(&self) -> i32 {
        self.ttable_hits
    }

    /// The null move cut-offs of the current iteration.
    pub closed spec fn null_hits(&self) -> i32 {
        self.nmp_hits
    }

    /// The contents of the tables the search reads and writes.
    pub closed spec fn tables(&self) -> Tables {
        (self.ttable.slots(), self.history.scores(), self.killers.firsts(), self.killers.seconds())
    }

    /// The age the search stamps on the entries it stores.
    pub closed spec fn generation(&self) -> i32 {
        self.generation
    }

    /// The entry the transposition table holds for the hash `h`, if any.
    pub closed spec fn tt_entry(&self, h: u64) -> Option<Entry> {
        probed(self.ttable.slots(), h)
    }

    /// Whether the search has read the stop flag set since it was last
    /// prepared: from then on every node it enters returns at once.
    pub closed spec fn stop_seen(&self) -> bool {
        self.stop_seen@
    }

    /// A searcher with empty tables.
    pub fn new() -> (r: Self)
        ensures
            r.wf(),
            r.depth() == 0,
            r.nodes() == 0,
            !r.stop_seen(),
            forall|h: u64| #[trigger] r.tt_entry(h) is None,
    {
        Searcher {
            ttable: TTable::new(),
            history: HistoryTable::new(),
            killers: KillerTable::new(),
            evaluator: Evaluator::new(),
            search_depth: 0,
            ttable_hits: 0,
            nodes_searched: 0,
            generation: 0,
            nmp_hits: 0,
            stop: Arc::new(AtomicBool::new(false)),
            stop_seen: Ghost(false),
        }
    }

    /// The number of nodes searched since the count was last reset.
    pub fn get_nodes_searched(&self) -> (r: u64)
        ensures
            r == self.nodes(),
    {
        self.nodes_searched
    }

    /// Whether the flag asks the search to stop (another thread may set it).
    pub fn is_stopped(&self) -> bool {
        self.stop.load(std::sync::atomic::Ordering::Relaxed)
    }

    /// Takes the stop flag shared with the caller, clears it and resets the
    /// node count.
    pub fn prepare_search(&mut self, stop: Arc<AtomicBool>)
        requires
            old(self).wf(),
        ensures
            final(self).wf(),
            final(self).depth() == old(self).depth(),
            final(self).nodes() == 0,
            !final(self).stop_seen(),
    {
        self.stop = stop;
        self.stop_seen = Ghost(false);
        self.nodes_searched = 0;
        self.stop.store(false, std::sync::atomic::Ordering::Relaxed);
    }

    /// Reads the stop flag, and remembers when it was set.
    fn poll_stop(&mut self) -> (r: bool)
        ensures
            *final(self) == (Searcher { stop_seen: Ghost(old(self).stop_seen@ || r), ..*old(self) }),
    {
        let r = self.is_stopped();
        if r {
            self.stop_seen = Ghost(true);
        }
        r
    }

    /// Whether the position occurred before on the way to it.
    fn is_repetition(&self, board: &Board) -> (r: bool)
        ensures
            r == board.hash_stack().contains(board.hasher@),
    {
        let hash = board.get_hash();
        let hash_stack = board.get_hash_stack();
        let mut i: usize = 0;
        while i < hash_stack.len()
            invariant
                hash_stack@ == board.hash_stack(),
                hash == board.hasher@,
                0 <= i <= hash_stack@.len(),
                forall|j: int| 0 <= j < i ==> hash_stack@[j] != hash,
            decreases hash_stack@.len() - i,
        {
            if hash_stack[i] == hash {
                return true;
            }
            i += 1;
        }
        false
    }

    /// Whether the side has nothing but king and pawns, where passing the
    /// move may be the best it can do.
    fn is_in_zugzwang(&self, pieces: &PieceSet) -> (r: bool)
        ensures
            r == (pieces@.orthogonals | pieces@.diagonals | pieces@.knights == 0),
    {
        pieces.get_orthogonals() | pieces.get_diagonals() | pieces.get_knights() == 0
    }

    /// The plies a quiet, late, non-killer move that gives no check is
    /// searched less deep by, at least 4 plies from the leaves; 0 otherwise.
    fn can_reduce(&self, board: &Board, depth_left: i32, depth: i32, mv: &Move, move_num: i32) -> (r: i32)
        requires
            self.wf(),
        ensures
            0 <= r,
            r > 0 ==> r <= depth_left - 1,
            r == lmr_of(board@, depth_left, depth, mv@, move_num, self.killers.firsts(), self.killers.seconds()),
    {
        if depth_left > 3 && !mv.is_non_quiet() && move_num > 3 && !self.killers.is_killer(depth, mv)
            && board.get_checkers() == 0 {
            let depth_capped: usize = if depth_left < 63 { depth_left as usize } else { 63 };
            let red_depth = lmr_reduction(move_num, depth_capped);
            if red_depth < depth_left - 1 {
                red_depth
            } else {
                depth_left - 1
            }
        } else {
            0
        }
    }

    fn store_tt(&mut self, hash: u64, score: i32, depth_left: i32, tt_type: TTEntryType, best_move: Move)
        requires
            old(self).wf(),
        ensures
            final(self).wf(),
            final(self).depth() == old(self).depth(),
            final(self).tables() == (crate::search::transposition::stored(
                old(self).tables().0,
                Entry {
                    key: hash,
                    depth_left,
                    entry_type: tt_type,
                    generation: old(self).generation,
                    score,
                    best_move,
                },
            ), old(self).tables().1, old(self).tables().2, old(self).tables().3),
            final(self).generation == old(self).generation,
            final(self).stop_seen == old(self).stop_seen,
    {
        let entry = Entry { key: hash, depth_left, entry_type: tt_type, generation: self.generation, score, best_move };
        self.ttable.store(entry);
    }

    /// Searches only captures and promotions from `board` until the position
    /// is quiet, standing pat on the evaluation. Unless it reads the stop
    /// flag, it scores a position with no legal moves as a mate in check and
    /// 0 otherwise, and any other never below its evaluation.
    #[verifier::rlimit(60)]
    fn quiesce_nega_max(&mut self, board: &mut Board, depth: i32, alpha: i32, beta: i32) -> (r: i32)
        requires
            old(self).wf(),
            position_wf(old(board)@, old(board).gen()),
            0 <= depth,
            depth + material_count(old(board)@) <= 1_000_000,
        ensures
            final(self).wf(),
            final(self).depth() == old(self).depth(),
            final(board)@ == old(board)@,
            final(board).gen() == old(board).gen(),
            !final(self).stop_seen() && legal_moves(old(board).gen(), *old(board)).len() == 0 ==> r == (if old(
                board,
            )@.checkers != 0 {
                -MATE + depth
            } else {
                0
            }),
            !final(self).stop_seen() && legal_moves(old(board).gen(), *old(board)).len() > 0 ==> r >= evaluation(
                old(board).gen(),
                *old(board),
            ),
            !final(self).stop_seen() ==> r == qsearch(old(board).gen(), old(board)@, depth, alpha, beta, old(
                self,
            ).history.scores(), old(self).killers.firsts(), old(self).killers.seconds()),
            final(self).history == old(self).history,
            final(self).killers == old(self).killers,
            final(self).ttable == old(self).ttable,
            final(self).generation == old(self).generation,
            old(self).stop_seen() ==> final(self).stop_seen(),
        decreases material_count(old(board)@), 1int,
    {
        let ghost p0 = board@;
        let ghost b0 = *board;
        let ghost mg = board.gen();
        let ghost a0 = alpha;
        let ghost h0 = self.history;
        let ghost k0 = self.killers;
        proof {
            lemma_wf_sound(*board);
            lemma_board_at(b0);
            lemma_legal_moves_read_view(mg, b0, board_at(p0));
            lemma_evaluation_reads_view(mg, b0, board_at(p0));
        }
        if self.poll_stop() {
            return alpha;
        }
        self.nodes_searched = self.nodes_searched.wrapping_add(1);
        let mut moves = MoveList::new();
        generate_moves(&mut moves, board);
        if moves.get_count() == 0 {
            proof {
                lemma_qsearch_no_moves(mg, p0, depth, a0, beta, h0.scores(), k0.firsts(), k0.seconds());
            }
            if board.is_check() {
                return -MATE + depth;
            } else {
                return 0;
            }
        }
        let mut alpha = alpha;
        let mut best_value = self.evaluator.evaluate(board, board.get_mg());
        if best_value >= beta {
            proof {
                lemma_qsearch_stand_pat(mg, p0, depth, a0, beta, h0.scores(), k0.firsts(), k0.seconds(), best_value);
            }
            return best_value;
        }
        if alpha < best_value {
            alpha = best_value;
        }
        let m0 = material_of(board);
        let ghost listed = moves@;
        let mut ordered_moves = QuiesceOrderedMovesIter::new(moves, board, &self.history, &self.killers, depth);
        proof {
            lemma_quiesce_list_fits(mg, b0, self.history, self.killers, depth, legal_moves(mg, b0).len() as int);
            lemma_tables_with(h0, k0);
            lemma_quiesce_list_views(mg, b0, board_at(p0), h0, history_with(h0.scores()), k0, killers_with(
                k0.firsts(),
                k0.seconds(),
            ), depth, legal_moves(mg, b0), legal_moves(
                mg,
                b0,
            ).len() as int);
            let bb = board_at(p0);
            assert(listed == legal_moves(mg, b0));
            lemma_qsearch_start(mg, p0, depth, a0, beta, h0.scores(), k0.firsts(), k0.seconds(), best_value, ordered_moves.remaining());
        }
        loop
            invariant_except_break
                !self.stop_seen() ==> qloop(mg, p0, depth, alpha, beta, best_value, h0.scores(), k0.firsts(), k0.seconds(), ordered_moves.phase(),
                    ordered_moves.remaining()) == qsearch(mg, p0, depth, a0, beta, h0.scores(), k0.firsts(), k0.seconds()),
            invariant
                self.wf(),
                self.search_depth == old(self).search_depth,
                self.history == h0,
                self.killers == k0,
                self.ttable == old(self).ttable,
                self.generation == old(self).generation,
                h0 == old(self).history,
                k0 == old(self).killers,
                old(self).stop_seen() ==> self.stop_seen(),
                board@ == p0,
                b0@ == p0,
                p0 == old(board)@,
                b0 == *old(board),
                mg == old(board).gen(),
                legal_moves(mg, b0).len() > 0,
                board.gen() == mg,
                position_wf(p0, mg),
                m0 == material_count(p0),
                depth + material_count(p0) <= 1_000_000,
                0 <= depth,
                all_fit(p0, ordered_moves.remaining()),
                best_value >= evaluation(mg, b0),
            ensures
                !self.stop_seen() ==> best_value == qsearch(mg, p0, depth, a0, beta, h0.scores(), k0.firsts(), k0.seconds()),
            decreases ordered_moves.remaining().len(),
        {
            let ghost before = ordered_moves.remaining();
            let ghost ph = ordered_moves.phase();
            let ghost best0 = best_value;
            let ghost alpha1 = alpha;
            let ghost st0 = self.stop_seen();
            assert(!st0 ==> qloop(mg, p0, depth, alpha1, beta, best0, h0.scores(), k0.firsts(), k0.seconds(), ph, before) == qsearch(mg, p0, depth,
                a0, beta, h0.scores(), k0.firsts(), k0.seconds()));
            let next = ordered_moves.next();
            proof {
                law_quiesce_next_fits(p0, ph, before);
                law_quiesce_next_from_remaining(ph, before);
            }
            let mv = match next {
                Some(m) => m,
                None => {
                    proof {
                        lemma_qloop_none(mg, p0, depth, alpha, beta, best_value, h0.scores(), k0.firsts(), k0.seconds(), ph, before);
                    }
                    break;
                },
            };
            let score = match self.quiesce_move(board, &mv, depth, beta, alpha, m0) {
                Some(sc) => sc,
                None => {
                    proof {
                        lemma_qloop_skip(mg, p0, depth, alpha, beta, best_value, h0.scores(), k0.firsts(), k0.seconds(), ph, before, mv@);
                    }
                    continue;
                },
            };
            proof {
                let q = made(p0, mg, mv@);
                assert(position_sound(q) && material_count(q) < material_count(p0));
                assert(!self.stop_seen() ==> score == negate(qsearch(mg, q, (depth + 1) as i32, negate(beta), negate(
                    alpha,
                ), h0.scores(), k0.firsts(), k0.seconds())));
                if !self.stop_seen() {
                    lemma_qloop_score(mg, p0, depth, alpha, beta, best_value, h0.scores(), k0.firsts(), k0.seconds(), ph, before, mv@, score);
                }
            }
            if score > best_value {
                best_value = score;
                if score > alpha {
                    alpha = score;
                }
            }
            if score >= beta {
                proof {
                    assert(!self.stop_seen() ==> !st0);
                    assert(!self.stop_seen() ==> qloop(mg, p0, depth, alpha1, beta, best0, h0.scores(), k0.firsts(), k0.seconds(), ph, before)
                        == best_value);
                    assert(!self.stop_seen() ==> best_value == qsearch(mg, p0, depth, a0, beta, h0.scores(), k0.firsts(), k0.seconds()));
                }
                break;
            }
            proof {
                assert(!self.stop_seen() ==> qloop(mg, p0, depth, alpha1, beta, best0, h0.scores(), k0.firsts(), k0.seconds(), ph, before) == qloop(
                    mg,
                    p0,
                    depth,
                    alpha,
                    beta,
                    best_value,
                    h0.scores(),
                    k0.firsts(),
                    k0.seconds(),
                    ordered_moves.phase(),
                    ordered_moves.remaining(),
                ));
            }
        }
        best_value
    }
}

impl Searcher {
    /// Plays `mv`, searches the captures after it from the other side's view
    /// and takes it back; `None` when the position after it is not sound or
    /// the move took nothing.
    fn quiesce_move(&mut self, board: &mut Board, mv: &Move, depth: i32, beta: i32, alpha: i32, m0: u32) -> (r:
        Option<i32>)
        requires
            old(self).wf(),
            position_wf(old(board)@, old(board).gen()),
            move_fits(old(board)@, mv@),
            m0 == material_count(old(board)@),
            0 <= depth,
            depth + material_count(old(board)@) <= 1_000_000,
        ensures
            final(self).wf(),
            final(self).depth() == old(self).depth(),
            final(board)@ == old(board)@,
            final(board).gen() == old(board).gen(),
            final(self).history == old(self).history,
            final(self).killers == old(self).killers,
            final(self).ttable == old(self).ttable,
            final(self).generation == old(self).generation,
            old(self).stop_seen() ==> final(self).stop_seen(),
            r is None <==> (!position_sound(made(old(board)@, old(board).gen(), mv@)) || material_count(
                made(old(board)@, old(board).gen(), mv@),
            ) >= m0),
            !final(self).stop_seen() ==> (r matches Some(sc) ==> sc == negate(
                qsearch(
                    old(board).gen(),
                    made(old(board)@, old(board).gen(), mv@),
                    (depth + 1) as i32,
                    negate(beta),
                    negate(alpha),
                    old(self).history.scores(),
                    old(self).killers.firsts(),
                    old(self).killers.seconds(),
                ),
            )),
        decreases material_count(old(board)@), 0int,
    {
        let ghost p0 = board@;
        let ghost mg = board.gen();
        proof {
            law_unmake_undoes_make(p0, mg, mv@);
        }
        board.make_move(mv);
        if !board.is_sound() || material_of_checked(board, m0) {
            board.unmake_move(mv);
            return None;
        }
        proof {
            lemma_made_wf(p0, mg, mv@);
        }
        let child = self.quiesce_nega_max(board, depth + 1, neg(beta), neg(alpha));
        board.unmake_move(mv);
        Some(neg(child))
    }
}

impl Searcher {
    /// Negamax alpha-beta search of `board` at ply `depth` with the window
    /// (`alpha`, `beta`): transposition table cut-offs, null move pruning,
    /// ordered moves with late move reductions, and a quiescence search at
    /// the leaves; killers and history learn from the cut-offs. Unless it
    /// reads the stop flag, a position with no legal moves that the table
    /// does not know and that did not occur before scores as a mate in check,
    /// and otherwise 0 (or `beta`, when the null move search cuts off).
    #[verifier::rlimit(80)]
    fn nega_max(&mut self, board: &mut Board, depth: i32, alpha: i32, beta: i32) -> (r: i32)
        requires
            old(self).wf(),
            position_wf(old(board)@, old(board).gen()),
            1 <= depth <= MAX_SEARCH_DEPTH,
            old(self).depth() <= MAX_SEARCH_DEPTH,
            depth <= old(self).depth() || (legal_moves(old(board).gen(), *old(board)).len() == 0 && old(
                self,
            ).tt_entry(old(board)@.hash) is None),
        ensures
            final(self).wf(),
            final(self).depth() == old(self).depth(),
            final(board)@ == old(board)@,
            final(board).gen() == old(board).gen(),
            !final(self).stop_seen() && legal_moves(old(board).gen(), *old(board)).len() == 0 && old(self).tt_entry(
                old(board)@.hash,
            ) is None && !old(board)@.hash_stack.contains(old(board)@.hash) ==> (if old(board)@.checkers != 0 {
                r == -MATE + depth
            } else if old(self).depth() - depth > NULL_MOVE_RED && !only_king_and_pawns(
                old(board)@.side(old(board)@.us as int),
            ) {
                r == 0 || r == beta
            } else {
                r == 0
            }),
            !final(self).stop_seen() && depth == old(self).depth() ==> r == qsearch(
                old(board).gen(),
                old(board)@,
                depth,
                alpha,
                beta,
                old(self).history.scores(),
                old(self).killers.firsts(),
                old(self).killers.seconds(),
            ),
            final(self).generation == old(self).generation,
            old(self).stop_seen() ==> final(self).stop_seen(),
            !final(self).stop_seen() ==> (r, final(self).tables()) == nsearch(
                old(board).gen(),
                old(self).generation,
                old(self).depth(),
                old(board)@,
                depth,
                alpha,
                beta,
                old(self).tables(),
            ),
        decreases old(self).depth() - depth, 1int,
    {
        let ghost p0 = board@;
        let ghost mg = board.gen();
        let ghost b0 = *board;
        let ghost quiet = legal_moves(mg, b0).len() == 0 && probed(self.ttable.slots(), p0.hash) is None;
        let ghost a0 = alpha;
        let ghost gen = self.generation;
        let ghost sd = self.search_depth;
        let ghost t0 = self.tables();
        let ghost target = nsearch(mg, gen, sd, p0, depth, a0, beta, t0);
        proof {
            lemma_wf_sound(*board);
            lemma_unfold(mg, gen, sd, p0, depth, a0, beta, a0, i32::MIN, 0, 0, t0, 0, MoveOrderingPhase::PvNode,
                Seq::empty(), 0);
        }
        if self.poll_stop() {
            return alpha;
        }
        if depth == self.search_depth {
            proof {
                lemma_popcount_le_64(position_occupancy(p0));
                lemma_popcount_le_64(p0.white.pawns | p0.black.pawns);
            }
            return self.quiesce_nega_max(board, depth, alpha, beta);
        }
        if depth > 0 && self.is_repetition(board) {
            return 0;
        }
        let mut alpha = alpha;
        let org_alpha = alpha;
        let depth_left = self.search_depth - depth;
        self.nodes_searched = self.nodes_searched.wrapping_add(1);
        let hash = board.get_hash();
        let mut hash_move = Move::null();
        match self.ttable.probe(hash) {
            Some(e) => {
                hash_move = e.best_move;
                self.ttable_hits = self.ttable_hits.wrapping_add(1);
                if depth > 0 && e.depth_left >= depth_left {
                    match e.entry_type {
                        TTEntryType::Exact => {
                            return e.score;
                        },
                        TTEntryType::Lower => {
                            if e.score >= beta {
                                return e.score;
                            }
                        },
                        TTEntryType::Upper => {
                            if e.score <= alpha {
                                return e.score;
                            }
                        },
                    }
                }
            },
            None => {},
        }
        if !self.is_in_zugzwang(board.get_ally_pieces()) && depth_left > NULL_MOVE_RED && !board.is_check() {
            proof {
                law_unmake_null_undoes_null(p0, mg);
                lemma_null_wf(p0, mg);
            }
            board.make_null_mv();
            let nb = neg(beta);
            let child = self.nega_max(board, depth + NULL_MOVE_RED, nb, nb.wrapping_add(1));
            let nmr_score = neg(child);
            board.unmake_null_move();
            if nmr_score >= beta {
                self.nmp_hits = self.nmp_hits.wrapping_add(1);
                return beta;
            }
        }
        let mut ordered_moves = OrderedMovesIter::new(hash_move, depth);
        let mut best_score = i32::MIN;
        let mut best_move = Move::null();
        let mut move_num: i32 = 0;
        proof {
            lemma_unfold(mg, gen, sd, p0, depth, alpha, beta, org_alpha, best_score, best_move@, move_num,
                self.tables(), hash_move@, MoveOrderingPhase::PvNode, Seq::empty(), 0);
            if depth > sd {
                lemma_board_at(b0);
                lemma_legal_moves_read_view(mg, b0, board_at(p0));
                lemma_tables_with(self.history, self.killers);
                lemma_order_next_empty(mg, board_at(p0), history_with(self.history.scores()), killers_with(
                    self.killers.firsts(),
                    self.killers.seconds(),
                ), depth, MoveOrderingPhase::PvNode, Seq::empty());
            }
        }
        loop
            invariant_except_break
                quiet ==> ordered_moves.pv() == 0 && ordered_moves.remaining().len() == 0,
                !self.stop_seen() ==> nloop(mg, gen, sd, p0, depth, alpha, beta, org_alpha, best_score, best_move@,
                    move_num, self.tables(), ordered_moves.pv(), ordered_moves.phase(), ordered_moves.remaining())
                    == target,
            invariant
                self.generation == gen,
                sd == self.search_depth,
                old(self).stop_seen() ==> self.stop_seen(),
                ordered_moves.ply() == depth,
                org_alpha == a0,
                target == nsearch(mg, gen, sd, p0, depth, a0, beta, t0),
                self.wf(),
                self.search_depth == old(self).search_depth,
                1 <= depth <= MAX_SEARCH_DEPTH,
                self.search_depth <= MAX_SEARCH_DEPTH,
                depth < self.search_depth || quiet,
                depth_left == self.search_depth - depth,
                board@ == p0,
                p0 == old(board)@,
                board.gen() == mg,
                mg == old(board).gen(),
                position_wf(p0, mg),
                all_fit(p0, ordered_moves.remaining()),
                b0@ == p0,
                quiet ==> legal_moves(mg, b0).len() == 0,
                quiet ==> best_move@ == 0,
            ensures
                !self.stop_seen() ==> crate::search::negamax::finish(gen, sd, p0, depth, beta, org_alpha, best_score,
                    best_move@, self.tables()) == target,
            decreases (if phase_index(ordered_moves.phase()) == 0 {
                2int
            } else if phase_index(ordered_moves.phase()) == 1 {
                1int
            } else {
                0int
            }), ordered_moves.remaining().len(),
        {
            let ghost before = ordered_moves.remaining();
            let ghost ph = ordered_moves.phase();
            let ghost pv = ordered_moves.pv();
            let ghost ply = ordered_moves.ply();
            let next = ordered_moves.next(board, &self.history, &self.killers);
            proof {
                law_order_next_fits(mg, *board, self.history, self.killers, pv, ply, ph, before);
                lemma_order_next_measure(mg, *board, self.history, self.killers, pv, ply, ph, before);
                if quiet {
                    lemma_legal_moves_read_view(mg, *board, b0);
                    lemma_order_next_empty(mg, *board, self.history, self.killers, ply, ph, before);
                }
                lemma_unfold(mg, gen, sd, p0, depth, alpha, beta, org_alpha, best_score, best_move@, move_num,
                    self.tables(), pv, ph, before, 0);
                lemma_board_at(*board);
                lemma_tables_with(self.history, self.killers);
                lemma_order_next_views(mg, *board, board_at(p0), self.history, history_with(self.history.scores()),
                    self.killers, killers_with(self.killers.firsts(), self.killers.seconds()), pv, ply, ph, before);
            }
            let mv = match next {
                Some(m) => m,
                None => {
                    break;
                },
            };
            let score = match self.search_move(board, &mv, depth, depth_left, alpha, beta, move_num) {
                Some(sc) => sc,
                None => {
                    continue;
                },
            };
            move_num = move_num.wrapping_add(1);
            if score > best_score {
                best_score = score;
                if score > alpha {
                    alpha = score;
                }
                best_move = mv;
            }
            if score >= beta {
                self.killers.update(depth, mv);
                assert(depth_left * depth_left <= 46340 * 46340) by (nonlinear_arith)
                    requires
                        0 <= depth_left <= 46340,
                ;
                self.history.add(&mv, depth_left);
            }
            if alpha >= beta {
                break;
            }
        }
        if best_move.is_null() {
            return if board.is_check() {
                -MATE + depth
            } else {
                0
            };
        }
        let tt_type = if best_score > org_alpha && best_score < beta {
            TTEntryType::Exact
        } else if best_score >= beta {
            TTEntryType::Lower
        } else {
            TTEntryType::Upper
        };
        proof {
            lemma_move_with(best_move);
        }
        self.store_tt(hash, best_score, depth_left, tt_type, best_move);
        best_score
    }

    /// Plays `mv`, searches the position after it from the other side's view
    /// (first reduced when late move reductions allow, again at full depth
    /// when the reduced search beats `alpha`) and takes it back; `None` when
    /// the position after it is not sound.
    #[verifier::spinoff_prover]
    fn search_move(
        &mut self,
        board: &mut Board,
        mv: &Move,
        depth: i32,
        depth_left: i32,
        alpha: i32,
        beta: i32,
        move_num: i32,
    ) -> (r: Option<i32>)
        requires
            old(self).wf(),
            position_wf(old(board)@, old(board).gen()),
            move_fits(old(board)@, mv@),
            1 <= depth < old(self).depth() <= MAX_SEARCH_DEPTH,
            depth_left == old(self).depth() - depth,
        ensures
            final(self).wf(),
            final(self).depth() == old(self).depth(),
            final(board)@ == old(board)@,
            final(board).gen() == old(board).gen(),
            final(self).generation == old(self).generation,
            old(self).stop_seen() ==> final(self).stop_seen(),
            r is None <==> !position_sound(made(old(board)@, old(board).gen(), mv@)),
            r is None ==> *final(self) == *old(self),
            !final(self).stop_seen() ==> (r matches Some(sc) ==> (sc, final(self).tables()) == nmove(
                old(board).gen(),
                old(self).generation,
                old(self).depth(),
                made(old(board)@, old(board).gen(), mv@),
                depth,
                alpha,
                beta,
                mv@,
                move_num,
                old(self).tables(),
            )),
        decreases old(self).depth() - depth, 0int,
    {
        let ghost p0 = board@;
        let ghost mg = board.gen();
        proof {
            lemma_unfold(mg, self.generation, self.search_depth, made(p0, mg, mv@), depth, alpha, beta, alpha, 0, 0,
                move_num, self.tables(), 0, MoveOrderingPhase::PvNode, Seq::empty(), mv@);
        }
        proof {
            law_unmake_undoes_make(p0, mg, mv@);
        }
        board.make_move(mv);
        if !board.is_sound() {
            board.unmake_move(mv);
            return None;
        }
        proof {
            lemma_made_wf(p0, mg, mv@);
        }
        let lmr = self.can_reduce(board, depth_left, depth, mv, move_num);
        let score = if lmr > 0 {
            let temp_score = neg(self.nega_max(board, depth + 1 + lmr, neg(beta), neg(alpha)));
            if temp_score > alpha {
                neg(self.nega_max(board, depth + 1, neg(beta), neg(alpha)))
            } else {
                temp_score
            }
        } else {
            neg(self.nega_max(board, depth + 1, neg(beta), neg(alpha)))
        };
        board.unmake_move(mv);
        Some(score)
    }
}

impl Searcher {
    /// One iteration of the search at `depth` from the root: every move in
    /// order, each searched with the full window; the best score and move.
    /// The best move is the null move only when no move was searched.
    pub fn make_search(&mut self, board: &mut Board, depth: i32) -> (r: (i32, Move))
        requires
            old(self).wf(),
            position_wf(old(board)@, old(board).gen()),
            1 <= depth <= MAX_SEARCH_DEPTH,
        ensures
            final(self).wf(),
            final(self).depth() == depth,
            final(board)@ == old(board)@,
            final(board).gen() == old(board).gen(),
            r.1@ != 0 ==> move_fits(old(board)@, r.1@),
            r.1@ != 0 ==> playable(old(board).gen(), *old(board), r.1@),
            r.1@ != 0 ==> position_sound(made(old(board)@, old(board).gen(), r.1@)),
            (r.1@ == 0) == (r.0 == i32::MIN),
            final(self).generation() == old(self).generation().wrapping_add(1),
            old(self).stop_seen() ==> final(self).stop_seen(),
            !final(self).stop_seen() ==> (r.0, r.1@, final(self).tables()) == rsearch(
                old(board).gen(),
                old(self).generation().wrapping_add(1),
                depth,
                old(board)@,
                old(self).tables(),
            ),
    {
        let ghost p0 = board@;
        let ghost mg = board.gen();
        let ghost b0 = *board;
        let ghost rt = rsearch(mg, self.generation.wrapping_add(1), depth, p0, self.tables());
        proof {
            lemma_move_fields(0);
        }
        self.generation = self.generation.wrapping_add(1);
        self.search_depth = depth;
        self.ttable_hits = 0;
        self.nmp_hits = 0;
        self.killers = KillerTable::new();
        proof {
            self.killers.lemma_rows_len();
            assert(self.killers.firsts() =~= Seq::new(100, |i: int| 0u16));
            assert(self.killers.seconds() =~= Seq::new(100, |i: int| 0u16));
        }
        let mut best_value = i32::MIN;
        let mut best_move = Move::null();
        let mut hash_move = Move::null();
        match self.ttable.probe(board.get_hash()) {
            Some(e) => {
                hash_move = e.best_move;
            },
            None => {},
        }
        let mut ordered_moves = OrderedMovesIter::new(hash_move, depth);
        loop
            invariant_except_break
                !self.stop_seen() ==> rloop(mg, self.generation, depth, p0, best_value, best_move@, self.tables(),
                    ordered_moves.pv(), ordered_moves.phase(), ordered_moves.remaining()) == rt,
            invariant
                self.wf(),
                self.search_depth == depth,
                1 <= depth <= MAX_SEARCH_DEPTH,
                board@ == p0,
                p0 == old(board)@,
                board.gen() == mg,
                mg == old(board).gen(),
                position_wf(p0, mg),
                all_fit(p0, ordered_moves.remaining()),
                best_move@ != 0 ==> move_fits(p0, best_move@),
                b0@ == p0,
                all_legal(mg, b0, ordered_moves.remaining()),
                best_move@ != 0 ==> playable(mg, b0, best_move@),
                best_move@ != 0 ==> position_sound(made(p0, mg, best_move@)),
                (best_move@ == 0) == (best_value == i32::MIN),
                start_of(0) == 0 && target_of(0) == 0,
                self.generation == old(self).generation.wrapping_add(1),
                old(self).stop_seen() ==> self.stop_seen(),
                ordered_moves.ply() == depth,
                rt == rsearch(mg, old(self).generation.wrapping_add(1), depth, p0, old(self).tables()),
            ensures
                !self.stop_seen() ==> (best_value, best_move@, self.tables()) == rt,
            decreases (if phase_index(ordered_moves.phase()) == 0 {
                2int
            } else if phase_index(ordered_moves.phase()) == 1 {
                1int
            } else {
                0int
            }), ordered_moves.remaining().len(),
        {
            let ghost before = ordered_moves.remaining();
            let ghost ph = ordered_moves.phase();
            let ghost pv = ordered_moves.pv();
            let ghost ply = ordered_moves.ply();
            let next = ordered_moves.next(board, &self.history, &self.killers);
            proof {
                lemma_legal_moves_read_view(mg, *board, b0);
                lemma_legality_reads_view(mg, *board, b0);
                law_order_next_fits(mg, *board, self.history, self.killers, pv, ply, ph, before);
                lemma_order_next_measure(mg, *board, self.history, self.killers, pv, ply, ph, before);
                lemma_rloop_unfold(mg, self.generation, depth, p0, best_value, best_move@, self.tables(), pv, ph, before);
                lemma_board_at(*board);
                lemma_tables_with(self.history, self.killers);
                lemma_order_next_views(mg, *board, board_at(p0), self.history, history_with(self.history.scores()),
                    self.killers, killers_with(self.killers.firsts(), self.killers.seconds()), pv, ply, ph, before);
            }
            let mv = match next {
                Some(m) => m,
                None => {
                    break;
                },
            };
            proof {
                law_unmake_undoes_make(p0, mg, mv@);
                assert(playable(mg, b0, mv@));
                assert(mv@ != 0);
            }
            board.make_move(&mv);
            if board.is_sound() {
                proof {
                    lemma_made_wf(p0, mg, mv@);
                }
                let score = neg(self.nega_max(board, 1, neg(INFINITY), INFINITY));
                if score > best_value {
                    best_move = mv;
                    best_value = score;
                }
            }
            board.unmake_move(&mv);
        }
        (best_value, best_move)
    }

    /// Iterative deepening: searches depth 1, 2, .. `depth` in turn and
    /// gives the best move of the last iteration with its statistics.
    pub fn search_to_depth(&mut self, board: &mut Board, depth: i32) -> (r: SearchResult)
        requires
            old(self).wf(),
            position_wf(old(board)@, old(board).gen()),
            depth <= MAX_SEARCH_DEPTH,
        ensures
            final(self).wf(),
            final(board)@ == old(board)@,
            final(board).gen() == old(board).gen(),
            r.mv@ != 0 ==> move_fits(old(board)@, r.mv@),
            r.mv@ != 0 ==> playable(old(board).gen(), *old(board), r.mv@),
            r.mv@ != 0 ==> position_sound(made(old(board)@, old(board).gen(), r.mv@)),
            depth >= 1 ==> r.depth_reached == depth,
            r.nodes_searched == final(self).nodes(),
            old(self).stop_seen() ==> final(self).stop_seen(),
            !final(self).stop_seen() ==> r.mv@ == deepen(
                old(board).gen(),
                old(self).generation(),
                old(board)@,
                1,
                depth,
                old(self).tables(),
                0,
            ),
    {
        let ghost b0 = *board;
        let ghost mg = board.gen();
        let ghost target = deepen(mg, self.generation, b0@, 1, depth, self.tables(), 0);
        self.nodes_searched = 0;
        let mut best_mv = Move::null();
        let mut i: i32 = 1;
        while i <= depth
            invariant
                self.wf(),
                1 <= i,
                depth >= 1 ==> i <= depth + 1,
                i > 1 ==> self.search_depth == i - 1,
                depth <= MAX_SEARCH_DEPTH,
                board@ == old(board)@,
                board.gen() == old(board).gen(),
                position_wf(old(board)@, old(board).gen()),
                best_mv@ != 0 ==> move_fits(old(board)@, best_mv@),
                b0 == *old(board),
                mg == old(board).gen(),
                best_mv@ != 0 ==> playable(mg, b0, best_mv@),
                best_mv@ != 0 ==> position_sound(made(b0@, mg, best_mv@)),
                old(self).stop_seen() ==> self.stop_seen(),
                target == deepen(mg, old(self).generation, b0@, 1, depth, old(self).tables(), 0),
                !self.stop_seen() ==> deepen(mg, self.generation, b0@, i, depth, self.tables(), best_mv@) == target,
            decreases depth + 1 - i,
        {
            proof {
                lemma_legal_moves_read_view(mg, *board, b0);
                lemma_legality_reads_view(mg, *board, b0);
            }
            let (_, mv) = self.make_search(board, i);
            best_mv = mv;
            i += 1;
        }
        SearchResult {
            depth_reached: self.search_depth,
            mv: best_mv,
            nodes_searched: self.nodes_searched,
            ttable_hits: self.ttable_hits,
            nmp_hits: self.nmp_hits,
        }
    }

    /// A single search straight at `depth`, with its statistics.
    pub fn search_flat(&mut self, board: &mut Board, depth: i32) -> (r: SearchResult)
        requires
            old(self).wf(),
            position_wf(old(board)@, old(board).gen()),
            1 <= depth <= MAX_SEARCH_DEPTH,
        ensures
            final(self).wf(),
            final(board)@ == old(board)@,
            final(board).gen() == old(board).gen(),
            r.mv@ != 0 ==> move_fits(old(board)@, r.mv@),
            r.mv@ != 0 ==> playable(old(board).gen(), *old(board), r.mv@),
            r.mv@ != 0 ==> position_sound(made(old(board)@, old(board).gen(), r.mv@)),
            r.depth_reached == depth,
            r.nodes_searched == final(self).nodes(),
            old(self).stop_seen() ==> final(self).stop_seen(),
            !final(self).stop_seen() ==> r.mv@ == rsearch(
                old(board).gen(),
                old(self).generation().wrapping_add(1),
                depth,
                old(board)@,
                old(self).tables(),
            ).1,
    {
        self.nodes_searched = 0;
        let (_, mv) = self.make_search(board, depth);
        SearchResult {
            depth_reached: self.search_depth,
            mv,
            nodes_searched: self.nodes_searched,
            ttable_hits: self.ttable_hits,
            nmp_hits: self.nmp_hits,
        }
    }
}

impl Default for Searcher {
    fn default() -> (r: Self)
        ensures
            r.wf(),
            r.depth() == 0,
            r.nodes() == 0,
    {
        Searcher::new()
    }
}

/// Distinct hashes that all have an entry in the table are no more than
/// its slots: each sits in a slot of its own.
proof fn lemma_distinct_hashes(slots: Seq<Option<Entry>>, hs: Seq<u64>)
    requires
        slots.len() == 0x800000,
        hs.no_duplicates(),
        forall|i: int| 0 <= i < hs.len() ==> (#[trigger] probed(slots, hs[i])) is Some,
    ensures
        hs.len() <= 0x800000,
{
    let ss = hs.map_values(|h: u64| tt_slot(h));
    assert forall|i: int, j: int| 0 <= i < ss.len() && 0 <= j < ss.len() && i != j implies ss[i] != ss[j] by {
        assert(probed(slots, hs[i]) is Some);
        assert(probed(slots, hs[j]) is Some);
        if ss[i] == ss[j] {
            assert(hs[i] == hs[j]);
        }
    }
    assert(ss.no_duplicates());
    ss.unique_seq_to_set();
    vstd::set_lib::lemma_int_range(0, 0x800000);
    assert forall|x: int| ss.to_set().contains(x) implies vstd::set_lib::set_int_range(0, 0x800000).contains(x) by {
        let i = choose|i: int| 0 <= i < ss.len() && ss[i] == x;
        vstd::arithmetic::div_mod::lemma_mod_bound(hs[i] as int, 0x800000);
    }
    vstd::set_lib::lemma_len_subset(ss.to_set(), vstd::set_lib::set_int_range(0, 0x800000));
}

/// A consistent position (kept folded where a proof does not look inside).
#[verifier::opaque]
pub open spec fn wf_at(p: Position, mg: crate::moving::move_generation::MoveGenerator) -> bool {
    position_wf(p, mg)
}

/// The position after a move (kept folded where a proof does not look inside).
#[verifier::opaque]
pub open spec fn after(p: Position, mg: crate::moving::move_generation::MoveGenerator, m: u16) -> Position {
    made(p, mg, m)
}

/// Plays a fitting move; whether the position after it is sound.
fn advance(board: &mut Board, mv: &Move) -> (sound: bool)
    requires
        wf_at(old(board)@, old(board).gen()),
        move_fits(old(board)@, mv@),
    ensures
        final(board)@ == after(old(board)@, old(board).gen(), mv@),
        final(board).gen() == old(board).gen(),
        sound ==> wf_at(final(board)@, final(board).gen()),
        final(board).us < 2 && final(board).enemy < 2,
{
    proof {
        reveal(wf_at);
        law_unmake_undoes_make(board@, board.gen(), mv@);
    }
    let ghost p0 = board@;
    board.make_move(mv);
    let sound = board.is_sound();
    proof {
        reveal(wf_at);
        reveal(after);
        if sound {
            lemma_made_wf(p0, board.gen(), mv@);
        }
    }
    sound
}

/// `b` is the position after the fitting move `m` in the consistent position `a`.
#[verifier::opaque]
pub open spec fn step_ok(a: Position, mg: crate::moving::move_generation::MoveGenerator, m: u16, b: Position) -> bool {
    position_wf(a, mg) && move_fits(a, m) && b == after(a, mg, m)
}

/// Each position of `ps` follows the one before by the move of `ms` between them.
pub open spec fn chain_ok(ps: Seq<Position>, ms: Seq<Move>, mg: crate::moving::move_generation::MoveGenerator) -> bool {
    &&& ps.len() == ms.len() + 1
    &&& forall|i: int| 0 <= i < ms.len() ==> #[trigger] step_ok(ps[i], mg, ms[i]@, ps[i + 1])
}

proof fn lemma_chain_push(ps: Seq<Position>, ms: Seq<Move>, mg: crate::moving::move_generation::MoveGenerator, m: Move)
    requires
        chain_ok(ps, ms, mg),
        wf_at(ps.last(), mg),
        move_fits(ps.last(), m@),
    ensures
        chain_ok(ps.push(after(ps.last(), mg, m@)), ms.push(m), mg),
{
    reveal(step_ok);
    reveal(wf_at);
    let ps2 = ps.push(after(ps.last(), mg, m@));
    let ms2 = ms.push(m);
    assert forall|i: int| 0 <= i < ms2.len() implies #[trigger] step_ok(ps2[i], mg, ms2[i]@, ps2[i + 1]) by {
        if i < ms.len() {
            assert(step_ok(ps[i], mg, ms[i]@, ps[i + 1]));
            assert(ps2[i] == ps[i] && ps2[i + 1] == ps[i + 1] && ms2[i] == ms[i]);
        }
    }
}

proof fn lemma_chain_pop(ps: Seq<Position>, ms: Seq<Move>, mg: crate::moving::move_generation::MoveGenerator, k: int)
    requires
        chain_ok(ps, ms, mg),
        0 <= k < ms.len(),
    ensures
        unmake_ready(ps[k + 1], ms[k]@),
        unmade(ps[k + 1], mg, ms[k]@) == ps[k],
{
    reveal(step_ok);
    reveal(after);
    assert(step_ok(ps[k], mg, ms[k]@, ps[k + 1]));
    law_unmake_undoes_make(ps[k], mg, ms[k]@);
}

proof fn lemma_visited_push(slots: Seq<Option<Entry>>, v: Seq<u64>, h: u64)
    requires
        v.no_duplicates(),
        forall|i: int| 0 <= i < v.len() ==> (#[trigger] probed(slots, v[i])) is Some,
        !v.contains(h),
        probed(slots, h) is Some,
    ensures
        v.push(h).no_duplicates(),
        forall|i: int| 0 <= i < v.push(h).len() ==> (#[trigger] probed(slots, v.push(h)[i])) is Some,
{
    let w = v.push(h);
    assert forall|i: int| 0 <= i < w.len() implies (#[trigger] probed(slots, w[i])) is Some by {
        if i < v.len() {
            assert(w[i] == v[i]);
        }
    }
    assert forall|i: int, j: int| 0 <= i < j < w.len() implies w[i] != w[j] by {
        if j < v.len() {
            assert(w[i] == v[i] && w[j] == v[j]);
        } else {
            assert(w[i] == v[i]);
            assert(v.contains(v[i]));
        }
    }
}

fn contains_hash(v: &Vec<u64>, h: u64) -> (r: bool)
    ensures
        r == v@.contains(h),
{
    let mut i: usize = 0;
    while i < v.len()
        invariant
            0 <= i <= v@.len(),
            forall|j: int| 0 <= j < i ==> v@[j] != h,
        decreases v@.len() - i,
    {
        if v[i] == h {
            return true;
        }
        i += 1;
    }
    false
}

/// The statistics part of an info line.
pub open spec fn info_prefix(depth: i32, value: i32, hits: i32, nodes: u64, nmp: i32) -> Seq<char> {
    "info depth "@ + signed_decimal(depth as int) + " cp "@ + signed_decimal(value as int) + " tthits "@
        + signed_decimal(hits as int) + " nodes searched "@ + decimal(nodes as nat) + " nmp hits "@ + signed_decimal(
        nmp as int,
    ) + " pv "@
}

impl Searcher {
    /// The principal variation from `best_mv` on: the best move, then the
    /// moves the table holds for the positions that follow, until a
    /// position has no entry or comes again; each move followed by a space.
    #[verifier::rlimit(100)]
    fn get_pv_string(&self, board: &mut Board, best_mv: &Move) -> (r: String)
        requires
            self.wf(),
            position_wf(old(board)@, old(board).gen()),
            move_fits(old(board)@, best_mv@),
        ensures
            final(board)@ == old(board)@,
            final(board).gen() == old(board).gen(),
            exists|ms: Seq<u16>| ms.len() >= 1 && ms[0] == best_mv@ && r@ == pv_line(ms, ms.len() as int),
    {
        let ghost p0 = board@;
        let ghost mg = board.gen();
        let ghost slots = self.ttable.slots();
        proof {
            reveal(wf_at);
        }
        let mut visited: Vec<u64> = Vec::new();
        let mut mv_stack: Vec<Move> = Vec::new();
        proof {
            reveal(wf_at);
            lemma_chain_push(seq![p0], Seq::empty(), mg, *best_mv);
            assert(Seq::<Move>::empty().push(*best_mv) =~= seq![*best_mv]);
        }
        let mut sound = advance(board, best_mv);
        mv_stack.push(*best_mv);
        let ghost mut ps: Seq<Position> = seq![p0].push(board@);
        proof {
            assert(mv_stack@ =~= seq![*best_mv]);
        }
        loop
            invariant
                self.wf(),
                slots == self.ttable.slots(),
                chain_ok(ps, mv_stack@, mg),
                mv_stack@.len() >= 1,
                ps[0] == p0,
                p0 == old(board)@,
                board@ == ps.last(),
                board.gen() == mg,
                mg == old(board).gen(),
                board.us < 2 && board.enemy < 2,
                sound ==> wf_at(ps.last(), mg),
                visited@.no_duplicates(),
                forall|i: int| 0 <= i < visited@.len() ==> (#[trigger] probed(slots, visited@[i])) is Some,
                mv_stack@[0] == *best_mv,
            decreases 0x800000 - visited@.len(),
        {
            proof {
                self.ttable.lemma_slots_len();
                lemma_distinct_hashes(slots, visited@);
            }
            if !sound {
                break;
            }
            let hash = board.get_hash();
            let tt_entry = self.ttable.probe(hash);
            let e = match tt_entry {
                Some(e) => e,
                None => {
                    break;
                },
            };
            if contains_hash(&visited, hash) {
                break;
            }
            let mv = e.best_move;
            if !board.fits_move(&mv) {
                break;
            }
            proof {
                lemma_chain_push(ps, mv_stack@, mg, mv);
                lemma_visited_push(slots, visited@, hash);
                lemma_distinct_hashes(slots, visited@.push(hash));
            }
            sound = advance(board, &mv);
            mv_stack.push(mv);
            visited.push(hash);
            proof {
                ps = ps.push(board@);
            }
        }
        let mut s = String::new();
        let mut i: usize = 0;
        let ghost ms = mv_stack@.map_values(|m: Move| m@);
        while i < mv_stack.len()
            invariant
                0 <= i <= mv_stack@.len(),
                ms == mv_stack@.map_values(|m: Move| m@),
                s@ == pv_line(ms, i as int),
            decreases mv_stack@.len() - i,
        {
            push_move_text(&mut s, &mv_stack[i]);
            proof {
                assert(s@ =~= pv_line(ms, i as int + 1));
            }
            i += 1;
        }
        while mv_stack.len() > 0
            invariant
                chain_ok(ps.subrange(0, (mv_stack@.len() + 1) as int), mv_stack@, mg),
                ps.len() >= mv_stack@.len() + 1,
                ps[0] == p0,
                p0 == old(board)@,
                board@ == ps[mv_stack@.len() as int],
                board.gen() == mg,
                mg == old(board).gen(),
            decreases mv_stack@.len(),
        {
            let ghost ms0 = mv_stack@;
            let ghost sub = ps.subrange(0, (ms0.len() + 1) as int);
            let k = mv_stack.len() - 1;
            let m = mv_stack.pop().unwrap();
            proof {
                assert(m == ms0[k as int]);
                lemma_chain_pop(sub, ms0, mg, k as int);
                assert(sub[k as int + 1] == ps[k as int + 1]);
                assert(sub[k as int] == ps[k as int]);
                assert forall|i: int| 0 <= i < mv_stack@.len() implies #[trigger] step_ok(ps.subrange(0, (mv_stack@.len() + 1) as int)[i], mg, mv_stack@[i]@, ps.subrange(0, (mv_stack@.len() + 1) as int)[i + 1]) by {
                    assert(step_ok(sub[i], mg, ms0[i]@, sub[i + 1]));
                    assert(mv_stack@[i] == ms0[i]);
                }
            }
            board.unmake_move(&m);
        }
        proof {
            assert(ms.len() >= 1 && ms[0] == best_mv@);
        }
        s
    }

    /// The info line of a finished iteration: depth, score, table and null
    /// move hits, nodes, and the principal variation from `best_mv`.
    pub fn search_info(&self, board: &mut Board, depth: i32, value: i32, best_mv: &Move) -> (r: String)
        requires
            self.wf(),
            position_wf(old(board)@, old(board).gen()),
            move_fits(old(board)@, best_mv@),
        ensures
            final(board)@ == old(board)@,
            final(board).gen() == old(board).gen(),
            exists|ms: Seq<u16>| ms.len() >= 1 && ms[0] == best_mv@ && r@ == info_prefix(depth, value, self.tt_hits(), self.nodes(), self.null_hits())
                + pv_line(ms, ms.len() as int),
    {
        let mut s = String::new();
        s.append("info depth ");
        push_signed(&mut s, depth);
        s.append(" cp ");
        push_signed(&mut s, value);
        s.append(" tthits ");
        push_signed(&mut s, self.ttable_hits);
        s.append(" nodes searched ");
        push_decimal_u64(&mut s, self.nodes_searched);
        s.append(" nmp hits ");
        push_signed(&mut s, self.nmp_hits);
        s.append(" pv ");
        let ghost pre = s@;
        let pv = self.get_pv_string(board, best_mv);
        s.append(pv.as_str());
        proof {
            assert(pre =~= info_prefix(depth, value, self.tt_hits(), self.nodes(), self.null_hits()));
            let ms = choose|ms: Seq<u16>| ms.len() >= 1 && ms[0] == best_mv@ && pv@ == pv_line(ms, ms.len() as int);
            assert(s@ =~= info_prefix(depth, value, self.tt_hits(), self.nodes(), self.null_hits()) + pv_line(ms, ms.len() as int));
        }
        s
    }
}

/// Each move the ordering hands out moves it on: out of its first two
/// phases, or one move fewer kept.
#[verifier::spinoff_prover]
pub proof fn lemma_order_next_measure(
    mg: crate::moving::move_generation::MoveGenerator,
    b: Board,
    h: HistoryTable,
    kt: KillerTable,
    pv: u16,
    ply: i32,
    ph: MoveOrderingPhase,
    moves: Seq<(crate::search::move_ordering::MoveKind, i32, u16)>,
)
    ensures
        ({
            let (m, ph2, rest) = order_next(mg, b, h, kt, pv, ply, ph, moves);
            let stage = |x: MoveOrderingPhase| if phase_index(x) == 0 { 2int } else if phase_index(x) == 1 { 1int } else { 0int };
            m is Some ==> (stage(ph2) < stage(ph) || (stage(ph2) == stage(ph) && rest.len() < moves.len()))
        }),
    decreases 9 - phase_index(ph),
{
    match ph {
        MoveOrderingPhase::PvNode => {
            if !(pv != 0 && move_fits(b@, pv) && move_legal(mg, b, pv)) {
                lemma_order_next_measure(mg, b, h, kt, pv, ply, MoveOrderingPhase::Generation, moves);
            }
        },
        MoveOrderingPhase::Generation => {
            let s = legal_moves(mg, b);
            lemma_order_next_measure(mg, b, h, kt, pv, ply, MoveOrderingPhase::Promotions,
                crate::search::move_ordering::ordered_list(mg, b, h, kt, ply, pv, s, s.len() as int));
        },
        MoveOrderingPhase::Exhausted => {},
        _ => {
            let (bi, bs) = crate::search::move_ordering::scan(moves, crate::search::move_ordering::phase_kind(ph), moves.len() as int);
            if bs != i32::MIN {
                crate::search::move_ordering::lemma_scan_in_range(moves, crate::search::move_ordering::phase_kind(ph), moves.len() as int);
            } else {
                lemma_order_next_measure(mg, b, h, kt, pv, ply, crate::search::move_ordering::phase_after(ph), moves);
            }
        },
    }
}

/// Whether the material count of a board is not below `m0` (which a capture
/// or promotion never leaves).
fn material_of_checked(board: &Board, m0: u32) -> (r: bool)
    requires
        board.occ() == position_occupancy(board@),
    ensures
        r == (material_count(board@) >= m0),
{
    material_of(board) >= m0
}

} // verus!
