use vstd::prelude::*;
use crate::position::board::Position;
use crate::moving::move_generation::MoveGenerator;
use crate::moving::move_making::made;
use crate::moving::null_move::null_made;
use crate::moving::soundness::position_sound;
use crate::search::history::wrapped_i32;
use crate::search::killers::killer_row;
use crate::search::transposition::{Entry, TTEntryType, probed, stored};
use crate::search::move_ordering::{MoveKind, MoveOrderingPhase, order_next, phase_index};
use crate::search::quiescence::{negate, board_at, qsearch, history_with, killers_with, move_with};
use crate::search::alpha_beta::{MATE, NULL_MOVE_RED, INFINITY, only_king_and_pawns, lmr_value, reached, LMR_THRESHOLDS,
    lemma_order_next_measure};

verus! {

/// The tables a search reads and writes, by their contents: the slots of the
/// transposition table, the history scores, and the first and second killer
/// of each ply.
pub type Tables = (Seq<Option<Entry>>, Seq<i32>, Seq<u16>, Seq<u16>);

/// The score of a position with no move to search: a mate (`-MATE + depth`)
/// in check, 0 otherwise.
pub open spec fn mate_or_draw(p: Position, depth: i32) -> i32 {
    if p.checkers != 0 {
        (-MATE + depth) as i32
    } else {
        0
    }
}

/// Whether the table entry `e` ends the search of a node at ply `depth` with
/// `dl` plies left and the window (`alpha`, `beta`): it was searched at least
/// as deep, and its score is exact or a bound outside the window.
pub open spec fn tt_cut(e: Option<Entry>, depth: i32, dl: i32, alpha: i32, beta: i32) -> bool {
    &&& e is Some
    &&& depth > 0
    &&& e->0.depth_left >= dl
    &&& match e->0.entry_type {
        TTEntryType::Exact => true,
        TTEntryType::Lower => e->0.score >= beta,
        TTEntryType::Upper => e->0.score <= alpha,
    }
}

/// The late move reduction of the move `m` (move number `move_num`, ply
/// `depth`, `dl` plies left) that led to `q`: only for a quiet move that is
/// not a killer of the ply, does not give check and comes after the first
/// four, at least four plies from the leaves; at most `dl - 1`.
pub open spec fn lmr_of(q: Position, dl: i32, depth: i32, m: u16, move_num: i32, kf: Seq<u16>, ks: Seq<u16>) -> i32 {
    if dl > 3 && m & 12 == 0 && move_num > 3 && !(0 <= depth < 100 && (kf[depth as int] == m || ks[depth as int]
        == m)) && q.checkers == 0 {
        let cap: int = if dl < 63 {
            dl as int
        } else {
            63
        };
        let red = lmr_value(move_num as int, cap);
        if red < dl - 1 {
            red as i32
        } else {
            (dl - 1) as i32
        }
    } else {
        0
    }
}

/// What a cut-off by `m` at ply `depth` with `dl` plies left teaches the
/// tables: `m` becomes the first killer of the ply (the second slot is
/// cleared when the first was empty) and its history score grows by
/// `dl² + 1`.
pub open spec fn cut_update(t: Tables, depth: i32, m: u16, dl: i32) -> Tables {
    let row = killer_row(depth);
    (
        t.0,
        t.1.update(m as int, wrapped_i32(t.1[m as int] + dl * dl + 1)),
        t.2.update(row, m),
        if t.2[row] == 0 {
            t.3.update(row, 0)
        } else {
            t.3
        },
    )
}

/// The end of a node: with no move searched, the mate or draw score and the
/// tables as they are; else the best score, stored in the table with its
/// bound against the window the node was entered with.
pub open spec fn finish(
    gen: i32,
    sd: i32,
    p: Position,
    depth: i32,
    beta: i32,
    org_alpha: i32,
    best_score: i32,
    best_move: u16,
    t: Tables,
) -> (i32, Tables) {
    if best_move == 0 {
        (mate_or_draw(p, depth), t)
    } else {
        let tt_type = if best_score > org_alpha && best_score < beta {
            TTEntryType::Exact
        } else if best_score >= beta {
            TTEntryType::Lower
        } else {
            TTEntryType::Upper
        };
        let e = Entry {
            key: p.hash,
            depth_left: (sd - depth) as i32,
            score: best_score,
            generation: gen,
            entry_type: tt_type,
            best_move: move_with(best_move),
        };
        (best_score, (stored(t.0, e), t.1, t.2, t.3))
    }
}

/// The negamax value of `p` at ply `depth` of a search to ply `sd` with the
/// window (`alpha`, `beta`), and the tables after it, for a search that
/// does not stop: the quiescence value at the last ply; 0 for a repeated
/// position; a table score that settles the node; `beta` when passing the
/// move still reaches `beta` (null move pruning, not in check, with more
/// than king and pawns, more than three plies from the leaves); otherwise
/// the moves in order (`nloop`). `gen` is the age stamped on stored entries.
pub closed spec fn nsearch(
    mg: MoveGenerator,
    gen: i32,
    sd: i32,
    p: Position,
    depth: i32,
    alpha: i32,
    beta: i32,
    t: Tables,
) -> (i32, Tables)
    decreases (if depth <= sd {
        sd - depth
    } else {
        0
    }), 3int, 0int, 0int, 1int,
{
    nsearch_step(mg, gen, sd, p, depth, alpha, beta, t)
}

/// One level of `nsearch`.
pub open spec fn nsearch_step(
    mg: MoveGenerator,
    gen: i32,
    sd: i32,
    p: Position,
    depth: i32,
    alpha: i32,
    beta: i32,
    t: Tables,
) -> (i32, Tables)
    decreases (if depth <= sd {
        sd - depth
    } else {
        0
    }), 3int, 0int, 0int, 0int,
{
    if depth > sd || depth < 1 {
        if p.hash_stack.contains(p.hash) {
            (0, t)
        } else {
            (mate_or_draw(p, depth), t)
        }
    } else if depth == sd {
        (qsearch(mg, p, depth, alpha, beta, t.1, t.2, t.3), t)
    } else if p.hash_stack.contains(p.hash) {
        (0, t)
    } else {
        let dl = (sd - depth) as i32;
        let e = probed(t.0, p.hash);
        if tt_cut(e, depth, dl, alpha, beta) {
            (e->0.score, t)
        } else {
            let hm: u16 = if e is Some {
                e->0.best_move@
            } else {
                0
            };
            if !only_king_and_pawns(p.side(p.us as int)) && dl > NULL_MOVE_RED && p.checkers == 0 {
                let nb = negate(beta);
                let (c, t2) = nsearch(mg, gen, sd, null_made(p, mg), (depth + NULL_MOVE_RED) as i32, nb,
                    nb.wrapping_add(1), t);
                if negate(c) >= beta {
                    (beta, t2)
                } else {
                    nloop(mg, gen, sd, p, depth, alpha, beta, alpha, i32::MIN, 0, 0, t2, hm,
                        MoveOrderingPhase::PvNode, Seq::empty())
                }
            } else {
                nloop(mg, gen, sd, p, depth, alpha, beta, alpha, i32::MIN, 0, 0, t, hm, MoveOrderingPhase::PvNode,
                    Seq::empty())
            }
        }
    }
}

/// The stage of the move ordering: the hash move, generation, sorting.
pub open spec fn stage(ph: MoveOrderingPhase) -> int {
    if phase_index(ph) == 0 {
        2
    } else if phase_index(ph) == 1 {
        1
    } else {
        0
    }
}

/// The moves of `p` in the order the ordering hands them out from its state
/// (`pv`, `ph`, `moves`) with the current tables: a move that leaves an
/// unsound position is passed over; each other scores `nmove`, raising the
/// best score, `alpha` and the best move; a score reaching `beta` teaches the
/// tables (`cut_update`), and `alpha` reaching `beta` ends the node; when no
/// move is left the node ends (`finish`).
pub closed spec fn nloop(
    mg: MoveGenerator,
    gen: i32,
    sd: i32,
    p: Position,
    depth: i32,
    alpha: i32,
    beta: i32,
    org_alpha: i32,
    best_score: i32,
    best_move: u16,
    move_num: i32,
    t: Tables,
    pv: u16,
    ph: MoveOrderingPhase,
    moves: Seq<(MoveKind, i32, u16)>,
) -> (i32, Tables)
    decreases (if depth <= sd {
        sd - depth
    } else {
        0
    }), 2int, stage(ph), moves.len(), 1int,
{
    nloop_step(mg, gen, sd, p, depth, alpha, beta, org_alpha, best_score, best_move, move_num, t, pv, ph, moves)
}

/// One level of `nloop`.
pub open spec fn nloop_step(
    mg: MoveGenerator,
    gen: i32,
    sd: i32,
    p: Position,
    depth: i32,
    alpha: i32,
    beta: i32,
    org_alpha: i32,
    best_score: i32,
    best_move: u16,
    move_num: i32,
    t: Tables,
    pv: u16,
    ph: MoveOrderingPhase,
    moves: Seq<(MoveKind, i32, u16)>,
) -> (i32, Tables)
    decreases (if depth <= sd {
        sd - depth
    } else {
        0
    }), 2int, stage(ph), moves.len(), 0int,
{
    let b = board_at(p);
    let h = history_with(t.1);
    let k = killers_with(t.2, t.3);
    let (next, ph2, rest) = order_next(mg, b, h, k, pv, depth, ph, moves);
    match next {
        None => finish(gen, sd, p, depth, beta, org_alpha, best_score, best_move, t),
        Some(m) => {
            proof {
                lemma_order_next_measure(mg, b, h, k, pv, depth, ph, moves);
            }
            let q = made(p, mg, m);
            if depth >= sd || depth < 1 {
                (0, t)
            } else if !position_sound(q) {
                nloop(mg, gen, sd, p, depth, alpha, beta, org_alpha, best_score, best_move, move_num, t, pv, ph2, rest)
            } else {
                let (score, t2) = nmove(mg, gen, sd, q, depth, alpha, beta, m, move_num, t);
                let improved = score > best_score;
                let bs = if improved {
                    score
                } else {
                    best_score
                };
                let a2 = if improved && score > alpha {
                    score
                } else {
                    alpha
                };
                let bm = if improved {
                    m
                } else {
                    best_move
                };
                let t3 = if score >= beta {
                    cut_update(t2, depth, m, (sd - depth) as i32)
                } else {
                    t2
                };
                if a2 >= beta {
                    finish(gen, sd, p, depth, beta, org_alpha, bs, bm, t3)
                } else {
                    nloop(mg, gen, sd, p, depth, a2, beta, org_alpha, bs, bm, move_num.wrapping_add(1), t3, pv, ph2,
                        rest)
                }
            }
        },
    }
}

/// The score of the move `m` from ply `depth` that led to `q`, from the mover's
/// view, and the tables after it: the negated value of `q` one ply deeper
/// with the window turned round; with a late move reduction, first searched
/// that much shallower, and again at full depth when that beats `alpha`.
pub closed spec fn nmove(
    mg: MoveGenerator,
    gen: i32,
    sd: i32,
    q: Position,
    depth: i32,
    alpha: i32,
    beta: i32,
    m: u16,
    move_num: i32,
    t: Tables,
) -> (i32, Tables)
    decreases (if depth <= sd {
        sd - depth
    } else {
        0
    }), 1int, 0int, 0int, 1int,
{
    nmove_step(mg, gen, sd, q, depth, alpha, beta, m, move_num, t)
}

/// One level of `nmove`.
pub open spec fn nmove_step(
    mg: MoveGenerator,
    gen: i32,
    sd: i32,
    q: Position,
    depth: i32,
    alpha: i32,
    beta: i32,
    m: u16,
    move_num: i32,
    t: Tables,
) -> (i32, Tables)
    decreases (if depth <= sd {
        sd - depth
    } else {
        0
    }), 1int, 0int, 0int, 0int,
{
    if depth >= sd || depth < 1 {
        (0, t)
    } else {
        let dl = (sd - depth) as i32;
        let lmr = lmr_of(q, dl, depth, m, move_num, t.2, t.3);
        proof {
            lemma_lmr_of_range(q, dl, depth, m, move_num, t.2, t.3);
        }
        if lmr > 0 {
            let (c1, t1) = nsearch(mg, gen, sd, q, (depth + 1 + lmr) as i32, negate(beta), negate(alpha), t);
            let temp = negate(c1);
            if temp > alpha {
                let (c2, t2) = nsearch(mg, gen, sd, q, (depth + 1) as i32, negate(beta), negate(alpha), t1);
                (negate(c2), t2)
            } else {
                (temp, t1)
            }
        } else {
            let (c, t1) = nsearch(mg, gen, sd, q, (depth + 1) as i32, negate(beta), negate(alpha), t);
            (negate(c), t1)
        }
    }
}

proof fn lemma_reached_range(row: Seq<u8>, n: int, k: int)
    requires
        0 <= k,
    ensures
        0 <= reached(row, n, k) <= k,
    decreases k,
{
    if k > 0 {
        lemma_reached_range(row, n, k - 1);
    }
}

/// A reduction is never negative and leaves at least one ply.
pub proof fn lemma_lmr_of_range(q: Position, dl: i32, depth: i32, m: u16, move_num: i32, kf: Seq<u16>, ks: Seq<u16>)
    requires
        dl >= 1,
    ensures
        0 <= lmr_of(q, dl, depth, m, move_num, kf, ks) <= dl - 1,
{
    let cap: int = if dl < 63 {
        dl as int
    } else {
        63
    };
    lemma_reached_range(LMR_THRESHOLDS[cap]@, move_num as int, 8);
}

/// Each search function is one level of itself.
pub proof fn lemma_unfold(
    mg: MoveGenerator,
    gen: i32,
    sd: i32,
    p: Position,
    depth: i32,
    alpha: i32,
    beta: i32,
    org_alpha: i32,
    best_score: i32,
    best_move: u16,
    move_num: i32,
    t: Tables,
    pv: u16,
    ph: MoveOrderingPhase,
    moves: Seq<(MoveKind, i32, u16)>,
    m: u16,
)
    ensures
        nsearch(mg, gen, sd, p, depth, alpha, beta, t) == nsearch_step(mg, gen, sd, p, depth, alpha, beta, t),
        nloop(mg, gen, sd, p, depth, alpha, beta, org_alpha, best_score, best_move, move_num, t, pv, ph, moves)
            == nloop_step(mg, gen, sd, p, depth, alpha, beta, org_alpha, best_score, best_move, move_num, t, pv, ph,
            moves),
        nmove(mg, gen, sd, p, depth, alpha, beta, m, move_num, t) == nmove_step(mg, gen, sd, p, depth, alpha, beta, m,
            move_num, t),
{
}


/// The root of an iteration to depth `d` from `p`: the killers start empty,
/// the hash move is the table's best move for `p`, and the moves are tried in
/// the ordering's order (`rloop`). The best score, the best move (0 when
/// none was searched) and the tables after it.
pub open spec fn rsearch(mg: MoveGenerator, gen: i32, d: i32, p: Position, t: Tables) -> (i32, u16, Tables) {
    let t0: Tables = (t.0, t.1, Seq::new(100, |i: int| 0u16), Seq::new(100, |i: int| 0u16));
    let e = probed(t.0, p.hash);
    let hm: u16 = if e is Some {
        e->0.best_move@
    } else {
        0
    };
    rloop(mg, gen, d, p, i32::MIN, 0, t0, hm, MoveOrderingPhase::PvNode, Seq::empty())
}

/// The root moves of `p` in order from the ordering state (`pv`, `ph`,
/// `moves`): a move that leaves an unsound position is passed over; each
/// other scores the negated value of the position after it, searched from
/// ply 1 with the full window, and becomes the best move when it beats the
/// best score so far.
pub closed spec fn rloop(
    mg: MoveGenerator,
    gen: i32,
    d: i32,
    p: Position,
    best_value: i32,
    best_move: u16,
    t: Tables,
    pv: u16,
    ph: MoveOrderingPhase,
    moves: Seq<(MoveKind, i32, u16)>,
) -> (i32, u16, Tables)
    decreases stage(ph), moves.len(),
{
    let b = board_at(p);
    let h = history_with(t.1);
    let k = killers_with(t.2, t.3);
    let (next, ph2, rest) = order_next(mg, b, h, k, pv, d, ph, moves);
    match next {
        None => (best_value, best_move, t),
        Some(m) => {
            proof {
                lemma_order_next_measure(mg, b, h, k, pv, d, ph, moves);
            }
            let q = made(p, mg, m);
            if !position_sound(q) {
                rloop(mg, gen, d, p, best_value, best_move, t, pv, ph2, rest)
            } else {
                let (c, t2) = nsearch(mg, gen, d, q, 1, negate(INFINITY), INFINITY, t);
                let score = negate(c);
                if score > best_value {
                    rloop(mg, gen, d, p, score, m, t2, pv, ph2, rest)
                } else {
                    rloop(mg, gen, d, p, best_value, best_move, t2, pv, ph2, rest)
                }
            }
        },
    }
}

/// `rloop` one level down.
pub proof fn lemma_rloop_unfold(
    mg: MoveGenerator,
    gen: i32,
    d: i32,
    p: Position,
    best_value: i32,
    best_move: u16,
    t: Tables,
    pv: u16,
    ph: MoveOrderingPhase,
    moves: Seq<(MoveKind, i32, u16)>,
)
    ensures
        ({
            let (next, ph2, rest) = order_next(mg, board_at(p), history_with(t.1), killers_with(t.2, t.3), pv, d, ph,
                moves);
            rloop(mg, gen, d, p, best_value, best_move, t, pv, ph, moves) == match next {
                None => (best_value, best_move, t),
                Some(m) => {
                    let q = made(p, mg, m);
                    if !position_sound(q) {
                        rloop(mg, gen, d, p, best_value, best_move, t, pv, ph2, rest)
                    } else {
                        let (c, t2) = nsearch(mg, gen, d, q, 1, negate(INFINITY), INFINITY, t);
                        let score = negate(c);
                        if score > best_value {
                            rloop(mg, gen, d, p, score, m, t2, pv, ph2, rest)
                        } else {
                            rloop(mg, gen, d, p, best_value, best_move, t2, pv, ph2, rest)
                        }
                    }
                },
            }
        }),
{
}


/// Iterative deepening from depth `i` to `d`: each iteration is a root
/// search one age younger than the last, on the tables the last one left;
/// the best move of the last iteration (`mv` when none is run).
pub open spec fn deepen(mg: MoveGenerator, gen: i32, p: Position, i: i32, d: i32, t: Tables, mv: u16) -> u16
    decreases d - i,
{
    if i < 1 || i > d {
        mv
    } else {
        let g2 = gen.wrapping_add(1);
        let (v, m, t2) = rsearch(mg, g2, i, p, t);
        if i == d {
            m
        } else {
            deepen(mg, g2, p, (i + 1) as i32, d, t2, m)
        }
    }
}

} // verus!
