use vstd::prelude::*;
use crate::position::board::{Board, Position};
use crate::moving::move_generation::MoveGenerator;
use crate::moving::generation::{legal_moves, same_board};
use crate::moving::move_making::made;
use crate::moving::soundness::position_sound;
use crate::evaluation::evaluator::evaluation;
use crate::search::history::HistoryTable;
use crate::search::killers::KillerTable;
use crate::search::alpha_beta::{MATE, material_count};
use crate::moving::mv::{Move, lemma_move_eq};
use crate::search::move_ordering::{MoveKind, QuiesceOrderingPhase, quiesce_list, quiesce_next,
    law_quiesce_next_from_remaining};

verus! {

/// The negation of a score as a release build computes it: the lowest `i32`
/// negates to itself.
#[verifier::opaque]
pub open spec fn negate(x: i32) -> i32 {
    if x == i32::MIN {
        i32::MIN
    } else {
        (-x) as i32
    }
}

/// A board with view `p` (one whose sides are in range, when there is one).
pub open spec fn board_at(p: Position) -> Board {
    choose|b: Board| same_board(b, b) && b@ == p
}

/// A board whose sides are in range reads the same as the chosen board with its view.
pub proof fn lemma_board_at(b: Board)
    requires
        same_board(b, b),
    ensures
        same_board(board_at(b@), b),
        same_board(b, board_at(b@)),
{
    assert(exists|x: Board| same_board(x, x) && x@ == b@) by {
        assert(same_board(b, b) && b@ == b@);
    }
}

/// A history table with the scores `hs` (one exists for any scores a table holds).
pub open spec fn history_with(hs: Seq<i32>) -> HistoryTable {
    choose|h: HistoryTable| h.scores() == hs
}

/// A killer table with the rows `f` and `s`.
pub open spec fn killers_with(f: Seq<u16>, s: Seq<u16>) -> KillerTable {
    choose|k: KillerTable| k.firsts() == f && k.seconds() == s
}

/// A move packed as `v`.
pub open spec fn move_with(v: u16) -> Move {
    choose|m: Move| m@ == v
}

/// The chosen tables hold what the given ones hold.
pub proof fn lemma_tables_with(h: HistoryTable, k: KillerTable)
    ensures
        history_with(h.scores()).scores() == h.scores(),
        killers_with(k.firsts(), k.seconds()).firsts() == k.firsts(),
        killers_with(k.firsts(), k.seconds()).seconds() == k.seconds(),
{
    let hs = h.scores();
    let kf = k.firsts();
    let ks = k.seconds();
    assert(h.scores() == hs && k.firsts() == kf && k.seconds() == ks);
    assert(exists|x: HistoryTable| #[trigger] x.scores() == hs);
    assert(exists|x: KillerTable| #[trigger] x.firsts() == kf && x.seconds() == ks);
}

/// The chosen move is the given one.
pub proof fn lemma_move_with(m: Move)
    ensures
        move_with(m@) == m,
{
    let v = m@;
    assert(m@ == v);
    assert(exists|x: Move| #[trigger] x@ == v);
    lemma_move_eq(move_with(m@), m);
}

/// The quiescence value of `p` at ply `depth` with the window (`alpha`,
/// `beta`), history `h` and killers `kt`: with no legal moves, a mate
/// (`-MATE + depth`) in check and 0 otherwise; else the evaluation when it
/// reaches `beta`, and otherwise the best of the evaluation and the captures
/// and promotions tried in order.
pub closed spec fn qsearch(
    mg: MoveGenerator,
    p: Position,
    depth: i32,
    alpha: i32,
    beta: i32,
    hs: Seq<i32>,
    kf: Seq<u16>,
    ks: Seq<u16>,
) -> i32
    decreases material_count(p), 2int, 0int,
{
    let b = board_at(p);
    let s = legal_moves(mg, b);
    if s.len() == 0 {
        if p.checkers != 0 {
            (-MATE + depth) as i32
        } else {
            0
        }
    } else {
        let e = evaluation(mg, b) as i32;
        if e >= beta {
            e
        } else {
            qloop(
                mg,
                p,
                depth,
                if alpha < e {
                    e
                } else {
                    alpha
                },
                beta,
                e,
                hs,
                kf,
                ks,
                QuiesceOrderingPhase::Promotions,
                quiesce_list(mg, b, history_with(hs), killers_with(kf, ks), depth, s, s.len() as int),
            )
        }
    }
}

/// The captures and promotions of `p` tried from the ordering state (`ph`,
/// `moves`) with the best score `best` so far: a move that leaves an unsound
/// position or takes nothing is passed over; each other scores the negated
/// quiescence value after it (with the window turned round), raising `best`
/// and `alpha`; a score reaching `beta` ends the search with `best`.
pub closed spec fn qloop(
    mg: MoveGenerator,
    p: Position,
    depth: i32,
    alpha: i32,
    beta: i32,
    best: i32,
    hs: Seq<i32>,
    kf: Seq<u16>,
    ks: Seq<u16>,
    ph: QuiesceOrderingPhase,
    moves: Seq<(MoveKind, i32, u16)>,
) -> i32
    decreases material_count(p), 1int, moves.len(),
{
    let (next, ph2, rest) = quiesce_next(ph, moves);
    match next {
        None => best,
        Some(m) => {
            proof {
                law_quiesce_next_from_remaining(ph, moves);
            }
            let q = made(p, mg, m);
            if !position_sound(q) || material_count(q) >= material_count(p) {
                qloop(mg, p, depth, alpha, beta, best, hs, kf, ks, ph2, rest)
            } else {
                let score = negate(qsearch(mg, q, (depth + 1) as i32, negate(beta), negate(alpha), hs, kf, ks));
                let best2 = if score > best {
                    score
                } else {
                    best
                };
                let alpha2 = if score > best && score > alpha {
                    score
                } else {
                    alpha
                };
                if score >= beta {
                    best2
                } else {
                    qloop(mg, p, depth, alpha2, beta, best2, hs, kf, ks, ph2, rest)
                }
            }
        },
    }
}

/// Below `beta`, the quiescence value is the loop over the captures and
/// promotions, from the evaluation and the raised `alpha`.
pub proof fn lemma_qsearch_start(
    mg: MoveGenerator,
    p: Position,
    depth: i32,
    alpha: i32,
    beta: i32,
    hs: Seq<i32>,
    kf: Seq<u16>,
    ks: Seq<u16>,
    e: i32,
    moves: Seq<(MoveKind, i32, u16)>,
)
    requires
        legal_moves(mg, board_at(p)).len() > 0,
        evaluation(mg, board_at(p)) == e,
        e < beta,
        moves == quiesce_list(mg, board_at(p), history_with(hs), killers_with(kf, ks), depth, legal_moves(mg, board_at(p)), legal_moves(
            mg,
            board_at(p),
        ).len() as int),
    ensures
        qsearch(mg, p, depth, alpha, beta, hs, kf, ks) == qloop(mg, p, depth, if alpha < e {
            e
        } else {
            alpha
        }, beta, e, hs, kf, ks, QuiesceOrderingPhase::Promotions, moves),
{
    let ev = evaluation(mg, board_at(p));
    assert((ev as i32) == e);
}

/// With no legal moves the quiescence value is a mate in check and 0
/// otherwise.
pub proof fn lemma_qsearch_no_moves(
    mg: MoveGenerator,
    p: Position,
    depth: i32,
    alpha: i32,
    beta: i32,
    hs: Seq<i32>,
    kf: Seq<u16>,
    ks: Seq<u16>,
)
    requires
        legal_moves(mg, board_at(p)).len() == 0,
    ensures
        qsearch(mg, p, depth, alpha, beta, hs, kf, ks) == (if p.checkers != 0 {
            (-MATE + depth) as i32
        } else {
            0i32
        }),
{
}

/// An evaluation that reaches `beta` is the quiescence value.
pub proof fn lemma_qsearch_stand_pat(
    mg: MoveGenerator,
    p: Position,
    depth: i32,
    alpha: i32,
    beta: i32,
    hs: Seq<i32>,
    kf: Seq<u16>,
    ks: Seq<u16>,
    e: i32,
)
    requires
        legal_moves(mg, board_at(p)).len() > 0,
        evaluation(mg, board_at(p)) == e,
        e >= beta,
    ensures
        qsearch(mg, p, depth, alpha, beta, hs, kf, ks) == e,
{
    let ev = evaluation(mg, board_at(p));
    assert((ev as i32) == e);
}

/// When the ordering hands out nothing more, the loop gives the best score so far.
pub proof fn lemma_qloop_none(
    mg: MoveGenerator,
    p: Position,
    depth: i32,
    alpha: i32,
    beta: i32,
    best: i32,
    hs: Seq<i32>,
    kf: Seq<u16>,
    ks: Seq<u16>,
    ph: QuiesceOrderingPhase,
    moves: Seq<(MoveKind, i32, u16)>,
)
    requires
        quiesce_next(ph, moves).0 is None,
    ensures
        qloop(mg, p, depth, alpha, beta, best, hs, kf, ks, ph, moves) == best,
{
}

/// A move that leaves an unsound position or takes nothing is passed over.
pub proof fn lemma_qloop_skip(
    mg: MoveGenerator,
    p: Position,
    depth: i32,
    alpha: i32,
    beta: i32,
    best: i32,
    hs: Seq<i32>,
    kf: Seq<u16>,
    ks: Seq<u16>,
    ph: QuiesceOrderingPhase,
    moves: Seq<(MoveKind, i32, u16)>,
    m: u16,
)
    requires
        quiesce_next(ph, moves).0 == Some(m),
        !position_sound(made(p, mg, m)) || material_count(made(p, mg, m)) >= material_count(p),
    ensures
        qloop(mg, p, depth, alpha, beta, best, hs, kf, ks, ph, moves) == qloop(mg, p, depth, alpha, beta, best, hs, kf, ks,
            quiesce_next(ph, moves).1, quiesce_next(ph, moves).2),
{
}

/// A move tried scores the negated value after it: a cut-off at `beta`
/// ends the loop, else it goes on with the raised best and `alpha`.
pub proof fn lemma_qloop_score(
    mg: MoveGenerator,
    p: Position,
    depth: i32,
    alpha: i32,
    beta: i32,
    best: i32,
    hs: Seq<i32>,
    kf: Seq<u16>,
    ks: Seq<u16>,
    ph: QuiesceOrderingPhase,
    moves: Seq<(MoveKind, i32, u16)>,
    m: u16,
    score: i32,
)
    requires
        quiesce_next(ph, moves).0 == Some(m),
        position_sound(made(p, mg, m)),
        material_count(made(p, mg, m)) < material_count(p),
        score == negate(qsearch(mg, made(p, mg, m), (depth + 1) as i32, negate(beta), negate(alpha), hs, kf, ks)),
    ensures
        score >= beta ==> qloop(mg, p, depth, alpha, beta, best, hs, kf, ks, ph, moves) == (if score > best {
            score
        } else {
            best
        }),
        score < beta ==> qloop(mg, p, depth, alpha, beta, best, hs, kf, ks, ph, moves) == qloop(mg, p, depth, if score > best
            && score > alpha {
            score
        } else {
            alpha
        }, beta, if score > best {
            score
        } else {
            best
        }, hs, kf, ks, quiesce_next(ph, moves).1, quiesce_next(ph, moves).2),
{
}

} // verus!
