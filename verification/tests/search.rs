use barbel::evaluation::evaluator::Evaluator;
use barbel::fen_parsing::fen_parsing::parse_fen;
use barbel::moving::generation::generate_moves;
use barbel::moving::move_list::MoveList;
use barbel::moving::mv::Move;
use barbel::search::alpha_beta::{after_iteration, answer_move, may_start_iteration, Searcher, LMR_THRESHOLDS};
use barbel::search::history::HistoryTable;
use barbel::search::killers::KillerTable;
use barbel::search::move_ordering::{OrderedMovesIter, QuiesceOrderedMovesIter};

#[test]
fn search_finds_the_back_rank_mate() {
    let fen = "6k1/5ppp/8/8/8/8/8/R5K1 w - - 0 1";
    let mut board = parse_fen(fen).unwrap();
    let mut searcher = Searcher::new();
    let result = searcher.search_to_depth(&mut board, 2);
    assert_eq!(result.mv.to_str(), "a1a8");
    assert_eq!(result.depth_reached, 2);
    assert_eq!(board.to_fen(), fen);
}

#[test]
fn flat_search_finds_the_back_rank_mate_and_keeps_the_board() {
    let fen = "6k1/5ppp/8/8/8/8/8/R5K1 w - - 0 1";
    let mut board = parse_fen(fen).unwrap();
    let mut searcher = Searcher::new();
    let result = searcher.search_flat(&mut board, 3);
    assert_eq!(result.mv.to_str(), "a1a8");
    assert_eq!(result.depth_reached, 3);
    assert!(result.nodes_searched > 0);
    assert_eq!(searcher.get_nodes_searched(), result.nodes_searched);
    assert_eq!(board.to_fen(), fen);
}

#[test]
fn search_returns_a_legal_move_and_keeps_the_board() {
    let fen = "r1bqkbnr/1ppp1ppp/p1n5/1B2p3/4P3/5N2/PPPP1PPP/RNBQK2R w KQkq - 0 4";
    let mut board = parse_fen(fen).unwrap();
    let mut searcher = Searcher::new();
    let result = searcher.search_to_depth(&mut board, 4);
    let mut list = MoveList::new();
    generate_moves(&mut list, &board);
    let texts: Vec<String> = list.moves().iter().map(|m| m.to_str()).collect();
    assert!(texts.contains(&result.mv.to_str()));
    assert_eq!(result.depth_reached, 4);
    assert_eq!(board.to_fen(), fen);
}

#[test]
fn search_in_a_mated_position_gives_the_null_move() {
    let fen = "R5k1/5ppp/8/8/8/8/8/6K1 b - - 0 1";
    let mut board = parse_fen(fen).unwrap();
    let mut searcher = Searcher::new();
    let (_, mv) = searcher.make_search(&mut board, 2);
    assert!(mv.is_null());
}

#[test]
fn search_info_starts_with_the_statistics() {
    let fen = "6k1/5ppp/8/8/8/8/8/R5K1 w - - 0 1";
    let mut board = parse_fen(fen).unwrap();
    let mut searcher = Searcher::new();
    let (value, mv) = searcher.make_search(&mut board, 1);
    assert_eq!(mv.to_str(), "a1a8");
    let info = searcher.search_info(&mut board, 1, value, &mv);
    assert!(info.starts_with("info depth 1 cp 999999 tthits "));
    assert!(info.contains(" pv a1a8 "));
    assert_eq!(board.to_fen(), fen);
}

#[test]
fn starting_position_evaluates_to_zero() {
    let board = parse_fen("rnbqkbnr/pppppppp/8/8/8/8/PPPPPPPP/RNBQKBNR w KQkq - 0 1").unwrap();
    let mut evaluator = Evaluator::new();
    assert_eq!(evaluator.evaluate(&board, board.get_mg()), 0);
}

#[test]
fn evaluation_with_white_to_move_follows_the_material() {
    let down = parse_fen("4k3/8/8/3q4/4P3/8/8/4K3 w - - 0 1").unwrap();
    let up = parse_fen("4k3/8/8/3Q4/4p3/8/8/4K3 w - - 0 1").unwrap();
    let mut evaluator = Evaluator::new();
    assert!(evaluator.evaluate(&down, down.get_mg()) < 0);
    assert!(evaluator.evaluate(&up, up.get_mg()) > 0);
}

#[test]
fn ordering_gives_the_hash_move_then_the_winning_capture() {
    let board = parse_fen("4k3/8/8/3q4/4P3/8/8/4K3 w - - 0 1").unwrap();
    let hist = HistoryTable::new();
    let killers = KillerTable::new();
    let hash_move = barbel::moving::move_making::construct_move("e1", "f1", 0);
    let mut it = OrderedMovesIter::new(hash_move, 0);
    assert_eq!(it.next(&board, &hist, &killers).unwrap().to_str(), "e1f1");
    assert_eq!(it.next(&board, &hist, &killers).unwrap().to_str(), "e4d5");
    let mut count = 2;
    while let Some(mv) = it.next(&board, &hist, &killers) {
        assert_ne!(mv.to_str(), "e1f1");
        count += 1;
    }
    let mut list = MoveList::new();
    generate_moves(&mut list, &board);
    assert_eq!(count, list.get_count());
}

#[test]
fn ordering_puts_a_losing_capture_last() {
    let board = parse_fen("4k3/8/8/3p4/8/4n3/8/3QK3 w - - 0 1").unwrap();
    let hist = HistoryTable::new();
    let killers = KillerTable::new();
    let mut it = OrderedMovesIter::new(Move::null(), 0);
    let mut last = String::new();
    while let Some(mv) = it.next(&board, &hist, &killers) {
        last = mv.to_str();
    }
    assert_eq!(last, "d1d5");
}

#[test]
fn quiescence_ordering_hands_out_only_captures_and_promotions() {
    let board = parse_fen("4k3/1P6/8/3q4/4P3/8/8/4K3 w - - 0 1").unwrap();
    let hist = HistoryTable::new();
    let killers = KillerTable::new();
    let mut list = MoveList::new();
    generate_moves(&mut list, &board);
    let mut it = QuiesceOrderedMovesIter::new(list, &board, &hist, &killers, 0);
    let mut seen = Vec::new();
    while let Some(mv) = it.next() {
        assert!(mv.is_capture() || mv.is_promotion());
        seen.push(mv.to_str());
    }
    assert_eq!(seen.len(), 5);
    assert_eq!(seen[0], "b7b8");
    assert_eq!(seen[4], "e4d5");
}

#[test]
fn illegal_hash_move_is_skipped() {
    let board = parse_fen("4k3/8/8/3q4/4P3/8/8/4K3 w - - 0 1").unwrap();
    let hist = HistoryTable::new();
    let killers = KillerTable::new();
    let hash_move = barbel::moving::move_making::construct_move("e1", "d1", 0);
    let mut it = OrderedMovesIter::new(hash_move, 0);
    assert_eq!(it.next(&board, &hist, &killers).unwrap().to_str(), "e4d5");
}

#[test]
fn null_move_is_taken_back() {
    let fen = "rnbqkbnr/pppppppp/8/8/4P3/8/PPPP1PPP/RNBQKBNR b KQkq e3 0 1";
    let mut board = parse_fen(fen).unwrap();
    board.make_null_mv();
    assert_eq!(board.to_fen(), "rnbqkbnr/pppppppp/8/8/4P3/8/PPPP1PPP/RNBQKBNR w KQkq - 0 1");
    board.unmake_null_move();
    assert_eq!(board.to_fen(), fen);
}

#[test]
fn ordering_hands_out_each_move_once() {
    let board = parse_fen("r1bqkbnr/1ppp1ppp/p1n5/1B2p3/4P3/5N2/PPPP1PPP/RNBQK2R w KQkq - 0 4").unwrap();
    let hist = HistoryTable::new();
    let killers = KillerTable::new();
    let mut it = OrderedMovesIter::new(Move::null(), 0);
    let mut seen: Vec<String> = Vec::new();
    while let Some(mv) = it.next(&board, &hist, &killers) {
        seen.push(mv.to_str());
    }
    let mut list = MoveList::new();
    generate_moves(&mut list, &board);
    let mut generated: Vec<String> = list.moves().iter().map(|m| m.to_str()).collect();
    seen.sort();
    generated.sort();
    assert_eq!(seen, generated);
}

#[test]
fn search_in_a_mated_position_scores_the_lowest_value() {
    let fen = "k7/8/8/8/8/8/5PPP/r5K1 w - - 0 1";
    let mut board = parse_fen(fen).unwrap();
    let mut searcher = Searcher::new();
    let (value, mv) = searcher.make_search(&mut board, 1);
    assert!(mv.is_null());
    assert_eq!(value, i32::MIN);
    assert_eq!(board.to_fen(), fen);
}

#[test]
fn search_in_a_stalemate_gives_the_null_move() {
    let fen = "7k/5Q2/6K1/8/8/8/8/8 b - - 0 1";
    let mut board = parse_fen(fen).unwrap();
    let mut searcher = Searcher::new();
    let (value, mv) = searcher.make_search(&mut board, 3);
    assert!(mv.is_null());
    assert_eq!(value, i32::MIN);
}

#[test]
fn mate_in_one_is_scored_as_a_mate_one_ply_away() {
    let fen = "6k1/5ppp/8/8/8/8/8/R5K1 w - - 0 1";
    let mut board = parse_fen(fen).unwrap();
    let mut searcher = Searcher::new();
    let (value, mv) = searcher.make_search(&mut board, 1);
    assert_eq!(mv.to_str(), "a1a8");
    assert_eq!(value, 1_000_000 - 1);
}

#[test]
fn timed_deepening_starts_iterations_only_in_the_first_half_when_cut() {
    assert!(may_start_iteration(500, 1000, true, false, 3));
    assert!(!may_start_iteration(501, 1000, true, false, 3));
    assert!(may_start_iteration(900, 1000, false, false, 3));
    assert!(!may_start_iteration(0, 1000, false, true, 3));
    assert!(!may_start_iteration(0, 1000, false, false, 46341));
}

#[test]
fn timed_deepening_keeps_the_last_finished_iteration_and_stops_at_a_mate() {
    let old = Move::new(12, 28, 0);
    let new = Move::new(6, 21, 0);
    let (best, depth, go_on) = after_iteration(old, 3, 4, 25, new, false);
    assert!(best == new);
    assert_eq!(depth, 4);
    assert!(go_on);
    let (best, depth, go_on) = after_iteration(old, 3, 4, 25, new, true);
    assert!(best == old);
    assert_eq!(depth, 3);
    assert!(go_on);
    let (_, _, go_on) = after_iteration(old, 3, 4, 999_999, new, false);
    assert!(!go_on);
    let (_, _, go_on) = after_iteration(old, 3, 4, 100_000, new, false);
    assert!(go_on);
}

#[test]
fn timed_search_falls_back_to_the_first_move() {
    let fallback = Move::new(12, 28, 0);
    assert!(answer_move(Move::null(), fallback) == fallback);
    let best = Move::new(6, 21, 0);
    assert!(answer_move(best, fallback) == best);
}

#[test]
fn late_move_reduction_thresholds_follow_the_logarithm_formula() {
    for depth in 4..64usize {
        for mv_num in 4..218usize {
            let expected = (0.99 + (depth as f64).ln() * (mv_num as f64).ln() / std::f64::consts::PI) as i32;
            let from_table = LMR_THRESHOLDS[depth].iter().filter(|t| mv_num >= **t as usize).count() as i32;
            assert_eq!(from_table, expected, "depth {} move {}", depth, mv_num);
        }
    }
}
