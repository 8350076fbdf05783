use std::sync::atomic::{AtomicBool, AtomicU64};
use chess_engine::board::Position;
use chess_engine::eval::evaluate;
use chess_engine::movegen::{generate_moves, magics};
use chess_engine::search::alphabeta::{quiescence, search, SearchState, INFINITY, MATE_SCORE, MAX_QPLY};
use chess_engine::search::iterative_deepening;
use chess_engine::search::tt::{TTData, TTFlag, TranspositionTable};
use chess_engine::search::SearchLimits;
use chess_engine::types::Move;

const BARE_KINGS: &str = "4k3/8/8/8/8/8/8/4K3 w - - 0 1";

#[test]
fn quiescence_without_captures_is_the_larger_of_alpha_and_eval() {
    magics::init();
    let pos = Position::from_fen(BARE_KINGS).unwrap();
    let eval = evaluate(&pos);
    let stop = AtomicBool::new(false);
    let pondering = AtomicBool::new(false);
    let nodes = AtomicU64::new(0);
    let mut state = SearchState::new(&stop, &pondering, &nodes, None, None);
    assert_eq!(quiescence(&pos, &mut state, eval - 50, eval + 50, 0), eval);
    assert_eq!(quiescence(&pos, &mut state, eval + 10, eval + 50, 0), eval + 10);
}

#[test]
fn quiescence_stands_pat_at_beta_and_at_the_ply_limit() {
    magics::init();
    // White to move can take the rook: captures exist.
    let pos = Position::from_fen("4k3/8/8/3r4/4P3/8/8/4K3 w - - 0 1").unwrap();
    let eval = evaluate(&pos);
    let stop = AtomicBool::new(false);
    let pondering = AtomicBool::new(false);
    let nodes = AtomicU64::new(0);
    let mut state = SearchState::new(&stop, &pondering, &nodes, None, None);
    assert_eq!(quiescence(&pos, &mut state, eval - 100, eval, 0), eval);
    assert_eq!(quiescence(&pos, &mut state, eval - 100, eval + 100, MAX_QPLY), eval);
    let r = quiescence(&pos, &mut state, -INFINITY, INFINITY, 0);
    assert!(r > eval, "taking the rook beats standing pat");
}

#[test]
fn root_search_scores_mate_and_stalemate() {
    magics::init();
    let tt = TranspositionTable::new(1);
    let stop = AtomicBool::new(false);
    let pondering = AtomicBool::new(false);
    let nodes = AtomicU64::new(0);
    let mut state = SearchState::new(&stop, &pondering, &nodes, None, None);
    let mated = Position::from_fen("7k/6Q1/6K1/8/8/8/8/8 b - - 0 1").unwrap();
    assert_eq!(search(&mated, &mut state, &tt, 3, 0, -INFINITY, INFINITY), -MATE_SCORE);
    let stalemate = Position::from_fen("7k/5Q2/6K1/8/8/8/8/8 b - - 0 1").unwrap();
    assert_eq!(search(&stalemate, &mut state, &tt, 3, 0, -INFINITY, INFINITY), 0);
}

#[test]
fn root_search_at_depth_zero_is_quiescence() {
    magics::init();
    let tt = TranspositionTable::new(1);
    let stop = AtomicBool::new(false);
    let pondering = AtomicBool::new(false);
    let nodes = AtomicU64::new(0);
    let mut state = SearchState::new(&stop, &pondering, &nodes, None, None);
    let pos = Position::from_fen(BARE_KINGS).unwrap();
    let eval = evaluate(&pos);
    assert_eq!(search(&pos, &mut state, &tt, 0, 0, eval - 30, eval + 30), eval);
    assert_eq!(search(&pos, &mut state, &tt, 0, 0, eval + 5, eval + 30), eval + 5);
}

#[test]
fn deepening_with_no_iteration_keeps_the_first_legal_move() {
    magics::init();
    let tt = TranspositionTable::new(1);
    let stop = AtomicBool::new(false);
    let pondering = AtomicBool::new(false);
    let limits = SearchLimits { depth: Some(2), movetime: None, nodes: None, infinite: false, ponder: false };
    let pos = Position::startpos();
    let r = iterative_deepening(&pos, &tt, &limits, &stop, &pondering, None, 3, |_info| {});
    assert_eq!(r.score, 0);
    assert!(r.ponder_move.is_none());
    let moves = generate_moves(&pos);
    assert_eq!(r.best_move, moves.get(0));
    let mated = Position::from_fen("7k/6Q1/6K1/8/8/8/8/8 b - - 0 1").unwrap();
    let r = iterative_deepening(&mated, &tt, &limits, &stop, &pondering, None, 3, |_info| {});
    assert_eq!(r.best_move, Move::none());
}

#[test]
fn hashfull_counts_used_entries_per_mille() {
    let tt = TranspositionTable::new(1);
    assert_eq!(tt.hashfull(), 0);
    let data = TTData { depth: 3, score: 12, flag: TTFlag::Exact, best_move: Move::none(), gen: 0 };
    tt.store(5, data);
    tt.store(6, data);
    assert_eq!(tt.hashfull(), 2);
}

#[test]
fn quiescence_value_of_a_single_capture() {
    magics::init();
    // White's only capture is exd5; after it Black has no capture, so the
    // value is the larger of standing pat and Black's evaluation negated.
    let pos = Position::from_fen("4k3/8/8/3r4/4P3/8/8/4K3 w - - 0 1").unwrap();
    let after = Position::from_fen("4k3/8/8/3P4/8/8/8/4K3 b - - 0 1").unwrap();
    let stand_pat = evaluate(&pos);
    let capture = -evaluate(&after);
    let expected = if capture > stand_pat { capture } else { stand_pat };
    let stop = AtomicBool::new(false);
    let pondering = AtomicBool::new(false);
    let nodes = AtomicU64::new(0);
    let mut state = SearchState::new(&stop, &pondering, &nodes, None, None);
    assert_eq!(quiescence(&pos, &mut state, -INFINITY, INFINITY, 0), expected);
    assert_eq!(quiescence(&pos, &mut state, expected - 1, expected + 1, 0), expected);
}
