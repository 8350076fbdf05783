use std::sync::atomic::{AtomicBool, AtomicU64};
use chess_engine::board::Position;
use chess_engine::movegen::magics;
use chess_engine::search::alphabeta::{score_from_tt, score_to_tt, search, SearchState, INFINITY, MATE_SCORE};
use chess_engine::search::tt::TranspositionTable;
use chess_engine::types::Square;

#[test]
fn test_search_finds_mate_in_1() {
    magics::init();
    // White to move, mate in 1 with Ra8#
    let pos = Position::from_fen("4k3/R7/4K3/8/8/8/8/8 w - - 0 1").unwrap();
    let tt = TranspositionTable::new(1);
    let stop = AtomicBool::new(false);
    let pondering = AtomicBool::new(false);
    let nodes = AtomicU64::new(0);
    let mut state = SearchState::new(&stop, &pondering, &nodes, None, None);

    let score = search(&pos, &mut state, &tt, 2, 0, -INFINITY, INFINITY);
    assert!(score > MATE_SCORE - 10);

    let data = tt.probe(pos.hash()).unwrap();
    assert_eq!(data.best_move.from_sq(), Square::from_file_rank(0, 6)); // a7
    assert_eq!(data.best_move.to_sq(), Square::from_file_rank(0, 7)); // a8
}

#[test]
fn test_search_finds_forced_mate_in_1() {
    magics::init();
    // White to move, mate in 1 with Qf7#
    let pos = Position::from_fen(
        "r1bqkb1r/pppp1ppp/2n2n2/4p2Q/2B1P3/8/PPPP1PPP/RNB1K1NR w KQkq - 0 1",
    )
    .unwrap();
    let tt = TranspositionTable::new(1);
    let stop = AtomicBool::new(false);
    let pondering = AtomicBool::new(false);
    let nodes = AtomicU64::new(0);
    let mut state = SearchState::new(&stop, &pondering, &nodes, None, None);

    let score = search(&pos, &mut state, &tt, 2, 0, -INFINITY, INFINITY);
    assert!(score > MATE_SCORE - 10);

    let data = tt.probe(pos.hash()).unwrap();
    assert_eq!(data.best_move.from_sq(), Square::from_file_rank(7, 4)); // h5
    assert_eq!(data.best_move.to_sq(), Square::from_file_rank(5, 6)); // f7
}

#[test]
fn test_mate_score_conversion() {
    let ply = 5;
    let score = MATE_SCORE - 10;
    let tt_score = score_to_tt(score, ply);
    assert_eq!(tt_score, (score + ply) as i16);
    assert_eq!(score_from_tt(tt_score, ply), score);

    let score = -MATE_SCORE + 10;
    let tt_score = score_to_tt(score, ply);
    assert_eq!(tt_score, (score - ply) as i16);
    assert_eq!(score_from_tt(tt_score, ply), score);

    let score = 500;
    let tt_score = score_to_tt(score, ply);
    assert_eq!(tt_score, score as i16);
    assert_eq!(score_from_tt(tt_score, ply), score);
}
