use std::sync::atomic::AtomicBool;
use std::sync::Arc;
use chess_engine::board::Position;
use chess_engine::movegen::magics;
use chess_engine::search::smp::ThreadPool;
use chess_engine::search::tt::TranspositionTable;
use chess_engine::search::{iterative_deepening, SearchLimits, SearchResult};
use chess_engine::types::Move;

/// The pool's work on one thread: each helper's iterative deepening from its
/// staggered start depth into the shared table, then the main search.
fn pool_work(pool: &ThreadPool, pos: &Position, tt: &TranspositionTable, limits: &SearchLimits) -> SearchResult {
    let stop = AtomicBool::new(false);
    let pondering = AtomicBool::new(false);
    for i in 1..pool.num_threads {
        iterative_deepening(pos, tt, limits, &stop, &pondering, None, ThreadPool::helper_start_depth(i), |_| {});
    }
    iterative_deepening(pos, tt, limits, &stop, &pondering, None, 1, |_| {})
}

fn make_pool_search(num_threads: usize) {
    magics::init();
    let pos = Position::startpos();
    let tt = Arc::new(TranspositionTable::new(1));
    let limits = SearchLimits { depth: Some(3), ..Default::default() };
    let pool = ThreadPool::new(num_threads);
    let result = pool_work(&pool, &pos, &tt, &limits);
    assert_ne!(result.best_move, Move::none(), "ThreadPool with {} threads must return a valid move", num_threads);
}

#[test]
fn test_thread_pool_single_thread() {
    make_pool_search(1);
}

#[test]
fn test_thread_pool_four_threads() {
    make_pool_search(4);
}
