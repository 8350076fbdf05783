use chess_engine::bitboard::Bitboard;
use chess_engine::board::Position;
use chess_engine::movegen::{generate_moves, magics, perft};
use chess_engine::search::alphabeta::{tt_cutoff, MATE_SCORE};
use chess_engine::search::tt::{TTData, TTFlag};
use chess_engine::search::{is_mate_score, iteration_result};
use chess_engine::types::{Move, Square};

fn entry(depth: i8, score: i16, flag: TTFlag, mv: Move) -> TTData {
    TTData { depth, score, flag, best_move: mv, gen: 0 }
}

#[test]
fn table_hit_decisions() {
    let m = Move::new(Square(12), Square(28), 0, 0);
    // Shallower than the search, or at the root: no change.
    assert_eq!(tt_cutoff(entry(2, 50, TTFlag::Exact, m), 3, 4, -100, 100), (None, -100, 100));
    assert_eq!(tt_cutoff(entry(5, 50, TTFlag::Exact, m), 3, 0, -100, 100), (None, -100, 100));
    // Exact entries return their score.
    assert_eq!(tt_cutoff(entry(5, 50, TTFlag::Exact, m), 3, 4, -100, 100), (Some(50), -100, 100));
    // A lower bound cuts at beta, else raises alpha.
    assert_eq!(tt_cutoff(entry(5, 150, TTFlag::LowerBound, m), 3, 4, -100, 100), (Some(150), -100, 100));
    assert_eq!(tt_cutoff(entry(5, 50, TTFlag::LowerBound, m), 3, 4, -100, 100), (None, 50, 100));
    assert_eq!(tt_cutoff(entry(5, -150, TTFlag::LowerBound, m), 3, 4, -100, 100), (None, -100, 100));
    // An upper bound cuts at alpha, else lowers beta.
    assert_eq!(tt_cutoff(entry(5, -150, TTFlag::UpperBound, m), 3, 4, -100, 100), (Some(-150), -100, 100));
    assert_eq!(tt_cutoff(entry(5, 50, TTFlag::UpperBound, m), 3, 4, -100, 100), (None, -100, 50));
    // Mate scores are seen from this ply.
    let stored = (MATE_SCORE - 10 + 4) as i16;
    assert_eq!(tt_cutoff(entry(5, stored, TTFlag::Exact, m), 3, 4, -100, 100), (Some(MATE_SCORE - 10), -100, 100));
}

#[test]
fn iteration_updates() {
    let old = Move::new(Square(12), Square(28), 0, 0);
    let hit = Move::new(Square(11), Square(27), 0, 0);
    let d = entry(4, 33, TTFlag::Exact, hit);
    let empty = entry(4, 77, TTFlag::Exact, Move::none());
    // Completed iterations take the score, and the entry's move when there is one.
    assert_eq!(iteration_result(false, 12, Some(d), old, 5), (hit, 12));
    assert_eq!(iteration_result(false, 12, None, old, 5), (old, 12));
    // Stopped iterations keep the previous pair unless the entry names a move.
    assert_eq!(iteration_result(true, 12, Some(d), old, 5), (hit, 33));
    assert_eq!(iteration_result(true, 12, Some(empty), old, 5), (old, 5));
    assert_eq!(iteration_result(true, 12, None, old, 5), (old, 5));
    assert!(is_mate_score(MATE_SCORE - 3));
    assert!(is_mate_score(-MATE_SCORE + 3));
    assert!(!is_mate_score(MATE_SCORE - 1000));
}

#[test]
fn attack_examples() {
    assert_eq!(magics::knight_attacks(Square(0)), Bitboard(0x20400));
    assert_eq!(magics::rook_attacks(Square(0), Bitboard(0)), Bitboard(0x01010101010101FE));
    let a = magics::init();
    let b = magics::init();
    for s in 0..64u8 {
        let occ = Bitboard(0x0000_1234_0081_0000);
        assert_eq!(a.rook_attacks(Square(s), occ), b.rook_attacks(Square(s), occ));
        assert_eq!(a.bishop_attacks(Square(s), occ), magics::bishop_attacks(Square(s), occ));
        assert_eq!(a.knight_attacks(Square(s)), magics::knight_attacks(Square(s)));
    }
}

#[test]
fn hash_ignores_the_clocks() {
    let p = Position::from_fen("rnbqkbnr/pppppppp/8/8/4P3/8/PPPP1PPP/RNBQKBNR b KQkq e3 0 1").unwrap();
    let q = Position::from_fen("rnbqkbnr/pppppppp/8/8/4P3/8/PPPP1PPP/RNBQKBNR b KQkq e3 17 40").unwrap();
    let r = Position::from_fen("rnbqkbnr/pppppppp/8/8/3P4/8/PPP1PPPP/RNBQKBNR b KQkq d3 0 1").unwrap();
    assert_eq!(p.compute_hash(), q.compute_hash());
    assert_ne!(p.compute_hash(), r.compute_hash());
}

#[test]
fn move_list_iterator_walks_in_order() {
    let pos = Position::startpos();
    let moves = generate_moves(&pos);
    let mut it = moves.into_iter();
    let mut seen = Vec::new();
    while let Some(m) = it.next() {
        seen.push(m);
    }
    assert_eq!(seen.len(), 20);
    assert_eq!(seen.as_slice(), moves.as_slice());
    assert!(it.next().is_none());
}

#[test]
fn perft_of_bare_kings() {
    let pos = Position::from_fen("8/8/8/3k4/8/8/8/K7 w - - 0 1").unwrap();
    assert_eq!(perft(&pos, 1), 3);
}
