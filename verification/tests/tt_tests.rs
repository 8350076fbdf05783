use chess_engine::search::tt::{TTData, TTFlag, TranspositionTable};
use chess_engine::types::{Move, Square};

#[test]
fn test_tt_roundtrip() {
    let tt = TranspositionTable::new(1);
    let hash = 0x123456789ABCDEF0;
    let data = TTData {
        depth: 10,
        score: 1500,
        flag: TTFlag::Exact,
        best_move: Move::new(Square(0), Square(63), 0, 0),
        gen: 0,
    };

    tt.store(hash, data);
    let probed = tt.probe(hash).expect("Probe failed");
    assert_eq!(probed, data);
}

#[test]
fn test_tt_overwrite() {
    let tt = TranspositionTable::new(1);
    let hash = 0x123456789ABCDEF0;
    let data1 = TTData {
        depth: 5,
        score: 100,
        flag: TTFlag::LowerBound,
        best_move: Move::none(),
        gen: 0,
    };
    let data2 = TTData {
        depth: 10,
        score: 200,
        flag: TTFlag::Exact,
        best_move: Move::none(),
        gen: 0,
    };

    tt.store(hash, data1);
    tt.store(hash, data2);
    let probed = tt.probe(hash).expect("Probe failed");
    assert_eq!(probed, data2);
}

#[test]
fn test_tt_clear() {
    let tt = TranspositionTable::new(1);
    let hash = 0x123456789ABCDEF0;
    let data = TTData {
        depth: 10,
        score: 1500,
        flag: TTFlag::Exact,
        best_move: Move::none(),
        gen: 0,
    };

    tt.store(hash, data);
    tt.clear();
    assert!(tt.probe(hash).is_none());
}

#[test]
fn test_tt_replacement_and_aging() {
    let tt = TranspositionTable::new(1);
    let mask = tt.mask();
    let hash1 = 0;
    let hash2 = (mask + 1) as u64;

    // Store shallow entry in gen 0
    tt.store(hash1, TTData { depth: 5, score: 100, flag: TTFlag::Exact, best_move: Move::none(), gen: 0 });
    assert_eq!(tt.probe(hash1).unwrap().depth, 5);

    // Store deeper entry for DIFFERENT hash in gen 0 - should replace because depth is higher
    tt.store(hash2, TTData { depth: 10, score: 200, flag: TTFlag::Exact, best_move: Move::none(), gen: 0 });
    assert!(tt.probe(hash1).is_none());
    assert_eq!(tt.probe(hash2).unwrap().depth, 10);

    // Store shallower entry for DIFFERENT hash in gen 0 - should NOT replace because depth is lower
    tt.store(hash1, TTData { depth: 5, score: 300, flag: TTFlag::Exact, best_move: Move::none(), gen: 0 });
    assert!(tt.probe(hash1).is_none());
    assert_eq!(tt.probe(hash2).unwrap().depth, 10);

    // Advance generation
    tt.new_search();

    // Store shallower entry for DIFFERENT hash in gen 1 - should replace because gen is newer
    tt.store(hash1, TTData { depth: 2, score: 400, flag: TTFlag::Exact, best_move: Move::none(), gen: 0 });
    assert_eq!(tt.probe(hash1).unwrap().depth, 2);
    assert!(tt.probe(hash2).is_none());
}
