use chess_engine::board::Position;
use chess_engine::movegen::{generate_moves, magics};
use chess_engine::search::ordering::{order_moves, HistoryTable};
use chess_engine::types::{Move, Square};

#[test]
fn test_order_pv_move_first() {
    magics::init();
    let pos = Position::startpos();
    let mut moves = generate_moves(&pos);
    let pv_move = Move::new(Square(12), Square(28), 0, 0); // e2e4

    order_moves(
        &mut moves,
        pv_move,
        &[Move::none(), Move::none()],
        &HistoryTable::default(),
        &pos,
    );
    assert_eq!(moves.get(0), pv_move);
}

#[test]
fn test_mvv_lva() {
    magics::init();
    // Position where white pawn at d3 can capture queen at c4 and knight at e4
    let pos = Position::from_fen("k7/8/8/8/2q1n3/3P4/8/K7 w - - 0 1").unwrap();
    let mut moves = generate_moves(&pos);

    order_moves(
        &mut moves,
        Move::none(),
        &[Move::none(), Move::none()],
        &HistoryTable::default(),
        &pos,
    );

    // PxQ (d3xc4) should come before PxN (d3xe4)
    let pxc4 = Move::new(
        Square::from_file_rank(3, 2),
        Square::from_file_rank(2, 3),
        0,
        0,
    );
    let pxe4 = Move::new(
        Square::from_file_rank(3, 2),
        Square::from_file_rank(4, 3),
        0,
        0,
    );

    let mut found_pxc4 = false;
    let mut found_pxe4 = false;

    for i in 0..moves.len() {
        if moves.get(i) == pxc4 {
            assert!(!found_pxe4, "PxQ should come before PxN");
            found_pxc4 = true;
        } else if moves.get(i) == pxe4 {
            found_pxe4 = true;
        }
    }
    assert!(found_pxc4);
    assert!(found_pxe4);
}

#[test]
fn test_history_ordering() {
    magics::init();
    let pos = Position::startpos();
    let mut moves = generate_moves(&pos);

    // Pick two quiet moves: g1f3 and b1c3
    let g1f3 = Move::new(Square(6), Square(21), 0, 0);
    let b1c3 = Move::new(Square(1), Square(18), 0, 0);

    let mut history = HistoryTable::new();
    // Record g1f3 to give it a high score
    history.record(0, 6, 21, 10);

    order_moves(
        &mut moves,
        Move::none(),
        &[Move::none(), Move::none()],
        &history,
        &pos,
    );

    assert_eq!(moves.get(0), g1f3);
    // b1c3 should be somewhere in the list
    let mut found_b1c3 = false;
    for i in 0..moves.len() {
        if moves.get(i) == b1c3 {
            found_b1c3 = true;
            break;
        }
    }
    assert!(found_b1c3);
}
