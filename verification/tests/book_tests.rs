use chess_engine::board::Position;
use chess_engine::book::{decode_polyglot_move, polyglot_hash};
use chess_engine::types::{Piece, Square};

#[test]
fn test_polyglot_hash_startpos() {
    let pos = Position::startpos();
    // Standard Polyglot Zobrist hash for the starting position.
    assert_eq!(polyglot_hash(&pos), 0x463b96181691fc9c);
}

#[test]
fn test_polyglot_hash_after_e4() {
    let mut pos = Position::startpos();
    let e4 = pos.parse_move("e2e4").unwrap();
    pos.make_move(e4);
    // Known hash from shakmaty's test suite
    assert_eq!(polyglot_hash(&pos), 0x823c9b50fd114196);
}

#[test]
fn test_polyglot_hash_differs_by_position() {
    let pos1 = Position::startpos();
    let pos2 = Position::from_fen("rnbqkbnr/pppppppp/8/8/4P3/8/PPPP1PPP/RNBQKBNR b KQkq - 0 1").unwrap();
    assert_ne!(polyglot_hash(&pos1), polyglot_hash(&pos2));
}


#[test]
fn test_decode_polyglot_castling_white_kingside() {
    let pos = Position::startpos(); // king at e1=Square(4)
    // Polyglot encodes WK castling as e1→h1: to_file=7,to_rank=0,from_file=4,from_rank=0
    let raw: u16 = 7 | (0 << 3) | (4 << 6) | (0 << 9); // e1h1
    let mv = decode_polyglot_move(raw, &pos);
    assert!(mv.is_some(), "should decode WK castling");
    let mv = mv.unwrap();
    assert!(mv.is_castling(), "should be castling flag");
    assert_eq!(mv.from_sq(), Square(4), "from e1");
    assert_eq!(mv.to_sq(), Square(6), "to g1");
}

#[test]
fn test_decode_polyglot_castling_white_queenside() {
    let pos = Position::startpos(); // king at e1=Square(4)
    // Polyglot encodes WQ castling as e1→a1: to_file=0,to_rank=0,from_file=4,from_rank=0
    let raw: u16 = 0 | (0 << 3) | (4 << 6) | (0 << 9); // e1a1
    let mv = decode_polyglot_move(raw, &pos);
    assert!(mv.is_some(), "should decode WQ castling");
    let mv = mv.unwrap();
    assert!(mv.is_castling(), "should be castling flag");
    assert_eq!(mv.from_sq(), Square(4), "from e1");
    assert_eq!(mv.to_sq(), Square(2), "to c1");
}

#[test]
fn test_decode_polyglot_castling_black_kingside() {
    let pos = Position::from_fen("rnbqk2r/pppppppp/8/8/8/8/PPPPPPPP/RNBQKBNR b KQkq - 0 1").unwrap();
    // Black king at e8=Square(60), Polyglot encodes BK castling as e8→h8
    let raw: u16 = 7 | (7 << 3) | (4 << 6) | (7 << 9); // e8h8
    let mv = decode_polyglot_move(raw, &pos);
    assert!(mv.is_some(), "should decode BK castling");
    let mv = mv.unwrap();
    assert!(mv.is_castling());
    assert_eq!(mv.from_sq(), Square(60), "from e8");
    assert_eq!(mv.to_sq(), Square(62), "to g8");
}

#[test]
fn test_decode_polyglot_castling_black_queenside() {
    let pos = Position::from_fen("r3kbnr/pppppppp/8/8/8/8/PPPPPPPP/RNBQKBNR b KQkq - 0 1").unwrap();
    let raw: u16 = 0 | (7 << 3) | (4 << 6) | (7 << 9); // e8a8
    let mv = decode_polyglot_move(raw, &pos);
    assert!(mv.is_some(), "should decode BQ castling");
    let mv = mv.unwrap();
    assert!(mv.is_castling());
    assert_eq!(mv.from_sq(), Square(60), "from e8");
    assert_eq!(mv.to_sq(), Square(58), "to c8");
}

#[test]
fn test_decode_polyglot_normal_pawn_move() {
    let pos = Position::startpos();
    // e2e4: from=(4,1) to=(4,3) no promo
    let raw: u16 = 4 | (3 << 3) | (4 << 6) | (1 << 9);
    let mv = decode_polyglot_move(raw, &pos);
    assert!(mv.is_some());
    let mv = mv.unwrap();
    assert_eq!(mv.to_uci(), "e2e4");
    assert!(!mv.is_castling());
    assert!(!mv.is_promotion());
}

#[test]
fn test_decode_polyglot_promotion_to_queen() {
    // White pawn on a7, promotes to queen: a7a8q = from=(0,6) to=(0,7) promo=4
    let pos = Position::from_fen("8/P7/8/8/8/8/8/4K1k1 w - - 0 1").unwrap();
    let raw: u16 = 0 | (7 << 3) | (0 << 6) | (6 << 9) | (4 << 12);
    let mv = decode_polyglot_move(raw, &pos);
    assert!(mv.is_some());
    let mv = mv.unwrap();
    assert!(mv.is_promotion());
    assert_eq!(mv.promotion_piece(), Piece::Queen);
}
