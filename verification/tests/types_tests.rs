use chess_engine::types::{CastlingRights, Color, Move, Piece, Square};

#[test]
fn test_square_from_file_rank() {
    assert_eq!(Square::from_file_rank(0, 0), Square(0)); // a1
    assert_eq!(Square::from_file_rank(7, 0), Square(7)); // h1
    assert_eq!(Square::from_file_rank(0, 7), Square(56)); // a8
    assert_eq!(Square::from_file_rank(7, 7), Square(63)); // h8
    assert_eq!(Square::from_file_rank(4, 1), Square(12)); // e2
}

#[test]
fn test_square_file_rank() {
    let sq = Square(27); // d4: file=3, rank=3
    assert_eq!(sq.file(), 3);
    assert_eq!(sq.rank(), 3);

    let a1 = Square(0);
    assert_eq!(a1.file(), 0);
    assert_eq!(a1.rank(), 0);

    let h8 = Square(63);
    assert_eq!(h8.file(), 7);
    assert_eq!(h8.rank(), 7);
}

#[test]
fn test_color_opposite() {
    assert_eq!(Color::White.opposite(), Color::Black);
    assert_eq!(Color::Black.opposite(), Color::White);
}

#[test]
fn test_move_none() {
    assert_eq!(Move::none(), Move(0));
}

#[test]
fn test_move_normal() {
    let from = Square(8); // a2
    let to = Square(16); // a3
    let m = Move::new(from, to, 0, 0);
    assert_eq!(m.from_sq(), from);
    assert_eq!(m.to_sq(), to);
    assert_eq!(m.flags(), 0);
    assert!(!m.is_promotion());
    assert!(!m.is_en_passant());
    assert!(!m.is_castling());
}

#[test]
fn test_move_promotion() {
    let from = Square(48); // a7
    let to = Square(56); // a8
    let m = Move::new(from, to, 1, 3); // flag=promotion, promo=Queen
    assert_eq!(m.from_sq(), from);
    assert_eq!(m.to_sq(), to);
    assert_eq!(m.flags(), 1);
    assert!(m.is_promotion());
    assert_eq!(m.promotion_piece(), Piece::Queen);
}

#[test]
fn test_move_promotion_pieces() {
    let from = Square(48);
    let to = Square(56);
    assert_eq!(Move::new(from, to, 1, 0).promotion_piece(), Piece::Knight);
    assert_eq!(Move::new(from, to, 1, 1).promotion_piece(), Piece::Bishop);
    assert_eq!(Move::new(from, to, 1, 2).promotion_piece(), Piece::Rook);
    assert_eq!(Move::new(from, to, 1, 3).promotion_piece(), Piece::Queen);
}

#[test]
fn test_move_en_passant() {
    let m = Move::new(Square(32), Square(41), 2, 0);
    assert!(m.is_en_passant());
    assert!(!m.is_promotion());
    assert!(!m.is_castling());
}

#[test]
fn test_move_castling() {
    let m = Move::new(Square(4), Square(6), 3, 0);
    assert!(m.is_castling());
    assert!(!m.is_promotion());
    assert!(!m.is_en_passant());
}

#[test]
fn test_castling_rights_all() {
    let rights = CastlingRights(CastlingRights::ALL);
    assert!(rights.has(CastlingRights::WK));
    assert!(rights.has(CastlingRights::WQ));
    assert!(rights.has(CastlingRights::BK));
    assert!(rights.has(CastlingRights::BQ));
}

#[test]
fn test_castling_rights_none() {
    let rights = CastlingRights(0);
    assert!(!rights.has(CastlingRights::WK));
    assert!(!rights.has(CastlingRights::WQ));
    assert!(!rights.has(CastlingRights::BK));
    assert!(!rights.has(CastlingRights::BQ));
}

#[test]
fn test_castling_rights_remove() {
    let mut rights = CastlingRights(CastlingRights::ALL);
    rights.remove(CastlingRights::WK);
    assert!(!rights.has(CastlingRights::WK));
    assert!(rights.has(CastlingRights::WQ));
    assert!(rights.has(CastlingRights::BK));
    assert!(rights.has(CastlingRights::BQ));
}
