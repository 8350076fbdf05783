use chess_engine::bitboard::Bitboard;
use chess_engine::types::Square;

#[test]
fn test_empty_and_full() {
    assert_eq!(Bitboard::empty(), Bitboard(0));
    assert_eq!(Bitboard::full(), Bitboard(!0u64));
    assert!(Bitboard::empty().is_empty());
    assert!(!Bitboard::full().is_empty());
}

#[test]
fn test_from_square() {
    assert_eq!(Bitboard::from_square(Square(0)), Bitboard(1));
    assert_eq!(Bitboard::from_square(Square(1)), Bitboard(2));
    assert_eq!(Bitboard::from_square(Square(63)), Bitboard(1u64 << 63));
}

#[test]
fn test_set_clear_is_set() {
    let mut bb = Bitboard::empty();
    assert!(!bb.is_set(Square(5)));
    bb.set(Square(5));
    assert!(bb.is_set(Square(5)));
    bb.clear(Square(5));
    assert!(!bb.is_set(Square(5)));
}

#[test]
fn test_count() {
    assert_eq!(Bitboard::empty().count(), 0);
    assert_eq!(Bitboard::full().count(), 64);
    assert_eq!(Bitboard::from_square(Square(0)).count(), 1);

    let mut bb = Bitboard::empty();
    bb.set(Square(0));
    bb.set(Square(7));
    bb.set(Square(63));
    assert_eq!(bb.count(), 3);
}

#[test]
fn test_lsb() {
    assert_eq!(Bitboard(0b1100).lsb(), Square(2));
    assert_eq!(Bitboard::from_square(Square(7)).lsb(), Square(7));
}

#[test]
fn test_pop_lsb() {
    let mut bb = Bitboard(0b1100);
    assert_eq!(bb.pop_lsb(), Square(2));
    assert_eq!(bb, Bitboard(0b1000));
    assert_eq!(bb.pop_lsb(), Square(3));
    assert!(bb.is_empty());
}

#[test]
fn test_bitwise_ops() {
    let a = Bitboard(0b1010);
    let b = Bitboard(0b1100);
    assert_eq!(a & b, Bitboard(0b1000));
    assert_eq!(a | b, Bitboard(0b1110));
    assert_eq!(a ^ b, Bitboard(0b0110));
    assert_eq!(!a, Bitboard(!0b1010u64));
}

#[test]
fn test_shifts() {
    let bb = Bitboard(1);
    assert_eq!(bb << 1, Bitboard(2));
    assert_eq!(bb << 8, Bitboard(256));

    let bb = Bitboard(256);
    assert_eq!(bb >> 8, Bitboard(1));
}

#[test]
fn test_iterator() {
    let mut bb = Bitboard::empty();
    bb.set(Square(0));
    bb.set(Square(5));
    bb.set(Square(63));

    let squares: Vec<Square> = bb.squares();
    assert_eq!(squares, vec![Square(0), Square(5), Square(63)]);
}

#[test]
fn test_file_constants() {
    let expected_a: u64 = (0..8u32).map(|r| 1u64 << (r * 8)).sum();
    assert_eq!(Bitboard::file_a(), Bitboard(expected_a));

    let expected_h: u64 = (0..8u32).map(|r| 1u64 << (r * 8 + 7)).sum();
    assert_eq!(Bitboard::file_h(), Bitboard(expected_h));
}

#[test]
fn test_rank_constants() {
    assert_eq!(Bitboard::rank_1(), Bitboard(0x00000000000000FF));
    assert_eq!(Bitboard::rank_8(), Bitboard(0xFF00000000000000));
}
