use chess_engine::board::Position;
use chess_engine::tablebase::{to_shakmaty, SyzygyTablebase};

#[test]
fn test_to_shakmaty_startpos() {
    let pos = Position::startpos();
    let chess = to_shakmaty(&pos);
    assert!(chess.is_some(), "startpos should convert to shakmaty::Chess");
}

#[test]
fn test_to_shakmaty_kk_endgame() {
    let pos = Position::from_fen("4k3/8/8/8/8/8/8/4K3 w - - 0 1").unwrap();
    assert!(to_shakmaty(&pos).is_some());
}

#[test]
fn test_probe_wdl_too_many_pieces_returns_none() {
    // No tables are loaded, so a probe finds nothing, whatever the piece count.
    let tb = SyzygyTablebase::empty();
    let pos = Position::startpos(); // 32 pieces
    assert!(tb.probe_wdl(&pos).is_none());
}

#[test]
fn test_syzygy_new_missing_path_returns_error() {
    let result = SyzygyTablebase::new("/nonexistent/tablebase/path");
    assert!(result.is_err(), "should return error for non-existent directory");
}

#[test]
fn test_probe_dtz_returns_none_when_no_tables() {
    let tb = SyzygyTablebase::empty();
    let pos = Position::from_fen("4k3/8/8/8/8/8/8/4K3 w - - 0 1").unwrap();
    assert!(tb.probe_dtz(&pos).is_none());
}
