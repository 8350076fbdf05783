//! Syzygy endgame tablebases. No tables are loaded: opening always fails
//! and probes find nothing, so the search falls back to its own evaluation.

use vstd::prelude::*;

use crate::board::Position;
use crate::board::fen::fen_text;

verus! {

#[verifier::external_type_specification]
#[verifier::external_body]
pub struct ExIoError(std::io::Error);

#[verifier::external_type_specification]
#[verifier::external_body]
pub struct ExChess(shakmaty::Chess);

#[derive(Debug)]
pub enum TablebaseError {
    Io(std::io::Error),
    InvalidPosition,
}

#[derive(Debug, Clone, Copy, PartialEq, Eq, Structural)]
pub enum WdlResult {
    Win,
    Draw,
    Loss,
    CursedWin,
    BlessedLoss,
}

#[derive(Debug, Clone, Copy)]
pub struct DtzResult {
    pub wdl: WdlResult,
    pub dtz: i32,
}

/// A set of Syzygy tables (none are loaded).
pub struct SyzygyTablebase {
    loaded: bool,
}

/// The "not found" I/O error for a tablebase directory (std
/// `io::Error::new` with `ErrorKind::NotFound`).
#[verifier::external_body]
fn not_found_error() -> std::io::Error {
    std::io::Error::new(std::io::ErrorKind::NotFound, "tablebase not implemented")
}

impl SyzygyTablebase {
    /// Open the Syzygy tablebase directory `_path`: tables cannot be read,
    /// so this always fails with a not-found I/O error.
    pub fn new(_path: &str) -> (r: Result<SyzygyTablebase, TablebaseError>)
        ensures
            r matches Err(TablebaseError::Io(_)),
    {
        Err(TablebaseError::Io(not_found_error()))
    }

    /// Whether any table is loaded.
    pub closed spec fn has_tables(self) -> bool {
        self.loaded
    }

    /// A tablebase with no tables.
    pub fn empty() -> (t: SyzygyTablebase)
        ensures
            !t.has_tables(),
    {
        SyzygyTablebase { loaded: false }
    }

    /// Probe WDL: `None`, as no tables are loaded.
    pub fn probe_wdl(&self, _pos: &Position) -> (r: Option<WdlResult>)
        ensures
            r is None,
    {
        None
    }

    /// Probe DTZ: `None`, as no tables are loaded.
    pub fn probe_dtz(&self, _pos: &Position) -> (r: Option<DtzResult>)
        ensures
            r is None,
    {
        None
    }
}

/// Whether shakmaty accepts `fen` as a standard-chess position (its FEN
/// parser and its position validation both succeed).
pub uninterp spec fn shakmaty_accepts(fen: Seq<char>) -> bool;

/// The shakmaty position of a FEN text (`Fen::from_ascii`, then
/// `Fen::into_position` with standard castling); `None` when either step
/// fails.
#[verifier::external_body]
fn chess_from_fen(text: &str) -> (r: Option<shakmaty::Chess>)
    ensures
        r is Some <==> shakmaty_accepts(text@),
{
    let fen = shakmaty::fen::Fen::from_ascii(text.as_bytes()).ok()?;
    fen.into_position::<shakmaty::Chess>(shakmaty::CastlingMode::Standard).ok()
}

/// Convert our Position to a shakmaty::Chess via its FEN text.
pub fn to_shakmaty(pos: &Position) -> (r: Option<shakmaty::Chess>)
    requires
        pos.wf(),
    ensures
        r is Some <==> shakmaty_accepts(fen_text(*pos)),
{
    let fen_str = pos.to_fen();
    chess_from_fen(fen_str.as_str())
}

} // verus!
