pub mod types;
pub mod uci;
pub mod bitboard;
pub mod board;
pub mod book;
pub mod movegen;
pub mod eval;
pub mod search;
pub mod tablebase;
pub mod time;
