//! A verified chess opening-book builder: a position engine (board state,
//! pseudo-legal move generation, make/undo with exact reversibility, and a
//! scan-based position hash), the packed move model, and the aggregation
//! and binary serialization of per-(position, move) statistics.

pub mod attack;
pub mod board;
pub mod book;
pub mod color;
pub mod fen;
pub mod makemove;
pub mod movegen;
pub mod moves;
pub mod perft;
pub mod piece;
pub mod san;
pub mod square;
mod text;
pub mod util;
pub mod zobrist;
