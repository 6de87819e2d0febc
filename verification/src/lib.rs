//! A bitboard chess engine library: board representation, move encoding,
//! move generation, static exchange evaluation, evaluation and search helpers.
pub mod bits;
pub mod bitboard;
pub mod defs;
pub mod text;
pub mod bitmove;
pub mod color;
pub mod attack;
pub mod zobrist;
pub mod position;
pub mod board;
pub mod check;
pub mod pretty;
pub mod fen;
pub mod movegen;
pub mod makemove;
pub mod movelist;
pub mod order;
pub mod perft;
pub mod heuristics;
pub mod see;
pub mod mvvlva;
pub mod utils;
pub mod params;
pub mod tables;
pub mod eval;
pub mod table;
pub mod search_info;
pub mod search;
pub mod laws;
