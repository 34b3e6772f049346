//! A chess engine core: bitboard positions, move generation, make/unmake with
//! incremental hashing, evaluation and an alpha-beta search.
pub mod bits;
pub mod geometry;
pub mod bitboard;
pub mod moves;
pub mod zobrist;
pub mod movelist;
pub mod game;
pub mod movegen;
pub mod legal;
pub mod notation;
pub mod fen;
pub mod tt;
pub mod setsum;
pub mod eval;
pub mod search;
pub mod laws;
pub mod perft_count;

pub use bitboard::{Bitboard, Piece};
pub use game::Game;
pub use movelist::MoveList;
