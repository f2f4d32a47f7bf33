//! A chess rules engine: board representation, legal-move generation under
//! full chess law (check, castling, en passant, promotion), check and
//! checkmate detection, algebraic notation, FEN parsing, and a branching
//! history tree of played moves with undo, redo and variation switching.

pub mod pieces;
pub mod moves;
pub mod board;
pub mod fen;
mod text;
pub mod tree;
pub mod game;
pub mod parse;
