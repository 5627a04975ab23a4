//! Core of a chess engine: a bitset-based board, fully legal move
//! generation (checks, pins, castling, en passant, promotion), FEN
//! import/export, and a prunable alpha-beta tree search with a
//! node-counting "divide" mode for perft validation.

pub mod bitboard;
pub mod board;
pub mod direction;
pub mod fen;
pub mod laws;
pub mod legal;
pub mod moves;
pub mod piece;
pub mod piecemoves;
pub mod search;
pub mod side;
pub mod square;
pub mod testing;

pub use bitboard::{BitBoard, BitBoardIter};
pub use board::{Board, CastleRights};
pub use direction::Direction;
pub use fen::ParseError;
pub use moves::{Move, StructuralError};
pub use piece::Piece;
pub use search::{alphabeta, AlphaBetaResult, MoveData, SearchSettings};
pub use side::Side;
pub use testing::{Monitor, TestCase, TestMove, TestPosition, TestSuite};
pub use square::{File, Rank, Square};
