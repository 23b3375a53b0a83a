//! Core of a bitboard chess engine: position representation, a fully legal
//! move generator, and a fixed-depth negamax search with alpha-beta pruning.
//!
//! The board state is kept in three redundant forms — per-type piece
//! bitboards, per-color occupancy bitboards, and a 64-entry mailbox — whose
//! consistency is the invariant `board::pos_wf`: each occupancy is the union
//! of its six piece bitboards, the two occupancies are disjoint, and the
//! mailbox holds a piece on a square exactly when its bitboard has that bit.
//!
//! The central laws, stated and proved in `board`:
//! - `Board::new` yields a well-formed position, and `lemma_make_preserves_wf`
//!   with `lemma_make_seq_preserves_wf` keeps every position reachable by
//!   fitting moves well-formed;
//! - `lemma_unmake_inverts_make` and `lemma_unmake_seq_inverts_make_seq` are
//!   the make/unmake round trip: unmaking a sequence of fitting moves in
//!   reverse order restores the starting position exactly.
//!
//! `make_move`, `unmake_move` and `generate_legal_moves` carry exact
//! functional contracts: each result is pinned to a spec-level transition or
//! mirror of the same computation.

pub mod bitboard;
pub mod board;
pub mod chess_move;
pub mod engine;
pub mod gamestate;
pub mod move_generation;
pub mod move_list;
pub mod piece;
pub mod tables;

pub use board::Board;
pub use chess_move::Move;
pub use gamestate::Gamestate;
pub use move_list::{MoveList, MoveListIter};
pub use piece::{Piece, PieceColor, PieceType};
