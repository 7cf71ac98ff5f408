//! A verified game engine for two-player 3x3 tic-tac-toe.
//!
//! The engine searches the full game tree from a given position with minimax
//! (plus an alpha-beta variant) over a compact bitboard evaluation, and
//! re-roots the tree as moves are committed instead of rebuilding it.

pub mod game;
pub mod node;
pub mod tree;
