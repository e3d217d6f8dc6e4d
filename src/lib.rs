//! A falling-block puzzle engine: board, piece geometry, line clears, and an
//! automated player that searches for the best placement of the falling piece.
pub mod constants;
pub mod moves;
pub mod shapes;
pub mod grid;
pub mod ai;
pub mod events;
pub mod score;
pub mod game;
