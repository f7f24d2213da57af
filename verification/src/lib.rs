//! Rules of a falling-block puzzle game: the piece library, the playing
//! board with its collision, locking and line-clearing rules, the scoring,
//! and the decisions each frame of play makes.

pub mod shapes;

pub mod board;
pub mod game;
pub mod laws;
