//! A two-player naval combat game: boards, ships, coordinates and the
//! turn-taking match, verified with Verus.

pub mod game;
pub mod grid;
pub mod player;
pub mod random;
pub mod ship;
pub mod text;
