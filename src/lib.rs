//! A snake game engine: the board, the snake's moves, growth, deaths and food placement,
//! driven by ticks and key presses and reporting what changed as notices for a host to show.

pub mod board;
pub mod model;
pub mod game;
pub mod laws;

pub use board::{CellKind, Direction, Pos};
pub use game::Game;
pub use model::{GameError, Notice};
