//! Conway's Game of Life on a finite, non-wrapping board.
//!
//! The grid, the loader of the textual initial-state format and the
//! generational rule engine are verified; their contracts are stated over
//! `Seq<Seq<bool>>` models of the board (row-major: `g[y][x]`).

pub mod error;
pub mod game;
pub mod grid;
pub mod loader;
pub mod rules;

pub use error::GameError;
pub use game::{GameOfLife, GameOfLifeSettings};
pub use grid::GameState;
pub use loader::GameStateBuilder;
