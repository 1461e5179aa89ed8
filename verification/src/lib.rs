//! A single-player Battleship game engine: random fleet placement on a
//! rectangular grid, shot resolution with hit/miss/sunk tracking, and win
//! detection. The graphical shell around it lives outside the library.

pub mod fleet;
pub mod game;
pub mod grid;
pub mod laws;
pub mod place;
mod rng;
pub mod text;

pub use fleet::Ship;
pub use game::BattleshipGame;
pub use game::GameStats;
pub use game::PlacementError;
pub use grid::Cell;
pub use grid::Shot;
