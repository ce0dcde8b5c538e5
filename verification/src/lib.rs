//! The engine of a sliding-tile game on a grid of four rows and four columns:
//! a move slides the tiles to one edge and merges equal neighbours once, a
//! spawn puts a new tile into an empty cell, and the game is over when the
//! grid is full and no move changes it.

pub mod board;
pub mod direction;
pub mod game;
pub mod grid;
pub mod input;
pub mod laws;
pub mod layout;
pub mod line;
pub mod marked;
pub mod marks;
pub mod place;
pub mod range;
pub mod resolver;
pub mod settling;
pub mod spawn;
pub mod stack;
pub mod step;
pub mod sweep;

pub use board::GRID_SIZE;
pub use direction::Direction;
pub use game::make_moves;
pub use grid::Grid;
pub use place::v2;
pub use range::BetterRange;
pub use spawn::SpawnPolicy;
pub use stack::Stack;
