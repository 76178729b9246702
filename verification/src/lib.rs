//! Board rules of Hidden Keep: wall placement on the 6x6 board, the
//! accessibility check that keeps every cell reachable, the hidden board
//! rotation, token dealing, and the per-turn movement rules.

pub mod config;
pub mod random;
pub mod wall;
pub mod slots;
pub mod board;
pub mod wall_placement;
pub mod colors;
pub mod player;
pub mod token;
pub mod game_data;
pub mod game_state;
