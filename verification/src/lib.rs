//! A sliding-tile puzzle on a four-by-four grid: the board, its symmetries,
//! the four swipes, tile spawning and the end-of-game queries.

pub mod board;
pub mod bounds;
pub mod geometry;
pub mod input;
pub mod laws;
pub mod legal;
pub mod line;
pub mod render;
pub mod settle;
pub mod spawn;
pub mod status;
pub mod swipe;
pub mod turn;
