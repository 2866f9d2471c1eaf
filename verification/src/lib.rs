//! A Minesweeper engine: grid geometry, the board and its invariant, board
//! generation, the flood-fill reveal and the game controller.

pub mod board;
pub mod cell;
pub mod flood;
pub mod game;
pub mod generator;
pub mod geometry;

