//! Minesweeper for the terminal: the board, the laying of the bombs, the opening of squares,
//! the flags, and what a key or a click does to a game. The rules are verified; the few calls
//! into other crates are stated, without proof, in `fifo`, `paint` and `rng`. What draws on
//! the screen and waits for the keyboard is left to the program around the library.

pub mod around;
pub mod board;
pub mod config;
pub mod draw;
pub mod event;
pub mod fifo;
pub mod fill;
pub mod layout;
pub mod map;
pub mod paint;
pub mod rng;
pub mod theorems;
