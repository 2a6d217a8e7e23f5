//! Rule engine of a single-player grid-reveal puzzle (Minesweeper-style).
//!
//! The library owns the board model, mine placement, the cascading reveal
//! ("flood fill") algorithm, flag bookkeeping, and the win/loss/quit state
//! machine. Terminal setup, key capture and rendering are left to the
//! program built around it.

pub mod board;
pub mod game;
pub mod grid;
mod shuffle;
