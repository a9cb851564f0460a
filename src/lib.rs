//! A Sudoku engine: the 9x9 board and its rules, a solver that decides
//! whether a puzzle has exactly one solution, per-cell candidate notes, and
//! the state of a game in play (placing digits, mistakes, hints).

pub mod game;
pub mod grid;
pub mod notes;
pub mod persistence;
pub mod play;
pub mod solver;
