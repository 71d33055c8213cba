//! Core logic of a hangman game.
//!
//! The library models the three pieces of the game that are pure logic:
//! an alphabet layout mapping (row, column) cells to characters, a guess
//! tracker holding one "still available" flag per cell, and the derivation
//! of the masked display word, the wrong-guess count and the figure draw
//! state from them.  Rendering and input polling are left to the caller.

pub mod chars;
pub mod figure;
pub mod game;
pub mod layout;
pub mod tracker;
