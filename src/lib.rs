//! A terminal letter-guessing game: a secret word is drawn, the player
//! guesses one letter at a time, and the game ends when the word is fully
//! revealed or the attempts run out.
//!
//! The game's rules (word selection, key acceptance, guess evaluation, turn
//! updates and the text that the screen shows) are verified here; reading
//! keys, clearing the terminal and reading art files are left to the caller.

pub mod letters;
pub mod word;
pub mod game;
pub mod render;
