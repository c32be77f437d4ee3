//! A game of guessing the letters of a secret word, one letter at a time, before too many wrong
//! guesses are made.

pub mod game;
pub mod laws;
pub mod source;
pub mod text;

pub use game::{Game, GuessOutcome, BLANK, MAX_WRONG};
pub use source::pick_word;
pub use text::{parse_guess, split_words, vec_to_string};
