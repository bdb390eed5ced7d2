//! The rules of a spelling-bee word puzzle: which words a set of letters admits, what a play of
//! a word yields, and what it scores.

pub mod game;
pub mod laws;
pub mod letters;
pub mod lexicon;
pub mod rules;
pub mod text;
pub mod totals;
pub mod wordset;

pub use game::SpellingBeeGame;
pub use rules::{PlayResult, MIN_LENGTH, PANGRAM_BONUS};
