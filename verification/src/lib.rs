//! A Wordle-style guessing game core: fixed five-letter words, a
//! duplicate-aware guess evaluator, and a vocabulary keyed by word
//! identity hashes.

pub mod dict;
pub mod word;
