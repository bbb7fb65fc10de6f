//! An entropy-driven solver core for a five-letter word-guessing game.
//!
//! The crate holds the discrete part of the solver:
//!
//! - `feedback`: how a guess is marked against an answer, and how the marks
//!   are packed into a small integer;
//! - `cache`: the square table that remembers the packed pattern of each pair
//!   of dictionary words once it has been asked for;
//! - `context`: the slot in which an execution context keeps its table, built
//!   on first use;
//! - `dictionary`: words with their observed counts, by stable index;
//! - `candidates`: the words that may still be the answer, and what narrowing
//!   by an observed pattern keeps of them;
//! - `guesser`: the state of one game, the turn it takes on a given history,
//!   the search budget, and the bucket of every candidate for a scored guess.
//!
//! Weights, entropies and expected scores are floating-point numbers and are
//! computed by the caller from what the guesser hands out.
pub mod cache;
pub mod candidates;
pub mod context;
pub mod dictionary;
pub mod feedback;
pub mod guesser;
