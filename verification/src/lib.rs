//! Study-flashcard core for a fixed cranial-nerve reference table.
//!
//! The library has two halves: a loader that turns delimited tabular text
//! into normalized records, and three round builders that turn a list of
//! records into quiz presentations (multiple choice, plain shuffle, and a
//! shuffle filtered to records with a swallowing role).

pub mod text;
pub mod model;
pub mod normalize;
pub mod loader;
pub mod rounds;
