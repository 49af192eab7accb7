//! A verified Key-Word-In-Context (KWIC) index builder.
//!
//! Given a list of titles, the library extracts every significant
//! (non-stop-word) word, rotates each title circularly so that the word
//! stands in front, and sorts the rotations case-insensitively by their
//! rotated text.

pub mod text;
pub mod laws;
pub mod pipeline;
pub mod rotate;
pub mod sort;
pub mod tokenize;
pub mod words;
