//! Picks a short text ("fortune") from a corpus of files in which entries are
//! separated by a line holding a single `%`.
pub mod error;
pub mod random;
pub mod quotes;
pub mod fortune;
pub mod search;
