//! What holds of every parse and of every expansion.

pub mod collect;
pub mod failure;
pub mod occurrence;
pub mod output;
pub mod parsing;
