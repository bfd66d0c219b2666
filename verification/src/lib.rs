//! The decision logic of a small interactive shell: splitting a line into
//! words, indexing command names, proposing completions, and turning the
//! outcome of a child process into a result.

pub mod shell;
pub mod utils;
