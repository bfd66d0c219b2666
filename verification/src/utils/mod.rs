//! Text handling shared by the shell's parts.

pub mod parser;
pub mod text;
