//! The shell proper: completion, command execution and the loop's decisions.

pub mod commands;
pub mod completer;
pub mod session;

pub use crate::utils::parser::parse_input;
