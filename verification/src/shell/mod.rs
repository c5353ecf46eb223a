//! The upsilon shell command language: lexing, argument declarations,
//! command parsing, repository URLs and line completion.

pub mod span;
pub mod lexer;
pub mod error;
pub mod args;
pub mod parser;
pub mod command;
pub mod url;
pub mod complete;
pub mod cli;
pub mod laws;
