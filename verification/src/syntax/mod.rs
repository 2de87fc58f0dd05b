//! The parser front end: its own lexer, a parser skeleton, and their errors.
pub mod error;
pub mod lexer;
pub mod parser;
pub mod basic_lexer;
