//! Lexers for the FlowQL query language, and the spans, tokens and errors
//! they produce.
pub mod text;
pub mod lexer;
pub mod syntax;
