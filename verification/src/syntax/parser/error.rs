//! What can go wrong while parsing.
use vstd::prelude::*;

use crate::syntax::error::Span;
use crate::syntax::lexer::token::TokenKind;

verus! {

/// A syntax error and the span of text it concerns.
#[derive(Debug, Clone, PartialEq)]
pub struct SyntaxError {
    pub kind: SyntaxErrorKind,
    pub span: Span,
}

#[derive(Debug, Clone, PartialEq)]
pub enum SyntaxErrorKind {
    UnexpectedToken { found: TokenKind },
    ExpectedToken { expected: TokenKind, found: TokenKind },
    UnclosedDelimiter(char),
    InternalError(&'static str),
}

} // verus!
