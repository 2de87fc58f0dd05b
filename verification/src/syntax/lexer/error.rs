//! What can go wrong while the parser's lexer reads a token.
use vstd::prelude::*;

use crate::syntax::error::Span;

verus! {

/// A lexical error and the span of text it concerns.
#[derive(Debug, Clone, PartialEq)]
pub struct LexicalError {
    pub kind: LexicalErrorKind,
    pub span: Span,
}

#[derive(Debug, Clone, PartialEq)]
pub enum LexicalErrorKind {
    UnknownCharacter(char),
    IncompleteToken(&'static str),
    UnclosedComment,
    UnclosedStringLit,
    InvalidEscapeSequence,
    IntegerOverflow,
    HexadecimalFloat,
    OctalFloat,
    BinaryFloat,
    IncompleteFloatExponent,
    InternalError(&'static str),
}

} // verus!
