//! Tokens read by the parser's lexer.
use vstd::prelude::*;

use crate::syntax::error::Span;

verus! {

/// A token: what was read, and where.
#[derive(Debug, Clone, PartialEq)]
pub struct Token {
    pub kind: TokenKind,
    pub span: Span,
}

impl Token {
    /// Whether this is the token at the end of the text.
    pub fn is_eof(&self) -> (r: bool)
        ensures
            r == (self.kind@ is Eof),
    {
        match self.kind {
            TokenKind::Eof => true,
            _ => false,
        }
    }
}

/// The kinds of token. `Ident` and `StringLit` hold the text as written
/// (escapes in strings are kept as they are); `FloatLit` holds the literal as
/// written, a decimal floating-point number in the syntax that std's
/// `f64::from_str` accepts.
#[derive(Debug, Clone, PartialEq)]
pub enum TokenKind {
    // end of input
    Eof,
    // identifier
    Ident(String),
    // literals
    IntLit(i64),
    FloatLit(String),
    StringLit(String),
    // punctuation
    Semicolon,
    Colon,
    DoubleColon,
    Comma,
    Dot,
    TripleDot,
    // delimiters
    LParen,
    RParen,
    LBracket,
    RBracket,
    LBrace,
    RBrace,
    // operators
    Plus,
    Minus,
    Star,
    Slash,
    Percent,
    Bang,
    LogicalOr,
    LogicalAnd,
    Pipeline,
    // comparisons
    Equal,
    NotEqual,
    Greater,
    GreaterEqual,
    Less,
    LessEqual,
    Assign,
    // keywords
    If,
    Let,
    Store,
    Drop,
    Create,
    SetKeyword,
    Migrate,
}

/// A token kind with its text as a sequence of characters.
pub enum Tok {
    // end of input
    Eof,
    // identifier
    Ident(Seq<char>),
    // literals
    IntLit(i64),
    FloatLit(Seq<char>),
    StringLit(Seq<char>),
    // punctuation
    Semicolon,
    Colon,
    DoubleColon,
    Comma,
    Dot,
    TripleDot,
    // delimiters
    LParen,
    RParen,
    LBracket,
    RBracket,
    LBrace,
    RBrace,
    // operators
    Plus,
    Minus,
    Star,
    Slash,
    Percent,
    Bang,
    LogicalOr,
    LogicalAnd,
    Pipeline,
    // comparisons
    Equal,
    NotEqual,
    Greater,
    GreaterEqual,
    Less,
    LessEqual,
    Assign,
    // keywords
    If,
    Let,
    Store,
    Drop,
    Create,
    SetKeyword,
    Migrate,
}

impl View for TokenKind {
    type V = Tok;

    open spec fn view(&self) -> Tok {
        match self {
            TokenKind::Eof => Tok::Eof,
            TokenKind::Ident(s) => Tok::Ident(s@),
            TokenKind::IntLit(n) => Tok::IntLit(*n),
            TokenKind::FloatLit(s) => Tok::FloatLit(s@),
            TokenKind::StringLit(s) => Tok::StringLit(s@),
            TokenKind::Semicolon => Tok::Semicolon,
            TokenKind::Colon => Tok::Colon,
            TokenKind::DoubleColon => Tok::DoubleColon,
            TokenKind::Comma => Tok::Comma,
            TokenKind::Dot => Tok::Dot,
            TokenKind::TripleDot => Tok::TripleDot,
            TokenKind::LParen => Tok::LParen,
            TokenKind::RParen => Tok::RParen,
            TokenKind::LBracket => Tok::LBracket,
            TokenKind::RBracket => Tok::RBracket,
            TokenKind::LBrace => Tok::LBrace,
            TokenKind::RBrace => Tok::RBrace,
            TokenKind::Plus => Tok::Plus,
            TokenKind::Minus => Tok::Minus,
            TokenKind::Star => Tok::Star,
            TokenKind::Slash => Tok::Slash,
            TokenKind::Percent => Tok::Percent,
            TokenKind::Bang => Tok::Bang,
            TokenKind::LogicalOr => Tok::LogicalOr,
            TokenKind::LogicalAnd => Tok::LogicalAnd,
            TokenKind::Pipeline => Tok::Pipeline,
            TokenKind::Equal => Tok::Equal,
            TokenKind::NotEqual => Tok::NotEqual,
            TokenKind::Greater => Tok::Greater,
            TokenKind::GreaterEqual => Tok::GreaterEqual,
            TokenKind::Less => Tok::Less,
            TokenKind::LessEqual => Tok::LessEqual,
            TokenKind::Assign => Tok::Assign,
            TokenKind::If => Tok::If,
            TokenKind::Let => Tok::Let,
            TokenKind::Store => Tok::Store,
            TokenKind::Drop => Tok::Drop,
            TokenKind::Create => Tok::Create,
            TokenKind::SetKeyword => Tok::SetKeyword,
            TokenKind::Migrate => Tok::Migrate,
        }
    }
}

/// A token with its text as a sequence of characters.
pub struct TokView {
    pub kind: Tok,
    pub span: Span,
}

impl View for Token {
    type V = TokView;

    open spec fn view(&self) -> TokView {
        TokView { kind: self.kind@, span: self.span }
    }
}

} // verus!
