//! Tokens of the query language and the byte spans they cover.
use vstd::prelude::*;

use crate::text::{push_signed_decimal, push_zero_padded, signed_decimal, zero_padded};

verus! {

/// A range of byte offsets into the source text, `start` inclusive and `end`
/// exclusive.
#[derive(Debug, Clone, Copy, PartialEq, Eq, Hash, Structural)]
pub struct Span {
    pub start: usize,
    pub end: usize,
}

impl Span {
    pub fn new(start: usize, end: usize) -> (r: Span)
        ensures
            r == (Span { start, end }),
    {
        Span { start, end }
    }

    /// The smallest span that starts where the earlier of the two starts and
    /// ends where the later of the two ends.
    pub fn merge(self, other: Span) -> (r: Span)
        ensures
            r == merged(self, other),
    {
        Span {
            start: if self.start <= other.start {
                self.start
            } else {
                other.start
            },
            end: if self.end >= other.end {
                self.end
            } else {
                other.end
            },
        }
    }
}

/// The span that `Span::merge` gives.
pub open spec fn merged(a: Span, b: Span) -> Span {
    Span {
        start: if a.start <= b.start {
            a.start
        } else {
            b.start
        },
        end: if a.end >= b.end {
            a.end
        } else {
            b.end
        },
    }
}

/// Merging spans is commutative, associative and idempotent, and the merged
/// span covers both spans.
pub proof fn lemma_merge_laws(a: Span, b: Span, c: Span)
    ensures
        merged(a, b) == merged(b, a),
        merged(merged(a, b), c) == merged(a, merged(b, c)),
        merged(a, a) == a,
        merged(a, b).start <= a.start && merged(a, b).start <= b.start,
        merged(a, b).end >= a.end && merged(a, b).end >= b.end,
        merged(a, b).start == a.start || merged(a, b).start == b.start,
        merged(a, b).end == a.end || merged(a, b).end == b.end,
{
}

/// A token: what was read, and where.
#[derive(Debug, Clone, PartialEq)]
pub struct Token {
    pub kind: TokenKind,
    pub span: Span,
}

impl Token {
    pub fn new(kind: TokenKind, span: Span) -> (r: Token)
        ensures
            r.kind == kind,
            r.span == span,
    {
        Token { kind, span }
    }
}

/// The kinds of token.
///
/// `Float` holds the literal as written, with its digit separators (`_`)
/// removed: a decimal floating-point number in the syntax that std's
/// `f64::from_str` accepts, which gives its value.
#[derive(Debug, Clone, PartialEq)]
pub enum TokenKind {
    // keywords
    Let,
    Table,
    If,
    Else,
    True,
    False,
    // identifiers and literals
    Ident(String),
    Int(i64),
    Float(String),
    Str(String),
    Instant(i64, u32),
    Duration(i64, u32),
    Now,
    Today,
    TodayAt(u32, u32, u32, u32),
    // arithmetic and concatenation
    Plus,
    Minus,
    Star,
    Slash,
    Percent,
    PlusPlus,
    // comparison
    EqEq,
    BangEq,
    LAngleEq,
    RAngleEq,
    // logical
    Bang,
    AmpAmp,
    PipePipe,
    // range
    DotDot,
    DotDotEq,
    // pipeline and access
    PipeR,
    Dot,
    Colon,
    ColonColon,
    At,
    Question,
    // assignment
    Eq,
    // delimiters and separators
    LParen,
    RParen,
    LBracket,
    RBracket,
    LBrace,
    RBrace,
    LAngle,
    RAngle,
    Semicolon,
    Comma,
    // end of input
    Eof,
}

/// A token kind with its text as a sequence of characters.
pub enum Kind {
    Let,
    Table,
    If,
    Else,
    True,
    False,
    Ident(Seq<char>),
    Int(i64),
    Float(Seq<char>),
    Str(Seq<char>),
    Instant(i64, u32),
    Duration(i64, u32),
    Now,
    Today,
    TodayAt(u32, u32, u32, u32),
    Plus,
    Minus,
    Star,
    Slash,
    Percent,
    PlusPlus,
    EqEq,
    BangEq,
    LAngleEq,
    RAngleEq,
    Bang,
    AmpAmp,
    PipePipe,
    DotDot,
    DotDotEq,
    PipeR,
    Dot,
    Colon,
    ColonColon,
    At,
    Question,
    Eq,
    LParen,
    RParen,
    LBracket,
    RBracket,
    LBrace,
    RBrace,
    LAngle,
    RAngle,
    Semicolon,
    Comma,
    Eof,
}

impl View for TokenKind {
    type V = Kind;

    open spec fn view(&self) -> Kind {
        match self {
            TokenKind::Let => Kind::Let,
            TokenKind::Table => Kind::Table,
            TokenKind::If => Kind::If,
            TokenKind::Else => Kind::Else,
            TokenKind::True => Kind::True,
            TokenKind::False => Kind::False,
            TokenKind::Ident(s) => Kind::Ident(s@),
            TokenKind::Int(n) => Kind::Int(*n),
            TokenKind::Float(s) => Kind::Float(s@),
            TokenKind::Str(s) => Kind::Str(s@),
            TokenKind::Instant(a, b) => Kind::Instant(*a, *b),
            TokenKind::Duration(a, b) => Kind::Duration(*a, *b),
            TokenKind::Now => Kind::Now,
            TokenKind::Today => Kind::Today,
            TokenKind::TodayAt(h, m, s, n) => Kind::TodayAt(*h, *m, *s, *n),
            TokenKind::Plus => Kind::Plus,
            TokenKind::Minus => Kind::Minus,
            TokenKind::Star => Kind::Star,
            TokenKind::Slash => Kind::Slash,
            TokenKind::Percent => Kind::Percent,
            TokenKind::PlusPlus => Kind::PlusPlus,
            TokenKind::EqEq => Kind::EqEq,
            TokenKind::BangEq => Kind::BangEq,
            TokenKind::LAngleEq => Kind::LAngleEq,
            TokenKind::RAngleEq => Kind::RAngleEq,
            TokenKind::Bang => Kind::Bang,
            TokenKind::AmpAmp => Kind::AmpAmp,
            TokenKind::PipePipe => Kind::PipePipe,
            TokenKind::DotDot => Kind::DotDot,
            TokenKind::DotDotEq => Kind::DotDotEq,
            TokenKind::PipeR => Kind::PipeR,
            TokenKind::Dot => Kind::Dot,
            TokenKind::Colon => Kind::Colon,
            TokenKind::ColonColon => Kind::ColonColon,
            TokenKind::At => Kind::At,
            TokenKind::Question => Kind::Question,
            TokenKind::Eq => Kind::Eq,
            TokenKind::LParen => Kind::LParen,
            TokenKind::RParen => Kind::RParen,
            TokenKind::LBracket => Kind::LBracket,
            TokenKind::RBracket => Kind::RBracket,
            TokenKind::LBrace => Kind::LBrace,
            TokenKind::RBrace => Kind::RBrace,
            TokenKind::LAngle => Kind::LAngle,
            TokenKind::RAngle => Kind::RAngle,
            TokenKind::Semicolon => Kind::Semicolon,
            TokenKind::Comma => Kind::Comma,
            TokenKind::Eof => Kind::Eof,
        }
    }
}

/// How a token kind is written out: keywords, operators and delimiters as
/// they are spelled (`Eof` as `<eof>`), an identifier as itself, an integer
/// in decimal, a string between double quotes as read (escapes resolved), an
/// instant as `@unix_SECS.NNNNNNNNN`, a duration as `#SECS.NNNNNNNNNs`, and a
/// time of day as `@today_HH:MM:SS`, with `.NNNNNNNNN` after it when it has
/// nanoseconds. A float is written as its literal without digit separators;
/// printing its value is left to the caller.
pub open spec fn kind_text(k: Kind) -> Seq<char> {
    match k {
        Kind::Let => "let"@,
        Kind::Table => "table"@,
        Kind::If => "if"@,
        Kind::Else => "else"@,
        Kind::True => "true"@,
        Kind::False => "false"@,
        Kind::Now => "@now"@,
        Kind::Today => "@today"@,
        Kind::Plus => "+"@,
        Kind::Minus => "-"@,
        Kind::Star => "*"@,
        Kind::Slash => "/"@,
        Kind::Percent => "%"@,
        Kind::PlusPlus => "++"@,
        Kind::EqEq => "=="@,
        Kind::BangEq => "!="@,
        Kind::LAngleEq => "<="@,
        Kind::RAngleEq => ">="@,
        Kind::Bang => "!"@,
        Kind::AmpAmp => "&&"@,
        Kind::PipePipe => "||"@,
        Kind::DotDot => ".."@,
        Kind::DotDotEq => "..="@,
        Kind::PipeR => "|>"@,
        Kind::Dot => "."@,
        Kind::Colon => ":"@,
        Kind::ColonColon => "::"@,
        Kind::At => "@"@,
        Kind::Question => "?"@,
        Kind::Eq => "="@,
        Kind::LParen => "("@,
        Kind::RParen => ")"@,
        Kind::LBracket => "["@,
        Kind::RBracket => "]"@,
        Kind::LBrace => "{"@,
        Kind::RBrace => "}"@,
        Kind::LAngle => "<"@,
        Kind::RAngle => ">"@,
        Kind::Semicolon => ";"@,
        Kind::Comma => ","@,
        Kind::Eof => "<eof>"@,
        Kind::Ident(s) => s,
        Kind::Int(n) => signed_decimal(n as int),
        Kind::Float(s) => s,
        Kind::Str(s) => "\""@ + s + "\""@,
        Kind::Instant(secs, nanos) => "@unix_"@ + signed_decimal(secs as int) + "."@ + zero_padded(
            nanos as nat,
            9,
        ),
        Kind::Duration(secs, nanos) => "#"@ + signed_decimal(secs as int) + "."@ + zero_padded(
            nanos as nat,
            9,
        ) + "s"@,
        Kind::TodayAt(h, m, s, n) => {
            let hms = "@today_"@ + zero_padded(h as nat, 2) + ":"@ + zero_padded(m as nat, 2)
                + ":"@ + zero_padded(s as nat, 2);
            if n == 0 {
                hms
            } else {
                hms + "."@ + zero_padded(n as nat, 9)
            }
        },
    }
}

impl TokenKind {
    /// The text of this kind, as `kind_text` says.
    pub fn display(&self) -> (r: String)
        ensures
            r@ == kind_text(self@),
    {
        match self {
            TokenKind::Let => String::from_str("let"),
            TokenKind::Table => String::from_str("table"),
            TokenKind::If => String::from_str("if"),
            TokenKind::Else => String::from_str("else"),
            TokenKind::True => String::from_str("true"),
            TokenKind::False => String::from_str("false"),
            TokenKind::Now => String::from_str("@now"),
            TokenKind::Today => String::from_str("@today"),
            TokenKind::Plus => String::from_str("+"),
            TokenKind::Minus => String::from_str("-"),
            TokenKind::Star => String::from_str("*"),
            TokenKind::Slash => String::from_str("/"),
            TokenKind::Percent => String::from_str("%"),
            TokenKind::PlusPlus => String::from_str("++"),
            TokenKind::EqEq => String::from_str("=="),
            TokenKind::BangEq => String::from_str("!="),
            TokenKind::LAngleEq => String::from_str("<="),
            TokenKind::RAngleEq => String::from_str(">="),
            TokenKind::Bang => String::from_str("!"),
            TokenKind::AmpAmp => String::from_str("&&"),
            TokenKind::PipePipe => String::from_str("||"),
            TokenKind::DotDot => String::from_str(".."),
            TokenKind::DotDotEq => String::from_str("..="),
            TokenKind::PipeR => String::from_str("|>"),
            TokenKind::Dot => String::from_str("."),
            TokenKind::Colon => String::from_str(":"),
            TokenKind::ColonColon => String::from_str("::"),
            TokenKind::At => String::from_str("@"),
            TokenKind::Question => String::from_str("?"),
            TokenKind::Eq => String::from_str("="),
            TokenKind::LParen => String::from_str("("),
            TokenKind::RParen => String::from_str(")"),
            TokenKind::LBracket => String::from_str("["),
            TokenKind::RBracket => String::from_str("]"),
            TokenKind::LBrace => String::from_str("{"),
            TokenKind::RBrace => String::from_str("}"),
            TokenKind::LAngle => String::from_str("<"),
            TokenKind::RAngle => String::from_str(">"),
            TokenKind::Semicolon => String::from_str(";"),
            TokenKind::Comma => String::from_str(","),
            TokenKind::Eof => String::from_str("<eof>"),
            TokenKind::Ident(s) => s.clone(),
            TokenKind::Int(n) => {
                let mut r = String::new();
                push_signed_decimal(&mut r, *n);
                r
            },
            TokenKind::Float(s) => s.clone(),
            TokenKind::Str(s) => {
                let mut r = String::from_str("\"");
                r.append(s.as_str());
                r.append("\"");
                r
            },
            TokenKind::Instant(secs, nanos) => {
                let mut r = String::from_str("@unix_");
                push_signed_decimal(&mut r, *secs);
                r.append(".");
                push_zero_padded(&mut r, *nanos, 9);
                r
            },
            TokenKind::Duration(secs, nanos) => {
                let mut r = String::from_str("#");
                push_signed_decimal(&mut r, *secs);
                r.append(".");
                push_zero_padded(&mut r, *nanos, 9);
                r.append("s");
                r
            },
            TokenKind::TodayAt(h, m, s, n) => {
                let mut r = String::from_str("@today_");
                push_zero_padded(&mut r, *h, 2);
                r.append(":");
                push_zero_padded(&mut r, *m, 2);
                r.append(":");
                push_zero_padded(&mut r, *s, 2);
                if *n != 0 {
                    r.append(".");
                    push_zero_padded(&mut r, *n, 9);
                }
                r
            },
        }
    }
}

/// A token with its text as a sequence of characters.
pub struct TokenView {
    pub kind: Kind,
    pub span: Span,
}

impl View for Token {
    type V = TokenView;

    open spec fn view(&self) -> TokenView {
        TokenView { kind: self.kind@, span: self.span }
    }
}

} // verus!
