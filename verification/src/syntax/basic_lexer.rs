//! A simpler lexer for the parser front end than the one of
//! `syntax::lexer`: no comments, no keywords, and strings, identifiers and
//! numbers read in a simple way.
//!
//! It reads ASCII white space between tokens. An identifier or a number
//! moves past all its characters, but its token holds and spans only the
//! first one (for a float, the text up to the first digit of its last part);
//! a `"` is read as an empty string literal on its own; two-character
//! operators `||`, `&&`, `|>`, `!=`, `==`, `>=`, `<=` and `::` move past their
//! first character only; and an unknown character is reported without being
//! read, so that the next read reports it again.
use vstd::prelude::*;

pub use crate::syntax::error::Span;
use crate::syntax::lexer::cursor::SourceReader;
use crate::lexer::scan::{
    in_class,
    class_contains, digit_value, is_ascii_alphabetic, is_ascii_digit, is_digit, lemma_scan, scan,
    CharClass,
};
use crate::text::{byte_offset, lemma_byte_offset_mono, string_from_chars};

verus! {

/// A token: what was read, and where.
#[derive(Debug, Clone, PartialEq)]
pub struct Token {
    pub kind: TokenKind,
    pub span: Span,
}

/// The kinds of token. `FloatLit` holds the text read as a float, a decimal
/// number in the syntax that std's `f64::from_str` accepts.
#[derive(Debug, Clone, PartialEq)]
pub enum TokenKind {
    // end of input
    Eof,
    // identifier
    Ident(String),
    // literals
    IntLit(i64),
    FloatLit(String),
    StringLit(String),
    // punctuation
    Semicolon,
    Colon,
    DoubleColon,
    Comma,
    Dot,
    TripleDot,
    // delimiters
    LParen,
    RParen,
    LBracket,
    RBracket,
    LBrace,
    RBrace,
    // operators
    Plus,
    Minus,
    Star,
    Slash,
    Percent,
    Bang,
    LogicalOr,
    LogicalAnd,
    Pipeline,
    // comparisons
    Equal,
    NotEqual,
    Greater,
    GreaterEqual,
    Less,
    LessEqual,
    Assign,
    // keywords
    If,
    Let,
    Store,
    Drop,
}

/// What can go wrong reading a token.
#[derive(Debug, Clone, Copy, PartialEq, Eq, Structural)]
pub enum LexerError {
    UnknownCharacter,
    IncompleteToken,
    UnclosedComment,
    UnclosedStringLit,
    MalformedFloat,
    InternalError,
}

impl TokenKind {
    /// Whether this is a keyword: `if`, `let`, `store` or `drop`.
    pub fn is_keyword(&self) -> (r: bool)
        ensures
            r == (self@ is If || self@ is Let || self@ is Store || self@ is Drop),
    {
        matches!(self, TokenKind::If | TokenKind::Let | TokenKind::Store | TokenKind::Drop)
    }

    /// Whether this is a literal: an integer, a float or a string.
    pub fn is_literal(&self) -> (r: bool)
        ensures
            r == (self@ is IntLit || self@ is FloatLit || self@ is StringLit),
    {
        matches!(self, TokenKind::IntLit(_) | TokenKind::FloatLit(_) | TokenKind::StringLit(_))
    }
}

/// A token kind with its text as a sequence of characters.
pub enum Kind {
    Eof,
    Ident(Seq<char>),
    IntLit(i64),
    FloatLit(Seq<char>),
    StringLit(Seq<char>),
    Semicolon,
    Colon,
    DoubleColon,
    Comma,
    Dot,
    TripleDot,
    LParen,
    RParen,
    LBracket,
    RBracket,
    LBrace,
    RBrace,
    Plus,
    Minus,
    Star,
    Slash,
    Percent,
    Bang,
    LogicalOr,
    LogicalAnd,
    Pipeline,
    Equal,
    NotEqual,
    Greater,
    GreaterEqual,
    Less,
    LessEqual,
    Assign,
    If,
    Let,
    Store,
    Drop,
}

impl View for TokenKind {
    type V = Kind;

    open spec fn view(&self) -> Kind {
        match self {
            TokenKind::Eof => Kind::Eof,
            TokenKind::Ident(s) => Kind::Ident(s@),
            TokenKind::IntLit(n) => Kind::IntLit(*n),
            TokenKind::FloatLit(s) => Kind::FloatLit(s@),
            TokenKind::StringLit(s) => Kind::StringLit(s@),
            TokenKind::Semicolon => Kind::Semicolon,
            TokenKind::Colon => Kind::Colon,
            TokenKind::DoubleColon => Kind::DoubleColon,
            TokenKind::Comma => Kind::Comma,
            TokenKind::Dot => Kind::Dot,
            TokenKind::TripleDot => Kind::TripleDot,
            TokenKind::LParen => Kind::LParen,
            TokenKind::RParen => Kind::RParen,
            TokenKind::LBracket => Kind::LBracket,
            TokenKind::RBracket => Kind::RBracket,
            TokenKind::LBrace => Kind::LBrace,
            TokenKind::RBrace => Kind::RBrace,
            TokenKind::Plus => Kind::Plus,
            TokenKind::Minus => Kind::Minus,
            TokenKind::Star => Kind::Star,
            TokenKind::Slash => Kind::Slash,
            TokenKind::Percent => Kind::Percent,
            TokenKind::Bang => Kind::Bang,
            TokenKind::LogicalOr => Kind::LogicalOr,
            TokenKind::LogicalAnd => Kind::LogicalAnd,
            TokenKind::Pipeline => Kind::Pipeline,
            TokenKind::Equal => Kind::Equal,
            TokenKind::NotEqual => Kind::NotEqual,
            TokenKind::Greater => Kind::Greater,
            TokenKind::GreaterEqual => Kind::GreaterEqual,
            TokenKind::Less => Kind::Less,
            TokenKind::LessEqual => Kind::LessEqual,
            TokenKind::Assign => Kind::Assign,
            TokenKind::If => Kind::If,
            TokenKind::Let => Kind::Let,
            TokenKind::Store => Kind::Store,
            TokenKind::Drop => Kind::Drop,
        }
    }
}

/// A token with its text as a sequence of characters.
pub struct TokenView {
    pub kind: Kind,
    pub span: Span,
}

impl View for Token {
    type V = TokenView;

    open spec fn view(&self) -> TokenView {
        TokenView { kind: self.kind@, span: self.span }
    }
}

/// A token or an error, and the index where reading goes on.
pub type Read = (Result<TokenView, LexerError>, int);

pub open spec fn at(s: Seq<char>, i: int, c: char) -> bool {
    0 <= i < s.len() && s[i] == c
}

pub open spec fn digit_at(s: Seq<char>, i: int) -> bool {
    0 <= i < s.len() && is_digit(s[i])
}

/// The byte span of the characters `s[a..b]`.
pub open spec fn span_of(s: Seq<char>, a: int, b: int) -> Span {
    Span { start: byte_offset(s, a) as usize, end: byte_offset(s, b) as usize }
}

pub open spec fn token(s: Seq<char>, a: int, b: int, next: int, k: Kind) -> Read {
    (Ok(TokenView { kind: k, span: span_of(s, a, b) }), next)
}

/// A token of the character at `j`, read alone.
pub open spec fn single(s: Seq<char>, j: int, k: Kind) -> Read {
    token(s, j, j + 1, j + 1, k)
}

/// A float whose text is `s[j..end]`, read up to `next`.
pub open spec fn float(s: Seq<char>, j: int, end: int, next: int) -> Read {
    token(s, j, end, next, Kind::FloatLit(s.subrange(j, end)))
}

/// The rest of a number that started at `j`, from `p` on: an exponent, if
/// one comes, else the end of a float (with a fraction, whose text so far
/// ends at `end`) or of an integer, which holds the value of its first digit.
pub open spec fn read_exponent(s: Seq<char>, j: int, end: int, p: int, has_fraction: bool) -> Read {
    if at(s, p, 'e') || at(s, p, 'E') {
        let q = if at(s, p + 1, '-') {
            p + 2
        } else {
            p + 1
        };
        if digit_at(s, q) {
            float(s, j, q + 1, scan(s, q, CharClass::Digit))
        } else {
            (Err(LexerError::MalformedFloat), q)
        }
    } else if has_fraction {
        float(s, j, end, p)
    } else {
        token(s, j, j + 1, p, Kind::IntLit(digit_value(s[j]) as i64))
    }
}

/// A number at `j`.
pub open spec fn read_number(s: Seq<char>, j: int) -> Read {
    let ie = scan(s, j, CharClass::Digit);
    if at(s, ie, '.') {
        if digit_at(s, ie + 1) {
            read_exponent(s, j, ie + 2, scan(s, ie + 1, CharClass::Digit), true)
        } else {
            (Err(LexerError::MalformedFloat), ie + 1)
        }
    } else {
        read_exponent(s, j, j + 1, ie, false)
    }
}

/// The token at `j`.
pub open spec fn read_here(s: Seq<char>, j: int) -> Read {
    let c = s[j];
    if c == '_' || is_ascii_alphabetic(c) {
        token(s, j, j + 1, scan(s, j, CharClass::AsciiWord), Kind::Ident(s.subrange(j, j + 1)))
    } else if is_digit(c) {
        read_number(s, j)
    } else if c == '"' {
        single(s, j, Kind::StringLit(Seq::empty()))
    } else if c == '+' {
        single(s, j, Kind::Plus)
    } else if c == '-' {
        single(s, j, Kind::Minus)
    } else if c == '*' {
        single(s, j, Kind::Star)
    } else if c == '/' {
        single(s, j, Kind::Slash)
    } else if c == '%' {
        single(s, j, Kind::Percent)
    } else if c == '|' && at(s, j + 1, '|') {
        single(s, j, Kind::LogicalOr)
    } else if c == '&' && at(s, j + 1, '&') {
        single(s, j, Kind::LogicalAnd)
    } else if c == '|' && at(s, j + 1, '>') {
        single(s, j, Kind::Pipeline)
    } else if c == '!' && at(s, j + 1, '=') {
        single(s, j, Kind::NotEqual)
    } else if c == '!' {
        single(s, j, Kind::Bang)
    } else if c == '=' && at(s, j + 1, '=') {
        single(s, j, Kind::Equal)
    } else if c == '=' {
        single(s, j, Kind::Assign)
    } else if c == '>' && at(s, j + 1, '=') {
        single(s, j, Kind::GreaterEqual)
    } else if c == '>' {
        single(s, j, Kind::Greater)
    } else if c == '<' && at(s, j + 1, '=') {
        single(s, j, Kind::LessEqual)
    } else if c == '<' {
        single(s, j, Kind::Less)
    } else if c == ';' {
        single(s, j, Kind::Semicolon)
    } else if c == ':' && at(s, j + 1, ':') {
        single(s, j, Kind::DoubleColon)
    } else if c == ':' {
        single(s, j, Kind::Colon)
    } else if c == ',' {
        single(s, j, Kind::Comma)
    } else if c == '.' && at(s, j + 1, '.') {
        if at(s, j + 2, '.') {
            token(s, j, j + 3, j + 3, Kind::TripleDot)
        } else {
            (Err(LexerError::IncompleteToken), j + 2)
        }
    } else if c == '.' {
        single(s, j, Kind::Dot)
    } else if c == '(' {
        single(s, j, Kind::LParen)
    } else if c == ')' {
        single(s, j, Kind::RParen)
    } else if c == '[' {
        single(s, j, Kind::LBracket)
    } else if c == ']' {
        single(s, j, Kind::RBracket)
    } else if c == '{' {
        single(s, j, Kind::LBrace)
    } else if c == '}' {
        single(s, j, Kind::RBrace)
    } else {
        (Err(LexerError::UnknownCharacter), j)
    }
}

/// What reading a token from index `i` gives: after ASCII white space, the
/// token or error there and the index after it; at the end of the text,
/// `Eof` with the span `0..0`.
pub open spec fn basic_read(s: Seq<char>, i: int) -> Read {
    let j = scan(s, i, CharClass::AsciiWhitespace);
    if j >= s.len() {
        (Ok(TokenView { kind: Kind::Eof, span: Span { start: 0, end: 0 } }), j)
    } else {
        read_here(s, j)
    }
}

/// Every read stays in the text and, past the white space before it, reads
/// at least one character, except at the end of the text (`Eof`) and at a
/// character it does not know, which it reports without reading.
pub proof fn lemma_basic_read_progress(s: Seq<char>, i: int)
    requires
        0 <= i <= s.len(),
    ensures
        ({
            let (r, next) = basic_read(s, i);
            let j = scan(s, i, CharClass::AsciiWhitespace);
            &&& i <= j <= next <= s.len()
            &&& (next == j) == (r == Err::<TokenView, LexerError>(LexerError::UnknownCharacter)
                || (r is Ok && r->Ok_0.kind is Eof))
        }),
{
    lemma_scan(s, i, CharClass::AsciiWhitespace);
    let j = scan(s, i, CharClass::AsciiWhitespace);
    if j < s.len() {
        let c = s[j];
        if c == '_' || is_ascii_alphabetic(c) {
            lemma_scan(s, j, CharClass::AsciiWord);
            assert(crate::lexer::scan::in_class(c, CharClass::AsciiWord));
        } else if is_digit(c) {
            lemma_scan(s, j, CharClass::Digit);
            assert(crate::lexer::scan::in_class(c, CharClass::Digit));
            let ie = scan(s, j, CharClass::Digit);
            if digit_at(s, ie + 1) {
                lemma_scan(s, ie + 1, CharClass::Digit);
            }
            let p = if at(s, ie, '.') && digit_at(s, ie + 1) {
                scan(s, ie + 1, CharClass::Digit)
            } else {
                ie
            };
            let q = if at(s, p + 1, '-') {
                p + 2
            } else {
                p + 1
            };
            if digit_at(s, q) {
                lemma_scan(s, q, CharClass::Digit);
            }
        }
    }
}

/// A read that reads nothing, at the end of the text or at a character the
/// lexer does not know, gives the same again on the next read.
pub proof fn lemma_basic_read_repeats(s: Seq<char>, i: int)
    requires
        0 <= i <= s.len(),
        basic_read(s, i).1 == scan(s, i, CharClass::AsciiWhitespace),
    ensures
        basic_read(s, basic_read(s, i).1) == basic_read(s, i),
{
    lemma_scan(s, i, CharClass::AsciiWhitespace);
    let j = scan(s, i, CharClass::AsciiWhitespace);
    lemma_scan(s, j, CharClass::AsciiWhitespace);
}

/// Every operator and punctuation mark reads as its token, wherever it
/// stands, and moves past its first character only: where ASCII white space
/// from `i` ends at `j` and the text from `j` on is the mark `w` (and not
/// the start of a longer one), the token is the one for `w`, over the
/// character at `j`, and reading goes on at `j + 1`.
#[verifier::spinoff_prover]
#[verifier::rlimit(50)]
pub proof fn lemma_basic_marks_read(s: Seq<char>, i: int, j: int, w: Seq<char>, k: Kind)
    requires
        0 <= i <= s.len(),
        scan(s, i, CharClass::AsciiWhitespace) == j,
        j + w.len() <= s.len(),
        w.len() > 0,
        s.subrange(j, j + w.len()) == w,
        (w == seq!['+'] && k == Kind::Plus) ||
            (w == seq!['-'] && k == Kind::Minus) ||
            (w == seq!['*'] && k == Kind::Star) ||
            (w == seq!['/'] && k == Kind::Slash) ||
            (w == seq!['%'] && k == Kind::Percent) ||
            (w == seq!['|', '|'] && k == Kind::LogicalOr) ||
            (w == seq!['&', '&'] && k == Kind::LogicalAnd) ||
            (w == seq!['|', '>'] && k == Kind::Pipeline) ||
            (w == seq!['!', '='] && k == Kind::NotEqual) ||
            (w == seq!['!'] && k == Kind::Bang && (j + 1 == s.len() || (s[j + 1] != '='))) ||
            (w == seq!['=', '='] && k == Kind::Equal) ||
            (w == seq!['='] && k == Kind::Assign && (j + 1 == s.len() || (s[j + 1] != '='))) ||
            (w == seq!['>', '='] && k == Kind::GreaterEqual) ||
            (w == seq!['>'] && k == Kind::Greater && (j + 1 == s.len() || (s[j + 1] != '='))) ||
            (w == seq!['<', '='] && k == Kind::LessEqual) ||
            (w == seq!['<'] && k == Kind::Less && (j + 1 == s.len() || (s[j + 1] != '='))) ||
            (w == seq![';'] && k == Kind::Semicolon) ||
            (w == seq![':', ':'] && k == Kind::DoubleColon) ||
            (w == seq![':'] && k == Kind::Colon && (j + 1 == s.len() || (s[j + 1] != ':'))) ||
            (w == seq![','] && k == Kind::Comma) ||
            (w == seq!['.'] && k == Kind::Dot && (j + 1 == s.len() || (s[j + 1] != '.'))) ||
            (w == seq!['('] && k == Kind::LParen) ||
            (w == seq![')'] && k == Kind::RParen) ||
            (w == seq!['['] && k == Kind::LBracket) ||
            (w == seq![']'] && k == Kind::RBracket) ||
            (w == seq!['{'] && k == Kind::LBrace) ||
            (w == seq!['}'] && k == Kind::RBrace),
    ensures
        basic_read(s, i) == (
            Ok::<TokenView, LexerError>(TokenView { kind: k, span: span_of(s, j, j + 1) }),
            j + 1,
        ),
{
    lemma_scan(s, i, CharClass::AsciiWhitespace);
    assert(s[j] == w[0]);
    if w.len() > 1 {
        assert(s[j + 1] == w[1]);
    }
}

/// `...` reads as one token over its three dots, wherever it stands.
pub proof fn lemma_basic_triple_dot_reads(s: Seq<char>, i: int, j: int)
    requires
        0 <= i <= s.len(),
        scan(s, i, CharClass::AsciiWhitespace) == j,
        j + 3 <= s.len(),
        s[j] == '.' && s[j + 1] == '.' && s[j + 2] == '.',
    ensures
        basic_read(s, i) == (
            Ok::<TokenView, LexerError>(
                TokenView { kind: Kind::TripleDot, span: span_of(s, j, j + 3) },
            ),
            j + 3,
        ),
{
    lemma_scan(s, i, CharClass::AsciiWhitespace);
}

/// A word of ASCII letters, digits and `_` that starts with a letter or `_`
/// is read whole, but its token is an identifier of its first character,
/// over that character: wherever it stands, after ASCII white space from
/// `i` up to `j`, reading goes on after the word.
pub proof fn lemma_basic_words_read(s: Seq<char>, i: int, j: int, w: Seq<char>)
    requires
        0 <= i <= s.len(),
        scan(s, i, CharClass::AsciiWhitespace) == j,
        w.len() > 0,
        j + w.len() <= s.len(),
        s.subrange(j, j + w.len()) == w,
        w[0] == '_' || is_ascii_alphabetic(w[0]),
        forall|m: int| 0 <= m < w.len() ==> #[trigger] in_class(w[m], CharClass::AsciiWord),
        j + w.len() == s.len() || !in_class(s[j + w.len()], CharClass::AsciiWord),
    ensures
        basic_read(s, i) == (
            Ok::<TokenView, LexerError>(
                TokenView { kind: Kind::Ident(seq![w[0]]), span: span_of(s, j, j + 1) },
            ),
            j + w.len(),
        ),
{
    lemma_scan(s, i, CharClass::AsciiWhitespace);
    let e = j + w.len();
    assert forall|m: int| j <= m < e implies #[trigger] in_class(s[m], CharClass::AsciiWord) by {
        assert(s[m] == w[m - j]);
    }
    assert(s[j] == w[0]);
    basic_scan_to(s, j, e, CharClass::AsciiWord);
    assert(s.subrange(j, j + 1) =~= seq![w[0]]);
}

/// A run of digits with no fraction or exponent after it is read whole, but
/// its token is the integer of its first digit, over that digit: wherever it
/// stands, after ASCII white space from `i` up to `j`, reading goes on after
/// the run.
pub proof fn lemma_basic_integers_read(s: Seq<char>, i: int, j: int, d: Seq<char>)
    requires
        0 <= i <= s.len(),
        scan(s, i, CharClass::AsciiWhitespace) == j,
        d.len() > 0,
        j + d.len() <= s.len(),
        s.subrange(j, j + d.len()) == d,
        forall|m: int| 0 <= m < d.len() ==> #[trigger] is_digit(d[m]),
        j + d.len() == s.len() || (!is_digit(s[j + d.len()]) && s[j + d.len()] != '.' && s[j
            + d.len()] != 'e' && s[j + d.len()] != 'E'),
    ensures
        basic_read(s, i) == (
            Ok::<TokenView, LexerError>(
                TokenView {
                    kind: Kind::IntLit((d[0] as u32 - '0' as u32) as i64),
                    span: span_of(s, j, j + 1),
                },
            ),
            j + d.len(),
        ),
{
    lemma_scan(s, i, CharClass::AsciiWhitespace);
    let e = j + d.len();
    assert forall|m: int| j <= m < e implies #[trigger] in_class(s[m], CharClass::Digit) by {
        assert(s[m] == d[m - j]);
        assert(is_digit(d[m - j]));
    }
    assert(s[j] == d[0]);
    assert(is_digit(d[0]));
    basic_scan_to(s, j, e, CharClass::Digit);
}

proof fn basic_scan_to(s: Seq<char>, i: int, e: int, k: CharClass)
    requires
        0 <= i <= e <= s.len(),
        forall|m: int| i <= m < e ==> #[trigger] crate::lexer::scan::in_class(s[m], k),
        e == s.len() || !crate::lexer::scan::in_class(s[e], k),
    ensures
        scan(s, i, k) == e,
    decreases e - i,
{
    if i < e {
        basic_scan_to(s, i + 1, e, k);
    }
}

/// A token or error with its text as sequences of characters.
pub open spec fn result_view(r: Result<Token, LexerError>) -> Result<TokenView, LexerError> {
    match r {
        Ok(t) => Ok(t@),
        Err(e) => Err(e),
    }
}

/// Reads tokens, one at a time, from a source text.
pub struct Lexer {
    reader: SourceReader,
}

impl Lexer {
    /// The source text.
    pub closed spec fn source(&self) -> Seq<char> {
        self.reader.source()
    }

    /// Index, in the source text, of the next character to read.
    pub closed spec fn index(&self) -> int {
        self.reader.index()
    }

    pub closed spec fn wf(&self) -> bool {
        self.reader.wf()
    }

    pub fn new(input: &str) -> (r: Lexer)
        ensures
            r.wf(),
            r.source() == input@,
            r.index() == 0,
    {
        Lexer { reader: SourceReader::new(input) }
    }

    /// Reads the next token, after any ASCII white space, as `basic_read`
    /// says.
    pub fn next_token(&mut self) -> (r: Result<Token, LexerError>)
        requires
            old(self).wf(),
        ensures
            final(self).wf(),
            final(self).source() == old(self).source(),
            basic_read(old(self).source(), old(self).index()) == (
                result_view(r),
                final(self).index(),
            ),
    {
        self.skip(CharClass::AsciiWhitespace);
        proof {
            self.reader.lemma_wf();
        }
        let ghost s = self.source();
        let ghost j = self.index();
        let peek_1 = match self.reader.peek() {
            Some(c) => *c,
            None => {
                return Ok(Token { kind: TokenKind::Eof, span: Span::new(0, 0) });
            },
        };
        let second = self.next_is_any();
        if peek_1 == '_' || (('a' <= peek_1 && peek_1 <= 'z') || ('A' <= peek_1 && peek_1 <= 'Z')) {
            Ok(self.lex_ident(Ghost(j)))
        } else if is_ascii_digit(peek_1) {
            self.lex_numeric(Ghost(j))
        } else if peek_1 == '"' {
            Ok(self.lex_single(TokenKind::StringLit(String::new())))
        } else if peek_1 == '+' {
            Ok(self.lex_single(TokenKind::Plus))
        } else if peek_1 == '-' {
            Ok(self.lex_single(TokenKind::Minus))
        } else if peek_1 == '*' {
            Ok(self.lex_single(TokenKind::Star))
        } else if peek_1 == '/' {
            Ok(self.lex_single(TokenKind::Slash))
        } else if peek_1 == '%' {
            Ok(self.lex_single(TokenKind::Percent))
        } else if peek_1 == '|' && second == Some('|') {
            Ok(self.lex_single(TokenKind::LogicalOr))
        } else if peek_1 == '&' && second == Some('&') {
            Ok(self.lex_single(TokenKind::LogicalAnd))
        } else if peek_1 == '|' && second == Some('>') {
            Ok(self.lex_single(TokenKind::Pipeline))
        } else if peek_1 == '!' && second == Some('=') {
            Ok(self.lex_single(TokenKind::NotEqual))
        } else if peek_1 == '!' {
            Ok(self.lex_single(TokenKind::Bang))
        } else if peek_1 == '=' && second == Some('=') {
            Ok(self.lex_single(TokenKind::Equal))
        } else if peek_1 == '=' {
            Ok(self.lex_single(TokenKind::Assign))
        } else if peek_1 == '>' && second == Some('=') {
            Ok(self.lex_single(TokenKind::GreaterEqual))
        } else if peek_1 == '>' {
            Ok(self.lex_single(TokenKind::Greater))
        } else if peek_1 == '<' && second == Some('=') {
            Ok(self.lex_single(TokenKind::LessEqual))
        } else if peek_1 == '<' {
            Ok(self.lex_single(TokenKind::Less))
        } else if peek_1 == ';' {
            Ok(self.lex_single(TokenKind::Semicolon))
        } else if peek_1 == ':' && second == Some(':') {
            Ok(self.lex_single(TokenKind::DoubleColon))
        } else if peek_1 == ':' {
            Ok(self.lex_single(TokenKind::Colon))
        } else if peek_1 == ',' {
            Ok(self.lex_single(TokenKind::Comma))
        } else if peek_1 == '.' && second == Some('.') {
            self.lex_triple_dot()
        } else if peek_1 == '.' {
            Ok(self.lex_single(TokenKind::Dot))
        } else if peek_1 == '(' {
            Ok(self.lex_single(TokenKind::LParen))
        } else if peek_1 == ')' {
            Ok(self.lex_single(TokenKind::RParen))
        } else if peek_1 == '[' {
            Ok(self.lex_single(TokenKind::LBracket))
        } else if peek_1 == ']' {
            Ok(self.lex_single(TokenKind::RBracket))
        } else if peek_1 == '{' {
            Ok(self.lex_single(TokenKind::LBrace))
        } else if peek_1 == '}' {
            Ok(self.lex_single(TokenKind::RBrace))
        } else {
            Err(LexerError::UnknownCharacter)
        }
    }

    /// The character after the next one, if there is one.
    fn next_is_any(&self) -> (r: Option<char>)
        requires
            self.wf(),
        ensures
            r == (if self.index() + 1 < self.source().len() {
                Some(self.source()[self.index() + 1])
            } else {
                None
            }),
    {
        proof {
            self.reader.lemma_wf();
        }
        match self.reader.peek_2() {
            Some(c) => Some(*c),
            None => None,
        }
    }

    /// Whether the next character is `c`.
    fn peek_is(&self, c: char) -> (r: bool)
        requires
            self.wf(),
        ensures
            r == at(self.source(), self.index(), c),
    {
        proof {
            self.reader.lemma_wf();
        }
        match self.reader.peek() {
            Some(d) => *d == c,
            None => false,
        }
    }

    /// Whether the next character is a decimal digit.
    fn peek_digit(&self) -> (r: bool)
        requires
            self.wf(),
        ensures
            r == digit_at(self.source(), self.index()),
    {
        proof {
            self.reader.lemma_wf();
        }
        match self.reader.peek() {
            Some(d) => is_ascii_digit(*d),
            None => false,
        }
    }

    /// Moves past the run of characters of class `k` here.
    fn skip(&mut self, k: CharClass)
        requires
            old(self).wf(),
        ensures
            final(self).wf(),
            final(self).source() == old(self).source(),
            final(self).index() == scan(old(self).source(), old(self).index(), k),
    {
        proof {
            self.reader.lemma_wf();
        }
        let ghost s = self.reader.source();
        let ghost target = scan(s, self.reader.index(), k);
        proof {
            lemma_scan(s, self.reader.index(), k);
        }
        loop
            invariant
                self.wf(),
                self.reader.source() == s,
                s == old(self).source(),
                old(self).index() <= self.reader.index() <= s.len(),
                scan(s, self.reader.index(), k) == target,
            ensures
                self.wf(),
                self.reader.source() == s,
                self.reader.index() == target,
            decreases s.len() - self.reader.index(),
        {
            proof {
                self.reader.lemma_wf();
            }
            match self.reader.peek() {
                Some(ch) => {
                    if class_contains(*ch, k) {
                        self.reader.next();
                    } else {
                        break;
                    }
                },
                None => {
                    break;
                },
            }
        }
    }

    /// A token of the next character, which it moves past.
    fn lex_single(&mut self, kind: TokenKind) -> (r: Token)
        requires
            old(self).wf(),
            old(self).index() < old(self).source().len(),
        ensures
            final(self).wf(),
            final(self).source() == old(self).source(),
            final(self).index() == old(self).index() + 1,
            r@ == (TokenView {
                kind: kind@,
                span: span_of(old(self).source(), old(self).index(), old(self).index() + 1),
            }),
    {
        let start = self.reader.pos();
        self.reader.next();
        Token { kind, span: Span::new(start, self.reader.pos()) }
    }

    fn lex_ident(&mut self, Ghost(j): Ghost<int>) -> (r: Token)
        requires
            old(self).wf(),
            old(self).index() == j,
            j < old(self).source().len(),
            old(self).source()[j] == '_' || is_ascii_alphabetic(old(self).source()[j]),
        ensures
            final(self).wf(),
            final(self).source() == old(self).source(),
            (Ok::<TokenView, LexerError>(r@), final(self).index()) == read_here(
                old(self).source(),
                j,
            ),
    {
        let ghost s = self.source();
        proof {
            self.reader.lemma_wf();
            lemma_scan(s, j + 1, CharClass::AsciiWord);
            assert(crate::lexer::scan::in_class(s[j], CharClass::AsciiWord));
        }
        let from = self.reader.char_index();
        let total = self.reader.text().len();
        assert(from < total);
        let start = self.reader.pos();
        self.reader.next();
        let end = self.reader.pos();
        self.skip(CharClass::AsciiWord);
        let text = string_from_chars(self.reader.text(), from, from + 1);
        Token { kind: TokenKind::Ident(text), span: Span::new(start, end) }
    }

    /// A number whose first digit is next.
    fn lex_numeric(&mut self, Ghost(j): Ghost<int>) -> (r: Result<Token, LexerError>)
        requires
            old(self).wf(),
            old(self).index() == j,
            j < old(self).source().len(),
            is_digit(old(self).source()[j]),
        ensures
            final(self).wf(),
            final(self).source() == old(self).source(),
            (result_view(r), final(self).index()) == read_number(old(self).source(), j),
    {
        let ghost s = self.source();
        proof {
            self.reader.lemma_wf();
            lemma_scan(s, j + 1, CharClass::Digit);
            assert(crate::lexer::scan::in_class(s[j], CharClass::Digit));
        }
        let from = self.reader.char_index();
        let total = self.reader.text().len();
        assert(from < total);
        let start = self.reader.pos();
        let first = match self.reader.peek() {
            Some(c) => *c,
            None => '0',
        };
        let first_end = {
            self.reader.next();
            self.reader.pos()
        };
        self.skip(CharClass::Digit);
        let mut has_fraction = false;
        let mut end_index = from + 1;
        let mut end_pos = first_end;
        if self.peek_is('.') {
            self.reader.next();
            if !self.peek_digit() {
                return Err(LexerError::MalformedFloat);
            }
            proof {
                lemma_scan(s, self.index() + 1, CharClass::Digit);
            }
            self.reader.next();
            has_fraction = true;
            end_index = self.reader.char_index();
            end_pos = self.reader.pos();
            self.skip(CharClass::Digit);
        }
        if self.peek_is('e') || self.peek_is('E') {
            self.reader.next();
            if self.peek_is('-') {
                self.reader.next();
            }
            if !self.peek_digit() {
                return Err(LexerError::MalformedFloat);
            }
            proof {
                lemma_scan(s, self.index() + 1, CharClass::Digit);
            }
            self.reader.next();
            has_fraction = true;
            end_index = self.reader.char_index();
            end_pos = self.reader.pos();
            self.skip(CharClass::Digit);
        }
        if !has_fraction {
            let v = (first as u32 - '0' as u32) as i64;
            assert(v == digit_value(s[j]));
            return Ok(Token { kind: TokenKind::IntLit(v), span: Span::new(start, first_end) });
        }
        proof {
            self.reader.lemma_wf();
        }
        let text = string_from_chars(self.reader.text(), from, end_index);
        Ok(Token { kind: TokenKind::FloatLit(text), span: Span::new(start, end_pos) })
    }

    /// `...`, with the first two dots next.
    fn lex_triple_dot(&mut self) -> (r: Result<Token, LexerError>)
        requires
            old(self).wf(),
            at(old(self).source(), old(self).index(), '.'),
            at(old(self).source(), old(self).index() + 1, '.'),
        ensures
            final(self).wf(),
            final(self).source() == old(self).source(),
            (result_view(r), final(self).index()) == read_here(
                old(self).source(),
                old(self).index(),
            ),
    {
        let start = self.reader.pos();
        self.reader.next();
        self.reader.next();
        if self.peek_is('.') {
            self.reader.next();
            return Ok(Token { kind: TokenKind::TripleDot, span: Span::new(start, self.reader.pos()) });
        }
        Err(LexerError::IncompleteToken)
    }
}

} // verus!
