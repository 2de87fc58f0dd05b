//! The parser's lexer: turns source text into tokens.
//!
//! `grammar` says what is read at each position; the `Lexer` reads it.
pub mod cursor;
pub mod error;
pub mod grammar;
pub mod laws;
pub mod token;

use vstd::prelude::*;

use self::cursor::SourceReader;
use self::error::{LexicalError, LexicalErrorKind};
use self::grammar::{
    at, block_comment, chars, lemma_merge_spans, keyword_or_ident, lemma_block_comment, lemma_trivia, radix_at,
    number_rest, radix_class, read_at, read_ident, read_numeric, read_string, read_token, read_triple_dot,
    span_of, string_rest, trivia,
};
use self::token::{Tok, TokView, Token, TokenKind};
use crate::lexer::scan::{
    class_contains, is_ascii_alphabetic, is_ascii_digit, is_digit, lemma_scan, parse_digits,
    scan, CharClass,
};
use crate::syntax::error::{FlowqlError, ParserResult, Span};
use crate::lexer::is_word;
use crate::text::{byte_len, byte_offset, lemma_byte_offset_mono, string_from_chars};

verus! {

/// A result of reading a token, with its text as sequences of characters;
/// `None` for an error that is not lexical.
pub open spec fn read_view(r: ParserResult<Token>) -> Option<Result<TokView, LexicalError>> {
    match r {
        Ok(t) => Some(Ok(t@)),
        Err(FlowqlError::Lexical(e)) => Some(Err(e)),
        Err(FlowqlError::Syntax(_)) => None,
    }
}

/// Reads tokens, one at a time, from a source text.
#[derive(Debug, Clone)]
pub struct Lexer {
    reader: SourceReader,
}

impl Lexer {
    /// The source text.
    pub closed spec fn source(&self) -> Seq<char> {
        self.reader.source()
    }

    /// Index, in the source text, of the next character to read.
    pub closed spec fn index(&self) -> int {
        self.reader.index()
    }

    pub closed spec fn wf(&self) -> bool {
        self.reader.wf()
    }

    pub fn new(input: &str) -> (r: Self)
        ensures
            r.wf(),
            r.source() == input@,
            r.index() == 0,
    {
        Self { reader: SourceReader::new(input) }
    }

    /// Whether the next call of `next_token` would not return: it does not
    /// inside a block comment with a `/` or `*` that starts no delimiter.
    pub fn next_token_hangs(&self) -> (r: bool)
        requires
            self.wf(),
        ensures
            r == (read_token(self.source(), self.index()) is None),
    {
        proof {
            self.reader.lemma_wf();
        }
        let mut probe = Lexer { reader: self.reader.duplicate() };
        probe.try_next_token().is_none()
    }

    /// Reads the next token, after any white space and comments: the token,
    /// or the lexical error that the text there holds. At the end of the
    /// text, and again on every later call, the token is `Eof`.
    pub fn next_token(&mut self) -> (r: ParserResult<Token>)
        requires
            old(self).wf(),
            read_token(old(self).source(), old(self).index()) is Some,
        ensures
            final(self).wf(),
            final(self).source() == old(self).source(),
            read_token(old(self).source(), old(self).index()) == Some(
                (read_view(r)->0, final(self).index()),
            ),
            read_view(r) is Some,
    {
        proof {
            self.reader.lemma_wf();
        }
        match self.try_next_token() {
            Some(r) => r,
            None => {
                assert(false);
                Err(
                    FlowqlError::Lexical(
                        LexicalError {
                            kind: LexicalErrorKind::UnclosedComment,
                            span: Span { start: 0, end: 0 },
                        },
                    ),
                )
            },
        }
    }

    /// Reads the next token as `next_token` does, or, where `next_token`
    /// would not return, gives `None`.
    pub fn try_next_token(&mut self) -> (r: Option<ParserResult<Token>>)
        requires
            old(self).wf(),
        ensures
            final(self).wf(),
            final(self).source() == old(self).source(),
            match r {
                Some(t) => read_view(t) is Some && read_token(
                    old(self).source(),
                    old(self).index(),
                ) == Some((read_view(t)->0, final(self).index())),
                None => read_token(old(self).source(), old(self).index()) is None,
            },
    {
        proof {
            self.reader.lemma_wf();
        }
        let ghost s = self.reader.source();
        let ghost i = self.reader.index();
        match self.consume_whitespace() {
            None => {
                return None;
            },
            Some(Err(e)) => {
                return Some(Err(FlowqlError::Lexical(e)));
            },
            Some(Ok(())) => {},
        }
        let ghost j = self.reader.index();
        let peek_1 = match self.reader.peek() {
            Some(c) => *c,
            None => {
                let here = self.reader.pos();
                return Some(Ok(Token { kind: TokenKind::Eof, span: Span::new(here, here) }));
            },
        };
        Some(self.read_at(peek_1, Ghost(j)))
    }

    /// The token at a character.
    fn read_at(&mut self, peek_1: char, Ghost(j): Ghost<int>) -> (r: ParserResult<Token>)
        requires
            old(self).wf(),
            old(self).index() == j,
            j < old(self).source().len(),
            old(self).source()[j] == peek_1,
        ensures
            final(self).wf(),
            final(self).source() == old(self).source(),
            read_view(r) == Some(read_at(old(self).source(), j).0),
            final(self).index() == read_at(old(self).source(), j).1,
    {
        proof {
            self.reader.lemma_wf();
        }
        if peek_1 == '_' || (('a' <= peek_1 && peek_1 <= 'z') || ('A' <= peek_1 && peek_1 <= 'Z')) {
            return self.lex_ident(Ghost(j));
        }
        if is_ascii_digit(peek_1) {
            return self.lex_numeric(Ghost(j));
        }
        if peek_1 == '"' {
            return self.lex_string(Ghost(j));
        }
        let (n, kind) = match peek_1 {
            '+' => (1, TokenKind::Plus),
            '-' => (1, TokenKind::Minus),
            '*' => (1, TokenKind::Star),
            '/' => (1, TokenKind::Slash),
            '%' => (1, TokenKind::Percent),
            '|' => {
                if self.next_is('|') {
                    (2, TokenKind::LogicalOr)
                } else if self.next_is('>') {
                    (2, TokenKind::Pipeline)
                } else {
                    return Err(
                        FlowqlError::Lexical(
                            self.lex_garbage(1, LexicalErrorKind::IncompleteToken("||")),
                        ),
                    );
                }
            },
            '&' => {
                if self.next_is('&') {
                    (2, TokenKind::LogicalAnd)
                } else {
                    return Err(
                        FlowqlError::Lexical(
                            self.lex_garbage(1, LexicalErrorKind::IncompleteToken("&&")),
                        ),
                    );
                }
            },
            '!' => if self.next_is('=') {
                (2, TokenKind::NotEqual)
            } else {
                (1, TokenKind::Bang)
            },
            '=' => if self.next_is('=') {
                (2, TokenKind::Equal)
            } else {
                (1, TokenKind::Assign)
            },
            '>' => if self.next_is('=') {
                (2, TokenKind::GreaterEqual)
            } else {
                (1, TokenKind::Greater)
            },
            '<' => if self.next_is('=') {
                (2, TokenKind::LessEqual)
            } else {
                (1, TokenKind::Less)
            },
            ';' => (1, TokenKind::Semicolon),
            ':' => if self.next_is(':') {
                (2, TokenKind::DoubleColon)
            } else {
                (1, TokenKind::Colon)
            },
            ',' => (1, TokenKind::Comma),
            '.' => {
                if self.next_is('.') {
                    return self.lex_triple_dot(Ghost(j));
                } else {
                    (1, TokenKind::Dot)
                }
            },
            '(' => (1, TokenKind::LParen),
            ')' => (1, TokenKind::RParen),
            '[' => (1, TokenKind::LBracket),
            ']' => (1, TokenKind::RBracket),
            '{' => (1, TokenKind::LBrace),
            '}' => (1, TokenKind::RBrace),
            _ => {
                let start = self.reader.pos();
                self.reader.next();
                return Err(
                    FlowqlError::Lexical(
                        LexicalError {
                            kind: LexicalErrorKind::UnknownCharacter(peek_1),
                            span: Span::new(start, self.reader.pos()),
                        },
                    ),
                );
            },
        };
        Ok(self.lex_chars(n, kind))
    }

    /// Whether the character after the next one is `c`.
    fn next_is(&self, c: char) -> (r: bool)
        requires
            self.wf(),
        ensures
            r == at(self.source(), self.index() + 1, c),
    {
        proof {
            self.reader.lemma_wf();
        }
        match self.reader.peek_2() {
            Some(d) => *d == c,
            None => false,
        }
    }

    /// Whether the next character is `c`.
    fn peek_is(&self, c: char) -> (r: bool)
        requires
            self.wf(),
        ensures
            r == at(self.source(), self.index(), c),
    {
        proof {
            self.reader.lemma_wf();
        }
        match self.reader.peek() {
            Some(d) => *d == c,
            None => false,
        }
    }

    fn lex_ident(&mut self, Ghost(j): Ghost<int>) -> (r: ParserResult<Token>)
        requires
            old(self).wf(),
            old(self).index() == j,
            j < old(self).source().len(),
            old(self).source()[j] == '_' || is_ascii_alphabetic(old(self).source()[j]),
        ensures
            final(self).wf(),
            final(self).source() == old(self).source(),
            read_view(r) == Some(read_ident(old(self).source(), j).0),
            final(self).index() == read_ident(old(self).source(), j).1,
    {
        proof {
            self.reader.lemma_wf();
        }
        let from = self.reader.char_index();
        proof {
            lemma_scan(old(self).source(), j, CharClass::AsciiWord);
            lemma_scan(old(self).source(), j + 1, CharClass::AsciiWord);
        }
        let span = match self.consume_while(CharClass::AsciiWord) {
            Some(span) => span,
            None => {
                let here = self.reader.pos();
                return Err(
                    FlowqlError::Lexical(
                        LexicalError {
                            kind: LexicalErrorKind::InternalError(
                                "expected identifier to have length >= 1",
                            ),
                            span: Span::new(here, here),
                        },
                    ),
                );
            },
        };
        let to = self.reader.char_index();
        let kind = ident_kind(self.reader.text(), from, to);
        Ok(Token { kind, span })
    }

    fn lex_string(&mut self, Ghost(j): Ghost<int>) -> (r: ParserResult<Token>)
        requires
            old(self).wf(),
            old(self).index() == j,
            j < old(self).source().len(),
            old(self).source()[j] == '"',
        ensures
            final(self).wf(),
            final(self).source() == old(self).source(),
            read_view(r) == Some(read_string(old(self).source(), j).0),
            final(self).index() == read_string(old(self).source(), j).1,
    {
        proof {
            self.reader.lemma_wf();
        }
        let ghost s = self.reader.source();
        let ghost target = read_string(s, j);
        let start = self.reader.pos();
        self.reader.next();
        let start_content = self.reader.char_index();
        loop
            invariant
                self.wf(),
                self.reader.source() == s,
                s == old(self).source(),
                target == read_string(s, j),
                start == byte_offset(s, j),
                start_content == j + 1,
                j < self.reader.index() <= s.len(),
                string_rest(s, j, self.reader.index()) == target,
            decreases s.len() - self.reader.index(),
        {
            proof {
                lemma_scan(s, self.reader.index(), CharClass::NotQuoteNorBackslash);
            }
            self.consume_while(CharClass::NotQuoteNorBackslash);
            let quote = match self.reader.peek() {
                Some(c) => *c == '"',
                None => {
                    return Err(
                        FlowqlError::Lexical(
                            LexicalError {
                                kind: LexicalErrorKind::UnclosedStringLit,
                                span: Span::new(start, self.reader.pos()),
                            },
                        ),
                    );
                },
            };
            if quote {
                let content = string_from_chars(
                    self.reader.text(),
                    start_content,
                    self.reader.char_index(),
                );
                self.reader.next();
                return Ok(
                    Token {
                        kind: TokenKind::StringLit(content),
                        span: Span::new(start, self.reader.pos()),
                    },
                );
            } else if self.next_is('"') {
                self.reader.next();
                self.reader.next();
            } else {
                self.reader.next();
            }
        }
    }

    #[verifier::rlimit(40)]
    fn lex_numeric(&mut self, Ghost(j): Ghost<int>) -> (r: ParserResult<Token>)
        requires
            old(self).wf(),
            old(self).index() == j,
            j < old(self).source().len(),
        ensures
            final(self).wf(),
            final(self).source() == old(self).source(),
            read_view(r) == Some(read_numeric(old(self).source(), j).0),
            final(self).index() == read_numeric(old(self).source(), j).1,
    {
        proof {
            self.reader.lemma_wf();
        }
        let ghost s = self.reader.source();
        let radix: u64 = if self.peek_is('0') && self.next_is('x') {
            16
        } else if self.peek_is('0') && self.next_is('o') {
            8
        } else if self.peek_is('0') && self.next_is('b') {
            2
        } else {
            10
        };
        if radix != 10 {
            self.reader.next();
            self.reader.next();
        }
        let k = self.reader.char_index();
        let class = if radix == 16 {
            CharClass::HexDigit
        } else if radix == 8 {
            CharClass::OctalDigit
        } else if radix == 2 {
            CharClass::BinaryDigit
        } else {
            CharClass::Digit
        };
        assert(class == radix_class(radix as int));
        proof {
            lemma_scan(s, k as int, class);
        }
        let int_span = match self.consume_while(class) {
            Some(span) => span,
            None => {
                let here = self.reader.pos();
                return Err(
                    FlowqlError::Lexical(
                        LexicalError {
                            kind: LexicalErrorKind::InternalError(
                                "expected number to have length >= 1",
                            ),
                            span: Span::new(here, here),
                        },
                    ),
                );
            },
        };
        let ie = self.reader.char_index();
        proof {
            lemma_byte_offset_mono(s, k as int, ie as int);
        }
        self.lex_number_rest(k, ie, radix, int_span)
    }

    /// The rest of a number whose digits in its radix, `k..ie`, were read.
    #[verifier::rlimit(40)]
    fn lex_number_rest(&mut self, k: usize, ie: usize, radix: u64, int_span: Span) -> (r: ParserResult<
        Token,
    >)
        requires
            old(self).wf(),
            old(self).index() == ie,
            k < ie <= old(self).source().len(),
            2 <= radix <= 16,
            int_span == span_of(old(self).source(), k as int, ie as int),
        ensures
            final(self).wf(),
            final(self).source() == old(self).source(),
            read_view(r) == Some(number_rest(old(self).source(), k as int, ie as int, radix as int).0),
            final(self).index() == number_rest(old(self).source(), k as int, ie as int, radix as int).1,
    {
        proof {
            self.reader.lemma_wf();
        }
        let ghost s = self.reader.source();
        let has_frac = self.peek_is('.') && match self.reader.peek_2() {
            Some(c) => is_ascii_digit(*c),
            None => false,
        };
        let mut span = int_span;
        if has_frac {
            self.reader.next();
            proof {
                lemma_scan(s, ie + 1, CharClass::Digit);
            }
            match self.consume_while(CharClass::Digit) {
                Some(frac) => {
                    proof {
                        self.reader.lemma_wf();
                        lemma_merge_spans(s, k as int, ie as int, ie + 1, self.reader.index());
                    }
                    span = span.merge(&frac);
                },
                None => {},
            }
        }
        let fe = self.reader.char_index();
        assert(span == span_of(s, k as int, fe as int));
        let has_exp = self.peek_is('e') || self.peek_is('E');
        if has_exp {
            self.reader.next();
            if self.peek_is('-') || self.peek_is('+') {
                self.reader.next();
            }
            let es = self.reader.char_index();
            proof {
                lemma_scan(s, es as int, CharClass::Digit);
            }
            match self.consume_while(CharClass::Digit) {
                Some(exp) => {
                    proof {
                        self.reader.lemma_wf();
                        lemma_merge_spans(s, k as int, fe as int, es as int, self.reader.index());
                    }
                    span = span.merge(&exp);
                },
                None => {
                    return Err(
                        FlowqlError::Lexical(
                            LexicalError {
                                kind: LexicalErrorKind::IncompleteFloatExponent,
                                span: Span::new(int_span.start, self.reader.pos()),
                            },
                        ),
                    );
                },
            }
        }
        if !has_frac && !has_exp {
            return match parse_digits(self.reader.text(), k, ie, radix, i64::MAX as u64) {
                Some(v) => Ok(Token { kind: TokenKind::IntLit(v as i64), span: int_span }),
                None => Err(
                    FlowqlError::Lexical(
                        LexicalError { kind: LexicalErrorKind::IntegerOverflow, span: int_span },
                    ),
                ),
            };
        }
        if radix != 10 {
            let kind = if radix == 16 {
                LexicalErrorKind::HexadecimalFloat
            } else if radix == 8 {
                LexicalErrorKind::OctalFloat
            } else {
                LexicalErrorKind::BinaryFloat
            };
            return Err(FlowqlError::Lexical(LexicalError { kind, span }));
        }
        let text = string_from_chars(self.reader.text(), k, self.reader.char_index());
        Ok(Token { kind: TokenKind::FloatLit(text), span })
    }

    fn lex_triple_dot(&mut self, Ghost(j): Ghost<int>) -> (r: ParserResult<Token>)
        requires
            old(self).wf(),
            old(self).index() == j,
            j + 1 < old(self).source().len(),
        ensures
            final(self).wf(),
            final(self).source() == old(self).source(),
            read_view(r) == Some(read_triple_dot(old(self).source(), j).0),
            final(self).index() == read_triple_dot(old(self).source(), j).1,
    {
        proof {
            self.reader.lemma_wf();
        }
        let start = self.reader.pos();
        self.reader.next();
        self.reader.next();
        if self.peek_is('.') {
            self.reader.next();
            return Ok(Token { kind: TokenKind::TripleDot, span: Span::new(start, self.reader.pos()) });
        }
        Err(
            FlowqlError::Lexical(
                LexicalError {
                    kind: LexicalErrorKind::IncompleteToken("..."),
                    span: Span::new(start, self.reader.pos()),
                },
            ),
        )
    }

    /// Moves past white space and comments. `None` where that would not
    /// end: inside a block comment, at a `/` or `*` that starts no
    /// delimiter.
    fn consume_whitespace(&mut self) -> (r: Option<Result<(), LexicalError>>)
        requires
            old(self).wf(),
        ensures
            final(self).wf(),
            final(self).source() == old(self).source(),
            match r {
                None => trivia(old(self).source(), old(self).index()) is None,
                Some(Ok(())) => trivia(old(self).source(), old(self).index()) == Some(
                    Ok::<int, int>(final(self).index()),
                ),
                Some(Err(e)) => trivia(old(self).source(), old(self).index()) == Some(
                    Err::<int, int>(final(self).index()),
                ) && e == LexicalError {
                    kind: LexicalErrorKind::UnclosedComment,
                    span: span_of(old(self).source(), old(self).index(), final(self).index()),
                },
            },
    {
        proof {
            self.reader.lemma_wf();
        }
        let ghost s = self.reader.source();
        let ghost i0 = self.reader.index();
        let ghost target = trivia(s, i0);
        let start = self.reader.pos();
        loop
            invariant
                self.wf(),
                self.reader.source() == s,
                s == old(self).source(),
                i0 == old(self).index(),
                target == trivia(s, i0),
                start == byte_offset(s, i0),
                0 <= self.reader.index() <= s.len(),
                trivia(s, self.reader.index()) == target,
            decreases s.len() - self.reader.index(),
        {
            let ghost i = self.reader.index();
            proof {
                lemma_scan(s, i, CharClass::AsciiWhitespace);
            }
            self.consume_while(CharClass::AsciiWhitespace);
            let ghost w = self.reader.index();
            let slash = match self.reader.peek() {
                Some(c) => *c == '/',
                None => false,
            };
            let then = match self.reader.peek_2() {
                Some(c) => *c,
                None => ' ',
            };
            if slash && then == '/' {
                proof {
                    lemma_scan(s, w, CharClass::NotNewline);
                }
                self.consume_while(CharClass::NotNewline);
                self.reader.next();
            } else if slash && then == '*' {
                proof {
                    lemma_block_comment(s, w, 0);
                }
                match self.skip_block_comment() {
                    None => {
                        return None;
                    },
                    Some(false) => {
                        let e = LexicalError {
                            kind: LexicalErrorKind::UnclosedComment,
                            span: Span::new(start, self.reader.pos()),
                        };
                        return Some(Err(e));
                    },
                    Some(true) => {},
                }
            } else {
                return Some(Ok(()));
            }
        }
    }

    /// Moves past a block comment and those nested in it: `Some(true)` once
    /// it is closed, `Some(false)` at the end of the text, `None` where the
    /// lexer stops making progress.
    fn skip_block_comment(&mut self) -> (r: Option<bool>)
        requires
            old(self).wf(),
            at(old(self).source(), old(self).index(), '/'),
            at(old(self).source(), old(self).index() + 1, '*'),
        ensures
            final(self).wf(),
            final(self).source() == old(self).source(),
            match r {
                None => block_comment(old(self).source(), old(self).index(), 0) is None,
                Some(true) => block_comment(old(self).source(), old(self).index(), 0) == Some(
                    Ok::<int, int>(final(self).index()),
                ),
                Some(false) => block_comment(old(self).source(), old(self).index(), 0) == Some(
                    Err::<int, int>(final(self).index()),
                ),
            },
    {
        proof {
            self.reader.lemma_wf();
        }
        let ghost s = self.reader.source();
        let ghost target = block_comment(s, self.reader.index(), 0);
        let ghost i0 = self.reader.index();
        let mut nested: usize = 0;
        loop
            invariant
                self.wf(),
                self.reader.source() == s,
                s == old(self).source(),
                target == block_comment(s, old(self).index(), 0),
                0 <= self.reader.index() <= s.len(),
                nested <= self.reader.index(),
                nested >= 1 || (self.reader.index() == i0 && nested == 0),
                i0 == old(self).index(),
                at(s, i0, '/') && at(s, i0 + 1, '*'),
                block_comment(s, self.reader.index(), nested as int) == target,
            decreases s.len() - self.reader.index(),
        {
            proof {
                lemma_scan(s, self.reader.index(), CharClass::NotSlashNorStar);
            }
            self.consume_while(CharClass::NotSlashNorStar);
            let c1 = match self.reader.peek() {
                Some(c) => *c,
                None => {
                    return Some(false);
                },
            };
            let c2 = match self.reader.peek_2() {
                Some(c) => *c,
                None => ' ',
            };
            if c1 == '/' && c2 == '*' {
                proof {
                    self.reader.lemma_wf();
                    crate::text::lemma_byte_offset_at_least_index(s, s.len() as int);
                }
                self.reader.next();
                self.reader.next();
                nested = nested + 1;
            } else if c1 == '*' && c2 == '/' {
                self.reader.next();
                self.reader.next();
                nested = nested - 1;
                if nested == 0 {
                    return Some(true);
                }
            } else {
                return None;
            }
        }
    }

    /// Moves past the run of characters of class `k` here; its span, if it
    /// is not empty.
    fn consume_while(&mut self, k: CharClass) -> (r: Option<Span>)
        requires
            old(self).wf(),
        ensures
            final(self).wf(),
            final(self).source() == old(self).source(),
            final(self).index() == scan(old(self).source(), old(self).index(), k),
            r == (if final(self).index() > old(self).index() {
                Some(span_of(old(self).source(), old(self).index(), final(self).index()))
            } else {
                None::<Span>
            }),
    {
        proof {
            self.reader.lemma_wf();
        }
        let ghost s = self.reader.source();
        let ghost i0 = self.reader.index();
        let ghost target = scan(s, i0, k);
        let start = self.reader.pos();
        proof {
            lemma_scan(s, i0, k);
        }
        loop
            invariant
                self.wf(),
                self.reader.source() == s,
                s == old(self).source(),
                i0 == old(self).index(),
                start == byte_offset(s, i0),
                i0 <= self.reader.index() <= s.len(),
                scan(s, self.reader.index(), k) == target,
                target == scan(s, i0, k),
            ensures
                self.wf(),
                self.reader.source() == s,
                i0 <= self.reader.index() <= s.len(),
                self.reader.index() == target,
            decreases s.len() - self.reader.index(),
        {
            proof {
                self.reader.lemma_wf();
            }
            match self.reader.peek() {
                Some(ch) => {
                    if class_contains(*ch, k) {
                        assert(crate::lexer::scan::in_class(s[self.reader.index()], k));
                        self.reader.next();
                    } else {
                        break;
                    }
                },
                None => {
                    break;
                },
            }
        }
        let end = self.reader.pos();
        proof {
            lemma_byte_offset_mono(s, i0, self.reader.index());
        }
        if start != end {
            Some(Span::new(start, end))
        } else {
            None
        }
    }

    /// Moves past `num` characters and gives the error `err_kind` at them.
    fn lex_garbage(&mut self, num: usize, err_kind: LexicalErrorKind) -> (r: LexicalError)
        requires
            old(self).wf(),
            old(self).index() + num <= old(self).source().len(),
        ensures
            final(self).wf(),
            final(self).source() == old(self).source(),
            final(self).index() == old(self).index() + num,
            r == (LexicalError {
                kind: err_kind,
                span: span_of(old(self).source(), old(self).index(), final(self).index()),
            }),
    {
        proof {
            self.reader.lemma_wf();
        }
        let start = self.reader.pos();
        let mut k: usize = 0;
        while k < num
            invariant
                self.wf(),
                self.reader.source() == old(self).source(),
                self.reader.index() == old(self).index() + k,
                old(self).index() + num <= old(self).source().len(),
                k <= num,
            decreases num - k,
        {
            self.reader.next();
            k = k + 1;
        }
        LexicalError { kind: err_kind, span: Span::new(start, self.reader.pos()) }
    }

    /// Moves past `num` characters and gives the token `kind` of them.
    fn lex_chars(&mut self, num: usize, kind: TokenKind) -> (r: Token)
        requires
            old(self).wf(),
            old(self).index() + num <= old(self).source().len(),
        ensures
            final(self).wf(),
            final(self).source() == old(self).source(),
            final(self).index() == old(self).index() + num,
            r@ == (TokView {
                kind: kind@,
                span: span_of(old(self).source(), old(self).index(), final(self).index()),
            }),
    {
        proof {
            self.reader.lemma_wf();
        }
        let start = self.reader.pos();
        let mut k: usize = 0;
        while k < num
            invariant
                self.wf(),
                self.reader.source() == old(self).source(),
                self.reader.index() == old(self).index() + k,
                old(self).index() + num <= old(self).source().len(),
                k <= num,
            decreases num - k,
        {
            self.reader.next();
            k = k + 1;
        }
        Token { kind, span: Span::new(start, self.reader.pos()) }
    }
}


/// The keyword that `v[from..to]` spells, or an identifier.
fn ident_kind(v: &Vec<char>, from: usize, to: usize) -> (k: TokenKind)
    requires
        from <= to <= v.len(),
    ensures
        k@ == keyword_or_ident(v@.subrange(from as int, to as int)),
{
    if is_word(v, from, to, &vec!['i', 'f']) {
        TokenKind::If
    } else if is_word(v, from, to, &vec!['l', 'e', 't']) {
        TokenKind::Let
    } else if is_word(v, from, to, &vec!['c', 'r', 'e', 'a', 't', 'e']) {
        TokenKind::Create
    } else if is_word(v, from, to, &vec!['s', 'e', 't']) {
        TokenKind::SetKeyword
    } else if is_word(v, from, to, &vec!['m', 'i', 'g', 'r', 'a', 't', 'e']) {
        TokenKind::Migrate
    } else if is_word(v, from, to, &vec!['d', 'r', 'o', 'p']) {
        TokenKind::Drop
    } else {
        TokenKind::Ident(string_from_chars(v, from, to))
    }
}

} // verus!
