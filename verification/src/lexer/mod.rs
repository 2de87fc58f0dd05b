//! The lexer of the query language: turns source text into tokens.
//!
//! `grammar` says what is read at each position; the `Lexer` reads it.
pub mod calendar;
pub mod error;
pub mod grammar;
pub mod laws;
pub mod scan;
pub mod token;

mod instants;
mod literals;

use vstd::prelude::*;

use self::error::{LexErr, LexError};
use self::grammar::{
    at, block_comment_end, keyword_or_ident, lemma_block_comment_end, lemma_skip_trivia, lex_amp,
    lex_char, lex_dot, lex_ident, lex_pipe, lex_token, ok, one_or_two, skip_trivia,
};
use self::scan::{
    class_contains, ident_start, is_ascii_digit, is_digit, is_ident_start, lemma_scan, scan,
    CharClass,
};
use self::token::{Kind, Span, Token, TokenKind, TokenView};
use crate::text::{
    byte_len, byte_offset, char_width, chars_of, is_whitespace, lemma_byte_offset_mono,
    lemma_byte_offset_step, string_from_chars, unicode_white_space, utf8_width,
};

verus! {

/// A token or error with their text as sequences of characters.
pub open spec fn view_result(r: Result<Token, LexError>) -> Result<TokenView, LexErr> {
    match r {
        Ok(t) => Ok(t@),
        Err(e) => Err(e@),
    }
}

/// Reads tokens, one at a time, from a source text.
pub struct Lexer {
    /// The characters of the source text.
    pub(crate) chars: Vec<char>,
    /// Index of the next character to read.
    pub(crate) idx: usize,
    /// Byte offset of that character.
    pub(crate) pos: usize,
    /// Byte offset where the token being read starts.
    pub(crate) start: usize,
}

impl Lexer {
    pub(crate) open spec fn inv(&self) -> bool {
        &&& self.idx <= self.chars.len()
        &&& self.pos == byte_offset(self.chars@, self.idx as int)
        &&& byte_len(self.chars@) <= usize::MAX
    }

    /// The source text.
    pub closed spec fn source(&self) -> Seq<char> {
        self.chars@
    }

    /// Index, in the source text, of the next character to read.
    pub closed spec fn index(&self) -> int {
        self.idx as int
    }

    pub closed spec fn wf(&self) -> bool {
        self.inv()
    }

    /// A lexer in the state its invariant allows stands within its text,
    /// whose UTF-8 length fits in a `usize`: what `laws::lemma_read_progress`
    /// and the other laws of reading ask of the index they start from.
    pub proof fn lemma_wf(&self)
        requires
            self.wf(),
        ensures
            0 <= self.index() <= self.source().len(),
            byte_len(self.source()) <= usize::MAX,
    {
    }

    pub fn new(source: &str) -> (r: Lexer)
        ensures
            r.wf(),
            r.source() == source@,
            r.index() == 0,
    {
        let chars = chars_of(source);
        Lexer { chars, idx: 0, pos: 0, start: 0 }
    }

    /// Every call of `next_token` makes progress, in byte offsets: from a
    /// lexer `before` to the lexer `after` it leaves, with result `r`, a token
    /// other than `Eof` starts where the white space and comments after the
    /// old position end and runs, not empty, up to the new position; `Eof`
    /// comes at the end of the text, with an empty span there; and an error
    /// moves the position forward too.
    pub proof fn lemma_next_token_progress(
        before: Lexer,
        after: Lexer,
        r: Result<Token, LexError>,
    )
        requires
            before.wf(),
            after.source() == before.source(),
            lex_token(before.source(), before.index()) == Some(
                (view_result(r), after.index()),
            ),
        ensures
            ({
                let s = before.source();
                let p = byte_offset(s, before.index());
                let q = byte_offset(s, after.index());
                &&& before.index() <= after.index() <= s.len()
                &&& p <= q <= byte_len(s)
                &&& (r matches Ok(t) && t.kind@ is Eof) ==> after.index() == s.len() && r->Ok_0.span
                    == (Span { start: byte_len(s) as usize, end: byte_len(s) as usize })
                &&& (r matches Ok(t) && t.kind@ is Eof) || before.index() < after.index()
                &&& (r matches Ok(t) && !(t.kind@ is Eof)) ==> {
                    let t = r->Ok_0;
                    &&& t.span.start == byte_offset(s, skip_trivia(s, before.index()))
                    &&& p <= t.span.start < t.span.end
                    &&& t.span.end == q
                }
            }),
    {
        let s = before.source();
        let i = before.index();
        grammar::lemma_skip_trivia(s, i);
        laws::lemma_read_progress(s, i);
        let j = skip_trivia(s, i);
        let n = after.index();
        lemma_byte_offset_mono(s, i, j);
        lemma_byte_offset_mono(s, j, n);
        lemma_byte_offset_mono(s, n, s.len() as int);
        lemma_byte_offset_mono(s, i, n);
    }

    /// Whether the next call of `next_token` panics, which it does on a
    /// duration literal with a component too large for an `i64`.
    pub fn next_token_panics(&self) -> (r: bool)
        requires
            self.wf(),
        ensures
            r == (lex_token(self.source(), self.index()) is None),
    {
        let mut probe = Lexer { chars: self.chars.clone(), idx: self.idx, pos: self.pos, start: self.start };
        assert(probe.chars@ == self.chars@);
        probe.try_next_token().is_none()
    }

    /// Reads the next token, after any white space and comments: the token,
    /// or the error that the text there holds. At the end of the text, and
    /// again on every later call, the token is `Eof`.
    pub fn next_token(&mut self) -> (r: Result<Token, LexError>)
        requires
            old(self).wf(),
            lex_token(old(self).source(), old(self).index()) is Some,
        ensures
            final(self).wf(),
            final(self).source() == old(self).source(),
            lex_token(old(self).source(), old(self).index()) == Some(
                (view_result(r), final(self).index()),
            ),
    {
        match self.try_next_token() {
            Some(r) => r,
            None => {
                assert(false);
                Err(LexError::EmptyDuration(Span { start: 0, end: 0 }))
            },
        }
    }

    /// Reads the next token as `next_token` does, or, where `next_token`
    /// panics, gives `None` and reads nothing.
    pub fn try_next_token(&mut self) -> (r: Option<Result<Token, LexError>>)
        requires
            old(self).wf(),
        ensures
            final(self).wf(),
            final(self).source() == old(self).source(),
            match r {
                Some(t) => lex_token(old(self).source(), old(self).index()) == Some(
                    (view_result(t), final(self).index()),
                ),
                None => lex_token(old(self).source(), old(self).index()) is None
                    && final(self).index() == old(self).index(),
            },
    {
        let ghost s = self.chars@;
        let saved_idx = self.idx;
        let saved_pos = self.pos;
        self.skip_whitespace_and_comments();
        self.start = self.pos;
        proof {
            lemma_skip_trivia(s, saved_idx as int);
        }
        let ghost j = self.idx as int;
        let c = match self.peek() {
            Some(c) => c,
            None => {
                return Some(Ok(self.token(TokenKind::Eof)));
            },
        };
        if c == '#' {
            let r = self.lex_duration(Ghost(j));
            if r.is_none() {
                self.idx = saved_idx;
                self.pos = saved_pos;
            }
            return r;
        }
        Some(self.lex_char(c, Ghost(j)))
    }

    /// The token at a character other than `#`.
    fn lex_char(&mut self, c: char, Ghost(j): Ghost<int>) -> (r: Result<Token, LexError>)
        requires
            old(self).inv(),
            old(self).idx == j,
            j < old(self).chars.len(),
            old(self).chars@[j] == c,
            c != '#',
            old(self).start == byte_offset(old(self).chars@, j),
        ensures
            final(self).inv(),
            final(self).chars@ == old(self).chars@,
            (view_result(r), final(self).idx as int) == lex_char(old(self).chars@, j),
    {
        match c {
            '(' => self.advance_and_return(TokenKind::LParen, Ghost(j)),
            ')' => self.advance_and_return(TokenKind::RParen, Ghost(j)),
            '[' => self.advance_and_return(TokenKind::LBracket, Ghost(j)),
            ']' => self.advance_and_return(TokenKind::RBracket, Ghost(j)),
            '}' => self.advance_and_return(TokenKind::RBrace, Ghost(j)),
            ',' => self.advance_and_return(TokenKind::Comma, Ghost(j)),
            ';' => self.advance_and_return(TokenKind::Semicolon, Ghost(j)),
            '+' => self.one_or_two('+', TokenKind::PlusPlus, TokenKind::Plus, Ghost(j)),
            '-' => self.advance_and_return(TokenKind::Minus, Ghost(j)),
            '*' => self.advance_and_return(TokenKind::Star, Ghost(j)),
            '/' => self.advance_and_return(TokenKind::Slash, Ghost(j)),
            '%' => self.advance_and_return(TokenKind::Percent, Ghost(j)),
            '.' => self.lex_dot(Ghost(j)),
            ':' => self.one_or_two(':', TokenKind::ColonColon, TokenKind::Colon, Ghost(j)),
            '=' => self.one_or_two('=', TokenKind::EqEq, TokenKind::Eq, Ghost(j)),
            '!' => self.one_or_two('=', TokenKind::BangEq, TokenKind::Bang, Ghost(j)),
            '<' => self.one_or_two('=', TokenKind::LAngleEq, TokenKind::LAngle, Ghost(j)),
            '>' => self.one_or_two('=', TokenKind::RAngleEq, TokenKind::RAngle, Ghost(j)),
            '&' => self.lex_amp(Ghost(j)),
            '|' => self.lex_pipe(Ghost(j)),
            '{' => self.advance_and_return(TokenKind::LBrace, Ghost(j)),
            '?' => self.advance_and_return(TokenKind::Question, Ghost(j)),
            '@' => self.lex_at_literal(Ghost(j)),
            '"' => self.lex_string(Ghost(j)),
            _ => {
                if is_ascii_digit(c) {
                    self.lex_number(Ghost(j))
                } else if is_ident_start(c) {
                    self.lex_ident_or_keyword(Ghost(j))
                } else {
                    let span = self.single_span();
                    self.advance();
                    Err(LexError::UnexpectedChar(c, span))
                }
            },
        }
    }

    // ---- helpers ----
    pub(crate) fn peek(&self) -> (r: Option<char>)
        requires
            self.inv(),
        ensures
            r == (if self.idx < self.chars.len() {
                Some(self.chars@[self.idx as int])
            } else {
                None
            }),
    {
        if self.idx < self.chars.len() {
            Some(self.chars[self.idx])
        } else {
            None
        }
    }

    pub(crate) fn peek2(&self) -> (r: Option<char>)
        requires
            self.inv(),
        ensures
            r == (if self.idx + 1 < self.chars.len() {
                Some(self.chars@[self.idx + 1])
            } else {
                None
            }),
    {
        if self.idx < self.chars.len() && self.idx + 1 < self.chars.len() {
            Some(self.chars[self.idx + 1])
        } else {
            None
        }
    }

    /// Whether the next character is `c`.
    pub(crate) fn peek_is(&self, c: char) -> (r: bool)
        requires
            self.inv(),
        ensures
            r == at(self.chars@, self.idx as int, c),
    {
        self.idx < self.chars.len() && self.chars[self.idx] == c
    }

    /// Whether the character after the next one is `c`.
    pub(crate) fn peek2_is(&self, c: char) -> (r: bool)
        requires
            self.inv(),
        ensures
            r == at(self.chars@, self.idx + 1, c),
    {
        self.idx < self.chars.len() && self.idx + 1 < self.chars.len() && self.chars[self.idx + 1]
            == c
    }

    /// Moves past the next character, if there is one, and gives it.
    pub(crate) fn advance(&mut self) -> (r: Option<char>)
        requires
            old(self).inv(),
        ensures
            final(self).inv(),
            final(self).chars@ == old(self).chars@,
            final(self).start == old(self).start,
            r == (if old(self).idx < old(self).chars.len() {
                Some(old(self).chars@[old(self).idx as int])
            } else {
                None
            }),
            final(self).idx == (if old(self).idx < old(self).chars.len() {
                old(self).idx + 1
            } else {
                old(self).idx as int
            }),
    {
        if self.idx < self.chars.len() {
            let c = self.chars[self.idx];
            proof {
                lemma_byte_offset_step(self.chars@, self.idx as int);
                lemma_byte_offset_mono(self.chars@, self.idx + 1, self.chars@.len() as int);
            }
            self.pos = self.pos + char_width(c);
            self.idx = self.idx + 1;
            Some(c)
        } else {
            None
        }
    }

    /// Moves past the run of characters of class `k` that starts here.
    pub(crate) fn scan_class(&mut self, k: CharClass)
        requires
            old(self).inv(),
        ensures
            final(self).inv(),
            final(self).chars@ == old(self).chars@,
            final(self).start == old(self).start,
            final(self).idx == scan(old(self).chars@, old(self).idx as int, k),
    {
        let ghost s = self.chars@;
        let ghost target = scan(s, self.idx as int, k);
        while self.idx < self.chars.len() && class_contains(self.chars[self.idx], k)
            invariant
                self.inv(),
                self.chars@ == s,
                self.start == old(self).start,
                scan(s, self.idx as int, k) == target,
            decreases self.chars.len() - self.idx,
        {
            self.advance();
        }
    }

    /// A token of the given kind from the token's start to here.
    pub(crate) fn token(&self, kind: TokenKind) -> (r: Token)
        ensures
            r.kind == kind,
            r.span == (Span { start: self.start, end: self.pos }),
    {
        Token::new(kind, Span::new(self.start, self.pos))
    }

    /// The span from byte offset `start` to here.
    pub(crate) fn span_from(&self, start: usize) -> (r: Span)
        ensures
            r == (Span { start, end: self.pos }),
    {
        Span::new(start, self.pos)
    }

    /// The span of the one byte here.
    fn single_span(&self) -> (r: Span)
        requires
            self.inv(),
            self.idx < self.chars.len(),
        ensures
            r == (Span { start: self.pos, end: (self.pos + 1) as usize }),
    {
        proof {
            lemma_byte_offset_step(self.chars@, self.idx as int);
            lemma_byte_offset_mono(self.chars@, self.idx + 1, self.chars@.len() as int);
        }
        Span::new(self.pos, self.pos + 1)
    }

    fn advance_and_return(&mut self, kind: TokenKind, Ghost(j): Ghost<int>) -> (r: Result<
        Token,
        LexError,
    >)
        requires
            old(self).inv(),
            old(self).idx == j,
            j < old(self).chars.len(),
            old(self).start == byte_offset(old(self).chars@, j),
        ensures
            final(self).inv(),
            final(self).chars@ == old(self).chars@,
            (view_result(r), final(self).idx as int) == ok(old(self).chars@, j, j + 1, kind@),
    {
        self.advance();
        Ok(self.token(kind))
    }

    /// A token of two characters when the one after this is `next`, else of
    /// one.
    fn one_or_two(&mut self, next: char, long: TokenKind, short: TokenKind, Ghost(j): Ghost<int>) -> (r:
        Result<Token, LexError>)
        requires
            old(self).inv(),
            old(self).idx == j,
            j < old(self).chars.len(),
            old(self).start == byte_offset(old(self).chars@, j),
        ensures
            final(self).inv(),
            final(self).chars@ == old(self).chars@,
            (view_result(r), final(self).idx as int) == one_or_two(
                old(self).chars@,
                j,
                next,
                long@,
                short@,
            ),
    {
        self.advance();
        if self.peek_is(next) {
            self.advance();
            Ok(self.token(long))
        } else {
            Ok(self.token(short))
        }
    }

    fn skip_whitespace_and_comments(&mut self)
        requires
            old(self).inv(),
        ensures
            final(self).inv(),
            final(self).chars@ == old(self).chars@,
            final(self).idx == skip_trivia(old(self).chars@, old(self).idx as int),
    {
        let ghost s = self.chars@;
        let ghost target = skip_trivia(s, self.idx as int);
        loop
            invariant
                self.inv(),
                self.chars@ == s,
                skip_trivia(s, self.idx as int) == target,
            ensures
                self.inv(),
                self.chars@ == s,
                self.idx == target,
            decreases self.chars.len() - self.idx,
        {
            let c = match self.peek() {
                Some(c) => c,
                None => break,
            };
            if is_whitespace(c) {
                self.advance();
            } else if c == '/' && self.peek2_is('/') {
                self.advance();
                self.advance();
                proof {
                    lemma_scan(s, self.idx as int, CharClass::NotNewline);
                }
                self.scan_class(CharClass::NotNewline);
            } else if c == '/' && self.peek2_is('*') {
                self.advance();
                self.advance();
                proof {
                    lemma_block_comment_end(s, self.idx as int, 1);
                }
                self.skip_block_comment();
            } else {
                break;
            }
        }
    }

    /// Moves past the rest of a block comment, and the comments nested in it.
    fn skip_block_comment(&mut self)
        requires
            old(self).inv(),
            old(self).idx >= 1,
        ensures
            final(self).inv(),
            final(self).chars@ == old(self).chars@,
            final(self).idx == block_comment_end(old(self).chars@, old(self).idx as int, 1),
    {
        let ghost s = self.chars@;
        let ghost target = block_comment_end(s, self.idx as int, 1);
        let mut depth: usize = 1;
        loop
            invariant_except_break
                1 <= depth <= self.idx,
                block_comment_end(s, self.idx as int, depth as nat) == target,
            invariant
                self.inv(),
                self.chars@ == s,
            ensures
                self.inv(),
                self.chars@ == s,
                self.idx == target,
            decreases self.chars.len() - self.idx,
        {
            match self.advance() {
                None => break,
                Some(c) => {
                    if c == '/' && self.peek_is('*') {
                        self.advance();
                        depth = depth + 1;
                    } else if c == '*' && self.peek_is('/') {
                        self.advance();
                        if depth == 1 {
                            break;
                        }
                        depth = depth - 1;
                    }
                },
            }
        }
    }

    // ---- punctuation ----
    fn lex_dot(&mut self, Ghost(j): Ghost<int>) -> (r: Result<Token, LexError>)
        requires
            old(self).inv(),
            old(self).idx == j,
            j < old(self).chars.len(),
            old(self).start == byte_offset(old(self).chars@, j),
        ensures
            final(self).inv(),
            final(self).chars@ == old(self).chars@,
            (view_result(r), final(self).idx as int) == lex_dot(old(self).chars@, j),
    {
        self.advance();
        if self.peek_is('.') {
            self.advance();
            if self.peek_is('=') {
                self.advance();
                Ok(self.token(TokenKind::DotDotEq))
            } else {
                Ok(self.token(TokenKind::DotDot))
            }
        } else {
            Ok(self.token(TokenKind::Dot))
        }
    }

    fn lex_amp(&mut self, Ghost(j): Ghost<int>) -> (r: Result<Token, LexError>)
        requires
            old(self).inv(),
            old(self).idx == j,
            j < old(self).chars.len(),
            old(self).chars@[j] == '&',
            old(self).start == byte_offset(old(self).chars@, j),
        ensures
            final(self).inv(),
            final(self).chars@ == old(self).chars@,
            (view_result(r), final(self).idx as int) == lex_amp(old(self).chars@, j),
    {
        let here = self.pos;
        self.advance();
        if self.peek_is('&') {
            self.advance();
            Ok(self.token(TokenKind::AmpAmp))
        } else {
            Err(LexError::UnexpectedAmpersand(self.span_from(here)))
        }
    }

    fn lex_pipe(&mut self, Ghost(j): Ghost<int>) -> (r: Result<Token, LexError>)
        requires
            old(self).inv(),
            old(self).idx == j,
            j < old(self).chars.len(),
            old(self).chars@[j] == '|',
            old(self).start == byte_offset(old(self).chars@, j),
        ensures
            final(self).inv(),
            final(self).chars@ == old(self).chars@,
            (view_result(r), final(self).idx as int) == lex_pipe(old(self).chars@, j),
    {
        let here = self.pos;
        self.advance();
        if self.peek_is('>') {
            self.advance();
            Ok(self.token(TokenKind::PipeR))
        } else if self.peek_is('|') {
            self.advance();
            Ok(self.token(TokenKind::PipePipe))
        } else {
            Err(LexError::UnexpectedPipe(self.span_from(here)))
        }
    }

    // ---- identifiers and keywords ----
    fn lex_ident_or_keyword(&mut self, Ghost(j): Ghost<int>) -> (r: Result<Token, LexError>)
        requires
            old(self).inv(),
            old(self).idx == j,
            j < old(self).chars.len(),
            old(self).start == byte_offset(old(self).chars@, j),
        ensures
            final(self).inv(),
            final(self).chars@ == old(self).chars@,
            (view_result(r), final(self).idx as int) == lex_ident(old(self).chars@, j),
    {
        let from = self.idx;
        proof {
            lemma_scan(self.chars@, j, CharClass::IdentContinue);
        }
        self.scan_class(CharClass::IdentContinue);
        let kind = keyword_kind(&self.chars, from, self.idx);
        Ok(self.token(kind))
    }
}

/// Whether `v[from..to]` is the word `w`.
pub(crate) fn is_word(v: &Vec<char>, from: usize, to: usize, w: &Vec<char>) -> (r: bool)
    requires
        from <= to <= v.len(),
    ensures
        r == (v@.subrange(from as int, to as int) == w@),
{
    if to - from != w.len() {
        return false;
    }
    let mut k: usize = 0;
    while k < w.len()
        invariant
            from <= to <= v.len(),
            to - from == w.len(),
            k <= w.len(),
            forall|m: int| 0 <= m < k ==> v@[from + m] == w@[m],
        decreases w.len() - k,
    {
        if v[from + k] != w[k] {
            assert(v@.subrange(from as int, to as int)[k as int] != w@[k as int]);
            return false;
        }
        k = k + 1;
    }
    assert(v@.subrange(from as int, to as int) =~= w@);
    true
}

/// The keyword that `v[from..to]` spells, or an identifier.
fn keyword_kind(v: &Vec<char>, from: usize, to: usize) -> (k: TokenKind)
    requires
        from <= to <= v.len(),
    ensures
        k@ == keyword_or_ident(v@.subrange(from as int, to as int)),
{
    let ghost t = v@.subrange(from as int, to as int);
    if is_word(v, from, to, &vec!['l', 'e', 't']) {
        assert(t == seq!['l', 'e', 't']);
        TokenKind::Let
    } else if is_word(v, from, to, &vec!['t', 'a', 'b', 'l', 'e']) {
        TokenKind::Table
    } else if is_word(v, from, to, &vec!['i', 'f']) {
        TokenKind::If
    } else if is_word(v, from, to, &vec!['e', 'l', 's', 'e']) {
        TokenKind::Else
    } else if is_word(v, from, to, &vec!['t', 'r', 'u', 'e']) {
        TokenKind::True
    } else if is_word(v, from, to, &vec!['f', 'a', 'l', 's', 'e']) {
        TokenKind::False
    } else {
        TokenKind::Ident(string_from_chars(v, from, to))
    }
}

} // verus!
