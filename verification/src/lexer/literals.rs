//! Reading number and string literals.
use vstd::prelude::*;

use super::error::LexError;
use super::grammar::{
    at, decimal_int, exponent_digits_start, float_with_exponent, lex_decimal, lex_number,
    lex_radix, lex_string, simple_escape, span_of, string_body,
};
use super::scan::{is_ascii_digit, is_digit, lemma_scan, parse_digits, scan, CharClass};
use super::token::{Span, Token, TokenKind};
use super::view_result;
use super::Lexer;
use crate::text::{
    byte_offset, char_from_u32, chars_without_underscores, lemma_byte_offset_mono, push_char,
    string_from_chars, string_without_underscores, without_underscores,
};

verus! {

impl Lexer {
    pub(crate) fn lex_number(&mut self, Ghost(j): Ghost<int>) -> (r: Result<Token, LexError>)
        requires
            old(self).inv(),
            old(self).idx == j,
            j < old(self).chars.len(),
            old(self).start == byte_offset(old(self).chars@, j),
        ensures
            final(self).inv(),
            final(self).chars@ == old(self).chars@,
            (view_result(r), final(self).idx as int) == lex_number(old(self).chars@, j),
    {
        if self.peek_is('0') {
            if self.peek2_is('x') || self.peek2_is('X') {
                return self.lex_hex_int(Ghost(j));
            } else if self.peek2_is('o') || self.peek2_is('O') {
                return self.lex_octal_int(Ghost(j));
            } else if self.peek2_is('b') || self.peek2_is('B') {
                return self.lex_binary_int(Ghost(j));
            }
        }
        self.lex_decimal(Ghost(j))
    }

    fn lex_decimal(&mut self, Ghost(j): Ghost<int>) -> (r: Result<Token, LexError>)
        requires
            old(self).inv(),
            old(self).idx == j,
            j < old(self).chars.len(),
            old(self).start == byte_offset(old(self).chars@, j),
        ensures
            final(self).inv(),
            final(self).chars@ == old(self).chars@,
            (view_result(r), final(self).idx as int) == lex_decimal(old(self).chars@, j),
    {
        let ghost s = self.chars@;
        let from = self.idx;
        proof {
            lemma_scan(s, j, CharClass::DigitOrUnderscore);
        }
        self.read_digits();
        let has_dot = self.peek_is('.') && match self.peek2() {
            Some(c) => is_ascii_digit(c),
            None => false,
        };
        if has_dot {
            self.advance();
            proof {
                lemma_scan(s, self.idx as int, CharClass::DigitOrUnderscore);
            }
            self.read_digits();
            if self.peek_is('e') || self.peek_is('E') {
                self.float_with_exponent(from, Ghost(j))
            } else {
                let text = string_without_underscores(&self.chars, from, self.idx);
                Ok(self.token(TokenKind::Float(text)))
            }
        } else if self.peek_is('e') || self.peek_is('E') {
            self.float_with_exponent(from, Ghost(j))
        } else {
            let clean = chars_without_underscores(&self.chars, from, self.idx);
            assert(clean@.subrange(0, clean@.len() as int) =~= clean@);
            match parse_digits(&clean, 0, clean.len(), 10, i64::MAX as u64) {
                Some(v) => Ok(self.token(TokenKind::Int(v as i64))),
                None => {
                    let raw = string_from_chars(&self.chars, from, self.idx);
                    Err(LexError::IntOverflow(raw, self.span_from(self.start)))
                },
            }
        }
    }

    /// Moves past the digits and digit separators here.
    fn read_digits(&mut self)
        requires
            old(self).inv(),
        ensures
            final(self).inv(),
            final(self).chars@ == old(self).chars@,
            final(self).start == old(self).start,
            final(self).idx == scan(old(self).chars@, old(self).idx as int, CharClass::DigitOrUnderscore),
    {
        self.scan_class(CharClass::DigitOrUnderscore)
    }

    /// Moves past an exponent: its `e`, its sign, and its digits.
    fn lex_float_exponent(&mut self)
        requires
            old(self).inv(),
            old(self).idx < old(self).chars.len(),
        ensures
            final(self).inv(),
            final(self).chars@ == old(self).chars@,
            final(self).start == old(self).start,
            final(self).idx == scan(
                old(self).chars@,
                exponent_digits_start(old(self).chars@, old(self).idx as int),
                CharClass::DigitOrUnderscore,
            ),
    {
        self.advance();
        if self.peek_is('+') || self.peek_is('-') {
            self.advance();
        }
        self.read_digits();
    }

    /// A float literal from `from` whose exponent mark is here.
    fn float_with_exponent(&mut self, from: usize, Ghost(j): Ghost<int>) -> (r: Result<
        Token,
        LexError,
    >)
        requires
            old(self).inv(),
            from == j,
            j <= old(self).idx < old(self).chars.len(),
            old(self).start == byte_offset(old(self).chars@, j),
        ensures
            final(self).inv(),
            final(self).chars@ == old(self).chars@,
            (view_result(r), final(self).idx as int) == float_with_exponent(
                old(self).chars@,
                j,
                old(self).idx as int,
            ),
    {
        let ghost s = self.chars@;
        let ghost e = self.idx as int;
        self.advance();
        if self.peek_is('+') || self.peek_is('-') {
            self.advance();
        }
        let k = self.idx;
        assert(k == exponent_digits_start(s, e));
        proof {
            lemma_scan(s, k as int, CharClass::DigitOrUnderscore);
        }
        self.read_digits();
        let exp_digits = chars_without_underscores(&self.chars, k, self.idx);
        if exp_digits.len() > 0 {
            let text = string_without_underscores(&self.chars, from, self.idx);
            Ok(self.token(TokenKind::Float(text)))
        } else {
            let raw = string_from_chars(&self.chars, from, self.idx);
            Err(LexError::InvalidFloat(raw, self.span_from(self.start)))
        }
    }

    fn lex_hex_int(&mut self, Ghost(j): Ghost<int>) -> (r: Result<Token, LexError>)
        requires
            old(self).inv(),
            old(self).idx == j,
            j + 1 < old(self).chars.len(),
            old(self).start == byte_offset(old(self).chars@, j),
        ensures
            final(self).inv(),
            final(self).chars@ == old(self).chars@,
            (view_result(r), final(self).idx as int) == lex_radix(
                old(self).chars@,
                j,
                16,
                'x',
                CharClass::HexOrUnderscore,
            ),
    {
        self.lex_int_radix(16, 'x', CharClass::HexOrUnderscore, Ghost(j))
    }

    fn lex_octal_int(&mut self, Ghost(j): Ghost<int>) -> (r: Result<Token, LexError>)
        requires
            old(self).inv(),
            old(self).idx == j,
            j + 1 < old(self).chars.len(),
            old(self).start == byte_offset(old(self).chars@, j),
        ensures
            final(self).inv(),
            final(self).chars@ == old(self).chars@,
            (view_result(r), final(self).idx as int) == lex_radix(
                old(self).chars@,
                j,
                8,
                'o',
                CharClass::OctalOrUnderscore,
            ),
    {
        self.lex_int_radix(8, 'o', CharClass::OctalOrUnderscore, Ghost(j))
    }

    fn lex_binary_int(&mut self, Ghost(j): Ghost<int>) -> (r: Result<Token, LexError>)
        requires
            old(self).inv(),
            old(self).idx == j,
            j + 1 < old(self).chars.len(),
            old(self).start == byte_offset(old(self).chars@, j),
        ensures
            final(self).inv(),
            final(self).chars@ == old(self).chars@,
            (view_result(r), final(self).idx as int) == lex_radix(
                old(self).chars@,
                j,
                2,
                'b',
                CharClass::BinaryOrUnderscore,
            ),
    {
        self.lex_int_radix(2, 'b', CharClass::BinaryOrUnderscore, Ghost(j))
    }

    /// An integer literal with a two-character radix prefix, whose letter in
    /// lower case is `lower`.
    fn lex_int_radix(&mut self, radix: u64, lower: char, k: CharClass, Ghost(j): Ghost<int>) -> (r:
        Result<Token, LexError>)
        requires
            old(self).inv(),
            old(self).idx == j,
            j + 1 < old(self).chars.len(),
            old(self).start == byte_offset(old(self).chars@, j),
            2 <= radix <= 16,
        ensures
            final(self).inv(),
            final(self).chars@ == old(self).chars@,
            (view_result(r), final(self).idx as int) == lex_radix(
                old(self).chars@,
                j,
                radix as int,
                lower,
                k,
            ),
    {
        let ghost s = self.chars@;
        let from = self.idx;
        self.advance();
        self.advance();
        proof {
            lemma_scan(s, j + 2, k);
        }
        self.scan_class(k);
        let raw = string_from_chars(&self.chars, from, self.idx);
        if self.chars[from + 1] == lower {
            let clean = chars_without_underscores(&self.chars, from + 2, self.idx);
            if clean.len() == 0 {
                return Err(LexError::EmptyIntLiteral(raw, self.span_from(self.start)));
            }
            assert(clean@.subrange(0, clean@.len() as int) =~= clean@);
            match parse_digits(&clean, 0, clean.len(), radix, i64::MAX as u64) {
                Some(v) => Ok(self.token(TokenKind::Int(v as i64))),
                None => Err(LexError::IntOverflow(raw, self.span_from(self.start))),
            }
        } else {
            Err(LexError::IntOverflow(raw, self.span_from(self.start)))
        }
    }

    pub(crate) fn lex_string(&mut self, Ghost(j): Ghost<int>) -> (r: Result<Token, LexError>)
        requires
            old(self).inv(),
            old(self).idx == j,
            j < old(self).chars.len(),
            old(self).start == byte_offset(old(self).chars@, j),
        ensures
            final(self).inv(),
            final(self).chars@ == old(self).chars@,
            (view_result(r), final(self).idx as int) == lex_string(old(self).chars@, j),
    {
        let ghost s = self.chars@;
        let ghost target = lex_string(s, j);
        self.advance();
        let mut value = String::new();
        loop
            invariant
                self.inv(),
                self.chars@ == s,
                s == old(self).chars@,
                target == lex_string(s, j),
                self.start == byte_offset(s, j),
                j < self.idx,
                string_body(s, j, self.idx as int, value@) == target,
            decreases self.chars.len() - self.idx,
        {
            let ghost i = self.idx as int;
            let here = self.pos;
            let esc = self.idx;
            match self.advance() {
                None => {
                    return Err(LexError::UnclosedString(self.span_from(self.start)));
                },
                Some('\n') => {
                    return Err(LexError::UnclosedString(self.span_from(self.start)));
                },
                Some('"') => {
                    return Ok(self.token(TokenKind::Str(value)));
                },
                Some('\\') => {
                    match self.advance() {
                        None => {
                            return Err(LexError::UnclosedString(self.span_from(self.start)));
                        },
                        Some('\n') => {},
                        Some('"') => push_char(&mut value, '"'),
                        Some('\\') => push_char(&mut value, '\\'),
                        Some('n') => push_char(&mut value, '\n'),
                        Some('t') => push_char(&mut value, '\t'),
                        Some('r') => push_char(&mut value, '\r'),
                        Some('0') => push_char(&mut value, '\0'),
                        Some('u') => {
                            if !self.peek_is('{') {
                                return Err(
                                    LexError::InvalidUnicodeEscape(
                                        string_from_chars(&self.chars, esc + 2, self.idx),
                                        self.span_from(here),
                                    ),
                                );
                            }
                            self.advance();
                            let hex_start = self.idx;
                            proof {
                                lemma_scan(s, hex_start as int, CharClass::HexDigit);
                            }
                            self.scan_class(CharClass::HexDigit);
                            let n = self.idx - hex_start;
                            if n == 0 || n > 6 || !self.peek_is('}') {
                                return Err(
                                    LexError::InvalidUnicodeEscape(
                                        string_from_chars(&self.chars, esc + 2, self.idx),
                                        self.span_from(here),
                                    ),
                                );
                            }
                            let hex_end = self.idx;
                            self.advance();
                            let code = match parse_digits(
                                &self.chars,
                                hex_start,
                                hex_end,
                                16,
                                u32::MAX as u64,
                            ) {
                                Some(v) => v as u32,
                                None => {
                                    return Err(
                                        LexError::InvalidUnicodeEscape(
                                            string_from_chars(&self.chars, esc + 2, self.idx),
                                            self.span_from(here),
                                        ),
                                    );
                                },
                            };
                            match char_from_u32(code) {
                                Some(c) => {
                                    proof {
                                        vstd::utf8::char_u32_cast(c, code);
                                    }
                                    push_char(&mut value, c);
                                },
                                None => {
                                    return Err(
                                        LexError::InvalidUnicodeCodePoint(
                                            code,
                                            self.span_from(here),
                                        ),
                                    );
                                },
                            }
                        },
                        Some(ch) => {
                            return Err(LexError::InvalidEscape(ch, self.span_from(here)));
                        },
                    }
                },
                Some(c) => push_char(&mut value, c),
            }
        }
    }
}

} // verus!
