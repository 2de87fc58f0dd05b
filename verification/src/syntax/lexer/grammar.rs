//! What the parser's lexer reads: for source text `s` and a character index
//! `i`, the token (or error) that comes next and the index after it.
use vstd::prelude::*;

use super::error::{LexicalError, LexicalErrorKind};
use super::token::{Tok, TokView};
use crate::lexer::scan::{digits_value, is_ascii_alphabetic, is_digit, lemma_scan, scan, CharClass};
use crate::syntax::error::Span;
use crate::text::byte_offset;

verus! {

/// A token or an error, and the index where reading goes on.
pub type Read = (Result<TokView, LexicalError>, int);

pub open spec fn at(s: Seq<char>, i: int, c: char) -> bool {
    0 <= i < s.len() && s[i] == c
}

/// The byte span of the characters `s[a..b]`.
pub open spec fn span_of(s: Seq<char>, a: int, b: int) -> Span {
    Span { start: byte_offset(s, a) as usize, end: byte_offset(s, b) as usize }
}

pub open spec fn token(s: Seq<char>, a: int, b: int, k: Tok) -> Read {
    (Ok(TokView { kind: k, span: span_of(s, a, b) }), b)
}

pub open spec fn error(s: Seq<char>, a: int, b: int, k: LexicalErrorKind) -> Read {
    (Err(LexicalError { kind: k, span: span_of(s, a, b) }), b)
}

/// Two spans of text that overlap or touch, the first starting first and
/// the second ending last, merge into the span from the start of the first
/// to the end of the second.
pub proof fn lemma_merge_spans(s: Seq<char>, a: int, b: int, c: int, d: int)
    requires
        0 <= a <= b <= d <= s.len(),
        a <= c <= d,
        crate::text::byte_len(s) <= usize::MAX,
    ensures
        crate::syntax::error::merged(span_of(s, a, b), span_of(s, c, d)) == span_of(s, a, d),
{
    crate::text::lemma_byte_offset_mono(s, a, b);
    crate::text::lemma_byte_offset_mono(s, a, c);
    crate::text::lemma_byte_offset_mono(s, b, d);
    crate::text::lemma_byte_offset_mono(s, c, d);
    crate::text::lemma_byte_offset_mono(s, d, s.len() as int);
    crate::text::lemma_byte_offset_at_least_index(s, a);
}

// ---- white space and comments ----
/// The rest of a block comment from `i`, with `depth` comments open: the index
/// after the `*/` that closes the outermost, `Err` with the end of the text
/// when that comes first, or `None` where the lexer stops making progress (a
/// `/` or `*` that starts no comment delimiter).
pub open spec fn block_comment(s: Seq<char>, i: int, depth: int) -> Option<Result<int, int>>
    decreases s.len() - i,
{
    if i < 0 || i > s.len() {
        None
    } else {
        let p = scan(s, i, CharClass::NotSlashNorStar);
        proof {
            lemma_scan(s, i, CharClass::NotSlashNorStar);
        }
        if p >= s.len() {
            Some(Err(s.len() as int))
        } else if s[p] == '/' && at(s, p + 1, '*') {
            block_comment(s, p + 2, depth + 1)
        } else if s[p] == '*' && at(s, p + 1, '/') {
            if depth - 1 == 0 {
                Some(Ok(p + 2))
            } else {
                block_comment(s, p + 2, depth - 1)
            }
        } else {
            None
        }
    }
}

/// Where white space and comments from `i` end: `Ok` with the index of the
/// first character after them, `Err` with the end of the text for a comment
/// left open, or `None` where the lexer stops making progress.
pub open spec fn trivia(s: Seq<char>, i: int) -> Option<Result<int, int>>
    decreases s.len() - i,
{
    if i < 0 || i > s.len() {
        None
    } else {
        let w = scan(s, i, CharClass::AsciiWhitespace);
        proof {
            lemma_scan(s, i, CharClass::AsciiWhitespace);
        }
        if at(s, w, '/') && at(s, w + 1, '/') {
            let e = scan(s, w, CharClass::NotNewline);
            proof {
                lemma_scan(s, w, CharClass::NotNewline);
            }
            trivia(s, if e < s.len() { e + 1 } else { e })
        } else if at(s, w, '/') && at(s, w + 1, '*') {
            proof {
                lemma_block_comment(s, w, 0);
            }
            match block_comment(s, w, 0) {
                None => None,
                Some(Err(e)) => Some(Err(e)),
                Some(Ok(k)) => trivia(s, k),
            }
        } else {
            Some(Ok(w))
        }
    }
}

pub proof fn lemma_block_comment(s: Seq<char>, i: int, depth: int)
    requires
        0 <= i <= s.len(),
    ensures
        block_comment(s, i, depth) matches Some(Ok(k)) ==> i + 2 <= k <= s.len(),
        block_comment(s, i, depth) matches Some(Err(e)) ==> e == s.len(),
    decreases s.len() - i,
{
    let p = scan(s, i, CharClass::NotSlashNorStar);
    lemma_scan(s, i, CharClass::NotSlashNorStar);
    if p < s.len() {
        if s[p] == '/' && at(s, p + 1, '*') {
            lemma_block_comment(s, p + 2, depth + 1);
        } else if s[p] == '*' && at(s, p + 1, '/') {
            if depth - 1 != 0 {
                lemma_block_comment(s, p + 2, depth - 1);
            }
        }
    }
}

pub proof fn lemma_trivia(s: Seq<char>, i: int)
    requires
        0 <= i <= s.len(),
    ensures
        trivia(s, i) matches Some(Ok(k)) ==> i <= k <= s.len(),
        trivia(s, i) matches Some(Err(e)) ==> e == s.len() && i < e,
    decreases s.len() - i,
{
    let w = scan(s, i, CharClass::AsciiWhitespace);
    lemma_scan(s, i, CharClass::AsciiWhitespace);
    if at(s, w, '/') && at(s, w + 1, '/') {
        let e = scan(s, w, CharClass::NotNewline);
        lemma_scan(s, w, CharClass::NotNewline);
        lemma_trivia(s, if e < s.len() { e + 1 } else { e });
    } else if at(s, w, '/') && at(s, w + 1, '*') {
        lemma_block_comment(s, w, 0);
        match block_comment(s, w, 0) {
            Some(Ok(k)) => lemma_trivia(s, k),
            _ => {},
        }
    }
}

// ---- tokens ----
/// A token of the next `n` characters.
pub open spec fn chars(s: Seq<char>, j: int, n: int, k: Tok) -> Read {
    token(s, j, j + n, k)
}

/// The keyword spelled by `t`, or an identifier.
pub open spec fn keyword_or_ident(t: Seq<char>) -> Tok {
    if t == seq!['i', 'f'] {
        Tok::If
    } else if t == seq!['l', 'e', 't'] {
        Tok::Let
    } else if t == seq!['c', 'r', 'e', 'a', 't', 'e'] {
        Tok::Create
    } else if t == seq!['s', 'e', 't'] {
        Tok::SetKeyword
    } else if t == seq!['m', 'i', 'g', 'r', 'a', 't', 'e'] {
        Tok::Migrate
    } else if t == seq!['d', 'r', 'o', 'p'] {
        Tok::Drop
    } else {
        Tok::Ident(t)
    }
}

pub open spec fn read_ident(s: Seq<char>, j: int) -> Read {
    let e = scan(s, j, CharClass::AsciiWord);
    token(s, j, e, keyword_or_ident(s.subrange(j, e)))
}

/// The rest of a string literal that opened at `j`, from `k` on. The text is
/// kept as written; `\"` does not end it.
pub open spec fn string_rest(s: Seq<char>, j: int, k: int) -> Read
    decreases s.len() - k,
{
    if k < 0 || k > s.len() {
        error(s, j, s.len() as int, LexicalErrorKind::UnclosedStringLit)
    } else {
        let p = scan(s, k, CharClass::NotQuoteNorBackslash);
        proof {
            lemma_scan(s, k, CharClass::NotQuoteNorBackslash);
        }
        if p >= s.len() {
            error(s, j, s.len() as int, LexicalErrorKind::UnclosedStringLit)
        } else if s[p] == '"' {
            token(s, j, p + 1, Tok::StringLit(s.subrange(j + 1, p)))
        } else if at(s, p + 1, '"') {
            string_rest(s, j, p + 2)
        } else {
            string_rest(s, j, p + 1)
        }
    }
}

pub open spec fn read_string(s: Seq<char>, j: int) -> Read {
    string_rest(s, j, j + 1)
}

/// The radix of a number at `j`: set by a `0x`, `0o` or `0b` prefix.
pub open spec fn radix_at(s: Seq<char>, j: int) -> int {
    if at(s, j, '0') && at(s, j + 1, 'x') {
        16
    } else if at(s, j, '0') && at(s, j + 1, 'o') {
        8
    } else if at(s, j, '0') && at(s, j + 1, 'b') {
        2
    } else {
        10
    }
}

pub open spec fn radix_class(radix: int) -> CharClass {
    if radix == 16 {
        CharClass::HexDigit
    } else if radix == 8 {
        CharClass::OctalDigit
    } else if radix == 2 {
        CharClass::BinaryDigit
    } else {
        CharClass::Digit
    }
}

pub open spec fn float_error(radix: int) -> LexicalErrorKind {
    if radix == 16 {
        LexicalErrorKind::HexadecimalFloat
    } else if radix == 8 {
        LexicalErrorKind::OctalFloat
    } else {
        LexicalErrorKind::BinaryFloat
    }
}

/// A number at `j`: an integer in its radix, or a decimal float. The spans
/// leave out a radix prefix.
pub open spec fn read_numeric(s: Seq<char>, j: int) -> Read {
    let radix = radix_at(s, j);
    let k = if radix != 10 {
        j + 2
    } else {
        j
    };
    let ie = scan(s, k, radix_class(radix));
    if ie == k {
        error(
            s,
            k,
            k,
            LexicalErrorKind::InternalError("expected number to have length >= 1"),
        )
    } else {
        number_rest(s, k, ie, radix)
    }
}

/// A number whose digits in its radix are `s[k..ie]`, with what follows them:
/// a fraction and an exponent make it a float.
pub open spec fn number_rest(s: Seq<char>, k: int, ie: int, radix: int) -> Read {
    let has_frac = at(s, ie, '.') && ie + 1 < s.len() && is_digit(s[ie + 1]);
    let fe = if has_frac {
        scan(s, ie + 1, CharClass::Digit)
    } else {
        ie
    };
    let has_exp = at(s, fe, 'e') || at(s, fe, 'E');
    let es = if at(s, fe + 1, '-') || at(s, fe + 1, '+') {
        fe + 2
    } else {
        fe + 1
    };
    let ee = scan(s, es, CharClass::Digit);
    if has_exp && ee == es {
        error(s, k, es, LexicalErrorKind::IncompleteFloatExponent)
    } else if !has_frac && !has_exp {
        let v = digits_value(s.subrange(k, ie), radix);
        if v > i64::MAX {
            error(s, k, ie, LexicalErrorKind::IntegerOverflow)
        } else {
            token(s, k, ie, Tok::IntLit(v as i64))
        }
    } else {
        let end = if has_exp {
            ee
        } else {
            fe
        };
        if radix != 10 {
            error(s, k, end, float_error(radix))
        } else {
            token(s, k, end, Tok::FloatLit(s.subrange(k, end)))
        }
    }
}

pub open spec fn read_triple_dot(s: Seq<char>, j: int) -> Read {
    if at(s, j + 2, '.') {
        token(s, j, j + 3, Tok::TripleDot)
    } else {
        error(s, j, j + 2, LexicalErrorKind::IncompleteToken("..."))
    }
}

/// The token at `j`, with `c` the character there.
pub open spec fn read_at(s: Seq<char>, j: int) -> Read {
    let c = s[j];
    if c == '_' || is_ascii_alphabetic(c) {
        read_ident(s, j)
    } else if is_digit(c) {
        read_numeric(s, j)
    } else if c == '"' {
        read_string(s, j)
    } else if c == '+' {
        chars(s, j, 1, Tok::Plus)
    } else if c == '-' {
        chars(s, j, 1, Tok::Minus)
    } else if c == '*' {
        chars(s, j, 1, Tok::Star)
    } else if c == '/' {
        chars(s, j, 1, Tok::Slash)
    } else if c == '%' {
        chars(s, j, 1, Tok::Percent)
    } else if c == '|' && at(s, j + 1, '|') {
        chars(s, j, 2, Tok::LogicalOr)
    } else if c == '|' && at(s, j + 1, '>') {
        chars(s, j, 2, Tok::Pipeline)
    } else if c == '|' {
        error(s, j, j + 1, LexicalErrorKind::IncompleteToken("||"))
    } else if c == '&' && at(s, j + 1, '&') {
        chars(s, j, 2, Tok::LogicalAnd)
    } else if c == '&' {
        error(s, j, j + 1, LexicalErrorKind::IncompleteToken("&&"))
    } else if c == '!' && at(s, j + 1, '=') {
        chars(s, j, 2, Tok::NotEqual)
    } else if c == '!' {
        chars(s, j, 1, Tok::Bang)
    } else if c == '=' && at(s, j + 1, '=') {
        chars(s, j, 2, Tok::Equal)
    } else if c == '=' {
        chars(s, j, 1, Tok::Assign)
    } else if c == '>' && at(s, j + 1, '=') {
        chars(s, j, 2, Tok::GreaterEqual)
    } else if c == '>' {
        chars(s, j, 1, Tok::Greater)
    } else if c == '<' && at(s, j + 1, '=') {
        chars(s, j, 2, Tok::LessEqual)
    } else if c == '<' {
        chars(s, j, 1, Tok::Less)
    } else if c == ';' {
        chars(s, j, 1, Tok::Semicolon)
    } else if c == ':' && at(s, j + 1, ':') {
        chars(s, j, 2, Tok::DoubleColon)
    } else if c == ':' {
        chars(s, j, 1, Tok::Colon)
    } else if c == ',' {
        chars(s, j, 1, Tok::Comma)
    } else if c == '.' && at(s, j + 1, '.') {
        read_triple_dot(s, j)
    } else if c == '.' {
        chars(s, j, 1, Tok::Dot)
    } else if c == '(' {
        chars(s, j, 1, Tok::LParen)
    } else if c == ')' {
        chars(s, j, 1, Tok::RParen)
    } else if c == '[' {
        chars(s, j, 1, Tok::LBracket)
    } else if c == ']' {
        chars(s, j, 1, Tok::RBracket)
    } else if c == '{' {
        chars(s, j, 1, Tok::LBrace)
    } else if c == '}' {
        chars(s, j, 1, Tok::RBrace)
    } else {
        error(s, j, j + 1, LexicalErrorKind::UnknownCharacter(c))
    }
}

/// What reading a token from index `i` gives: the token or error and the
/// index after it, or `None` where the lexer stops making progress inside a
/// block comment.
pub open spec fn read_token(s: Seq<char>, i: int) -> Option<Read> {
    match trivia(s, i) {
        None => None,
        Some(Err(e)) => Some(error(s, i, e, LexicalErrorKind::UnclosedComment)),
        Some(Ok(j)) => if j >= s.len() {
            Some(token(s, j, j, Tok::Eof))
        } else {
            Some(read_at(s, j))
        },
    }
}

} // verus!
