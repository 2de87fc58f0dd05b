//! What the lexer reads: for source text `s` and a character index `i`, the
//! token (or error) that comes next and the index after it.
//!
//! Positions here are character indices; spans are the UTF-8 byte offsets of
//! those indices.
use vstd::prelude::*;

use super::calendar::{date_exists, time_exists, unix_seconds};
use super::error::LexErr;
use super::scan::{
    digits_value, ident_continue, ident_start, is_digit, lemma_scan, nanos_value, scan, CharClass,
};
use super::token::{Kind, Span, TokenView};
use crate::text::{byte_offset, is_scalar_value, unicode_white_space, without_underscores};

verus! {

/// A token or an error, and the index where reading goes on.
pub type Lexed = (Result<TokenView, LexErr>, int);

/// Whether `s` has the character `c` at index `i`.
pub open spec fn at(s: Seq<char>, i: int, c: char) -> bool {
    0 <= i < s.len() && s[i] == c
}

/// The byte span of the characters `s[a..b]`.
pub open spec fn span_of(s: Seq<char>, a: int, b: int) -> Span {
    Span { start: byte_offset(s, a) as usize, end: byte_offset(s, b) as usize }
}

pub open spec fn ok(s: Seq<char>, a: int, b: int, k: Kind) -> Lexed {
    (Ok(TokenView { kind: k, span: span_of(s, a, b) }), b)
}

pub open spec fn fail(e: LexErr, next: int) -> Lexed {
    (Err(e), next)
}

// ---- whitespace and comments ----
/// Where a block comment whose body starts at `i` ends, `depth` comments
/// deep: after the `*/` that closes the outermost one, or at the end of the
/// text. Comments nest.
pub open spec fn block_comment_end(s: Seq<char>, i: int, depth: nat) -> int
    decreases s.len() - i,
{
    if i < 0 || i >= s.len() {
        s.len() as int
    } else if s[i] == '/' && at(s, i + 1, '*') {
        block_comment_end(s, i + 2, depth + 1)
    } else if s[i] == '*' && at(s, i + 1, '/') {
        if depth <= 1 {
            i + 2
        } else {
            block_comment_end(s, i + 2, (depth - 1) as nat)
        }
    } else {
        block_comment_end(s, i + 1, depth)
    }
}

pub proof fn lemma_block_comment_end(s: Seq<char>, i: int, depth: nat)
    requires
        0 <= i <= s.len(),
    ensures
        i <= block_comment_end(s, i, depth) <= s.len(),
    decreases s.len() - i,
{
    if i < s.len() {
        if s[i] == '/' && at(s, i + 1, '*') {
            lemma_block_comment_end(s, i + 2, depth + 1);
        } else if s[i] == '*' && at(s, i + 1, '/') {
            if depth > 1 {
                lemma_block_comment_end(s, i + 2, (depth - 1) as nat);
            }
        } else {
            lemma_block_comment_end(s, i + 1, depth);
        }
    }
}

/// The index of the first character from `i` on that is neither white space
/// nor part of a comment.
pub open spec fn skip_trivia(s: Seq<char>, i: int) -> int
    decreases s.len() - i,
{
    if 0 <= i < s.len() {
        if unicode_white_space(s[i]) {
            skip_trivia(s, i + 1)
        } else if s[i] == '/' && at(s, i + 1, '/') {
            proof {
                lemma_scan(s, i + 2, CharClass::NotNewline);
            }
            skip_trivia(s, scan(s, i + 2, CharClass::NotNewline))
        } else if s[i] == '/' && at(s, i + 1, '*') {
            proof {
                lemma_block_comment_end(s, i + 2, 1);
            }
            skip_trivia(s, block_comment_end(s, i + 2, 1))
        } else {
            i
        }
    } else {
        i
    }
}

pub proof fn lemma_skip_trivia(s: Seq<char>, i: int)
    requires
        0 <= i <= s.len(),
    ensures
        i <= skip_trivia(s, i) <= s.len(),
    decreases s.len() - i,
{
    if i < s.len() {
        if unicode_white_space(s[i]) {
            lemma_skip_trivia(s, i + 1);
        } else if s[i] == '/' && at(s, i + 1, '/') {
            lemma_scan(s, i + 2, CharClass::NotNewline);
            lemma_skip_trivia(s, scan(s, i + 2, CharClass::NotNewline));
        } else if s[i] == '/' && at(s, i + 1, '*') {
            lemma_block_comment_end(s, i + 2, 1);
            lemma_skip_trivia(s, block_comment_end(s, i + 2, 1));
        }
    }
}

// ---- punctuation ----
pub open spec fn single(s: Seq<char>, j: int, k: Kind) -> Lexed {
    ok(s, j, j + 1, k)
}

/// A token of two characters when the second one is `next`, else of one.
pub open spec fn one_or_two(s: Seq<char>, j: int, next: char, long: Kind, short: Kind) -> Lexed {
    if at(s, j + 1, next) {
        ok(s, j, j + 2, long)
    } else {
        ok(s, j, j + 1, short)
    }
}

pub open spec fn lex_dot(s: Seq<char>, j: int) -> Lexed {
    if at(s, j + 1, '.') {
        if at(s, j + 2, '=') {
            ok(s, j, j + 3, Kind::DotDotEq)
        } else {
            ok(s, j, j + 2, Kind::DotDot)
        }
    } else {
        ok(s, j, j + 1, Kind::Dot)
    }
}

pub open spec fn lex_amp(s: Seq<char>, j: int) -> Lexed {
    if at(s, j + 1, '&') {
        ok(s, j, j + 2, Kind::AmpAmp)
    } else {
        fail(LexErr::UnexpectedAmpersand(span_of(s, j, j + 1)), j + 1)
    }
}

pub open spec fn lex_pipe(s: Seq<char>, j: int) -> Lexed {
    if at(s, j + 1, '>') {
        ok(s, j, j + 2, Kind::PipeR)
    } else if at(s, j + 1, '|') {
        ok(s, j, j + 2, Kind::PipePipe)
    } else {
        fail(LexErr::UnexpectedPipe(span_of(s, j, j + 1)), j + 1)
    }
}

// ---- identifiers and keywords ----
/// The keyword spelled by `t`, or an identifier.
pub open spec fn keyword_or_ident(t: Seq<char>) -> Kind {
    if t == seq!['l', 'e', 't'] {
        Kind::Let
    } else if t == seq!['t', 'a', 'b', 'l', 'e'] {
        Kind::Table
    } else if t == seq!['i', 'f'] {
        Kind::If
    } else if t == seq!['e', 'l', 's', 'e'] {
        Kind::Else
    } else if t == seq!['t', 'r', 'u', 'e'] {
        Kind::True
    } else if t == seq!['f', 'a', 'l', 's', 'e'] {
        Kind::False
    } else {
        Kind::Ident(t)
    }
}

pub open spec fn lex_ident(s: Seq<char>, j: int) -> Lexed {
    let e = scan(s, j, CharClass::IdentContinue);
    ok(s, j, e, keyword_or_ident(s.subrange(j, e)))
}

// ---- numbers ----
/// Where the digits of an exponent start, after its `e` at `e` and its sign.
pub open spec fn exponent_digits_start(s: Seq<char>, e: int) -> int {
    if at(s, e + 1, '+') || at(s, e + 1, '-') {
        e + 2
    } else {
        e + 1
    }
}

/// A float literal `s[j..]` whose exponent mark is at `e`: an error when the
/// exponent has no digit.
pub open spec fn float_with_exponent(s: Seq<char>, j: int, e: int) -> Lexed {
    let k = exponent_digits_start(s, e);
    let end = scan(s, k, CharClass::DigitOrUnderscore);
    let raw = s.subrange(j, end);
    if without_underscores(s.subrange(k, end)).len() > 0 {
        ok(s, j, end, Kind::Float(without_underscores(raw)))
    } else {
        fail(LexErr::InvalidFloat(raw, span_of(s, j, end)), end)
    }
}

/// A decimal integer literal `s[j..end]`: an error when its value does not
/// fit in an `i64`.
pub open spec fn decimal_int(s: Seq<char>, j: int, end: int) -> Lexed {
    let raw = s.subrange(j, end);
    let v = digits_value(without_underscores(raw), 10);
    if v <= i64::MAX {
        ok(s, j, end, Kind::Int(v as i64))
    } else {
        fail(LexErr::IntOverflow(raw, span_of(s, j, end)), end)
    }
}

pub open spec fn lex_decimal(s: Seq<char>, j: int) -> Lexed {
    let e1 = scan(s, j, CharClass::DigitOrUnderscore);
    if at(s, e1, '.') && e1 + 1 < s.len() && is_digit(s[e1 + 1]) {
        let e2 = scan(s, e1 + 1, CharClass::DigitOrUnderscore);
        if at(s, e2, 'e') || at(s, e2, 'E') {
            float_with_exponent(s, j, e2)
        } else {
            ok(s, j, e2, Kind::Float(without_underscores(s.subrange(j, e2))))
        }
    } else if at(s, e1, 'e') || at(s, e1, 'E') {
        float_with_exponent(s, j, e1)
    } else {
        decimal_int(s, j, e1)
    }
}

/// An integer literal with a radix prefix (`0x`, `0o`, `0b`, whose letter is
/// `lower` in lower case) at `j`. Only the lower-case prefix is stripped: with
/// an upper-case one the letter is read as a digit, which it never is, and
/// the literal overflows.
pub open spec fn lex_radix(s: Seq<char>, j: int, radix: int, lower: char, k: CharClass) -> Lexed {
    let end = scan(s, j + 2, k);
    let raw = s.subrange(j, end);
    if s[j + 1] == lower {
        let clean = without_underscores(s.subrange(j + 2, end));
        if clean.len() == 0 {
            fail(LexErr::EmptyIntLiteral(raw, span_of(s, j, end)), end)
        } else if digits_value(clean, radix) <= i64::MAX {
            ok(s, j, end, Kind::Int(digits_value(clean, radix) as i64))
        } else {
            fail(LexErr::IntOverflow(raw, span_of(s, j, end)), end)
        }
    } else {
        fail(LexErr::IntOverflow(raw, span_of(s, j, end)), end)
    }
}

pub open spec fn lex_number(s: Seq<char>, j: int) -> Lexed {
    if s[j] == '0' && (at(s, j + 1, 'x') || at(s, j + 1, 'X')) {
        lex_radix(s, j, 16, 'x', CharClass::HexOrUnderscore)
    } else if s[j] == '0' && (at(s, j + 1, 'o') || at(s, j + 1, 'O')) {
        lex_radix(s, j, 8, 'o', CharClass::OctalOrUnderscore)
    } else if s[j] == '0' && (at(s, j + 1, 'b') || at(s, j + 1, 'B')) {
        lex_radix(s, j, 2, 'b', CharClass::BinaryOrUnderscore)
    } else {
        lex_decimal(s, j)
    }
}

// ---- strings ----
/// The character that the simple escape `\c` stands for, if `c` is one.
pub open spec fn simple_escape(c: char) -> Option<char> {
    if c == '"' {
        Some('"')
    } else if c == '\\' {
        Some('\\')
    } else if c == 'n' {
        Some('\n')
    } else if c == 't' {
        Some('\t')
    } else if c == 'r' {
        Some('\r')
    } else if c == '0' {
        Some('\0')
    } else {
        None
    }
}

/// The rest of a string literal that opened at `j`, from `i` on, with `acc`
/// read so far.
pub open spec fn string_body(s: Seq<char>, j: int, i: int, acc: Seq<char>) -> Lexed
    decreases s.len() - i,
{
    if i < 0 || i >= s.len() {
        fail(LexErr::UnclosedString(span_of(s, j, s.len() as int)), s.len() as int)
    } else if s[i] == '\n' {
        fail(LexErr::UnclosedString(span_of(s, j, i + 1)), i + 1)
    } else if s[i] == '"' {
        ok(s, j, i + 1, Kind::Str(acc))
    } else if s[i] == '\\' {
        if i + 1 >= s.len() {
            fail(LexErr::UnclosedString(span_of(s, j, s.len() as int)), s.len() as int)
        } else if s[i + 1] == '\n' {
            string_body(s, j, i + 2, acc)
        } else if simple_escape(s[i + 1]) is Some {
            string_body(s, j, i + 2, acc.push(simple_escape(s[i + 1])->0))
        } else if s[i + 1] == 'u' {
            if !at(s, i + 2, '{') {
                fail(LexErr::InvalidUnicodeEscape(s.subrange(i + 2, i + 2), span_of(s, i, i + 2)), i + 2)
            } else {
                let hex_end = scan(s, i + 3, CharClass::HexDigit);
                let n = hex_end - (i + 3);
                proof {
                    lemma_scan(s, i + 3, CharClass::HexDigit);
                }
                if n == 0 || n > 6 || !at(s, hex_end, '}') {
                    fail(
                        LexErr::InvalidUnicodeEscape(s.subrange(i + 2, hex_end), span_of(s, i, hex_end)),
                        hex_end,
                    )
                } else {
                    let code = digits_value(s.subrange(i + 3, hex_end), 16);
                    if code > u32::MAX {
                        fail(
                            LexErr::InvalidUnicodeEscape(
                                s.subrange(i + 2, hex_end + 1),
                                span_of(s, i, hex_end + 1),
                            ),
                            hex_end + 1,
                        )
                    } else if !is_scalar_value(code as u32) {
                        fail(
                            LexErr::InvalidUnicodeCodePoint(code as u32, span_of(s, i, hex_end + 1)),
                            hex_end + 1,
                        )
                    } else {
                        string_body(s, j, hex_end + 1, acc.push((code as u32) as char))
                    }
                }
            }
        } else {
            fail(LexErr::InvalidEscape(s[i + 1], span_of(s, i, i + 2)), i + 2)
        }
    } else {
        string_body(s, j, i + 1, acc.push(s[i]))
    }
}

pub open spec fn lex_string(s: Seq<char>, j: int) -> Lexed {
    string_body(s, j, j + 1, Seq::empty())
}

// ---- instants ----
/// How many characters of `w` the text matches from `k` on before the first
/// difference.
pub open spec fn matched_len(s: Seq<char>, k: int, w: Seq<char>, m: int) -> int
    decreases w.len() - m,
{
    if m < 0 || m >= w.len() {
        w.len() as int
    } else if at(s, k + m, w[m]) {
        matched_len(s, k, w, m + 1)
    } else {
        m
    }
}

/// The index after the character at `p`, or the end of the text.
pub open spec fn past(s: Seq<char>, p: int) -> int {
    if p < s.len() {
        p + 1
    } else {
        s.len() as int
    }
}

/// The value of the decimal digits `d` when they are some and it fits in a
/// `u32`, else zero.
pub open spec fn u32_or_zero(d: Seq<char>) -> u32 {
    if d.len() > 0 && digits_value(d, 10) <= u32::MAX {
        digits_value(d, 10) as u32
    } else {
        0
    }
}

/// Hour, minute, second and nanoseconds of a time of day.
pub type TimeOfDay = (u32, u32, u32, u32);

/// An optional `_HH:MM[:SS[.fff]]` suffix at `p` of the literal that opened at
/// `j`.
pub open spec fn time_suffix(s: Seq<char>, p: int, j: int) -> (
    Result<Option<TimeOfDay>, LexErr>,
    int,
) {
    if !at(s, p, '_') {
        (Ok(None), p)
    } else {
        let hs = p + 1;
        let he = scan(s, hs, CharClass::Digit);
        let hour = digits_value(s.subrange(hs, he), 10);
        if he == hs || hour > 23 {
            (Err(LexErr::InvalidHour(span_of(s, j, he))), he)
        } else if !at(s, he, ':') {
            (Err(LexErr::ExpectedColon(span_of(s, j, he))), he)
        } else {
            let ms = he + 1;
            let me = scan(s, ms, CharClass::Digit);
            let minute = digits_value(s.subrange(ms, me), 10);
            if me == ms || minute > 59 {
                (Err(LexErr::InvalidMinute(span_of(s, j, me))), me)
            } else if at(s, me, ':') {
                let ss = me + 1;
                let se = scan(s, ss, CharClass::Digit);
                let secs = u32_or_zero(s.subrange(ss, se));
                if at(s, se, '.') {
                    let fe = scan(s, se + 1, CharClass::Digit);
                    (
                        Ok(
                            Some(
                                (
                                    hour as u32,
                                    minute as u32,
                                    secs,
                                    nanos_value(s.subrange(se + 1, fe)) as u32,
                                ),
                            ),
                        ),
                        fe,
                    )
                } else {
                    (Ok(Some((hour as u32, minute as u32, secs, 0))), se)
                }
            } else {
                (Ok(Some((hour as u32, minute as u32, 0, 0))), me)
            }
        }
    }
}

pub open spec fn word_now() -> Seq<char> {
    seq!['n', 'o', 'w']
}

pub open spec fn word_today() -> Seq<char> {
    seq!['t', 'o', 'd', 'a', 'y']
}

pub open spec fn word_unix() -> Seq<char> {
    seq!['u', 'n', 'i', 'x', '_']
}

/// `@now`, with `j` at the `@`.
pub open spec fn lex_now(s: Seq<char>, j: int) -> Lexed {
    let m = matched_len(s, j + 1, word_now(), 0);
    let e = j + 4;
    if m < 3 {
        fail(LexErr::ExpectedNow(span_of(s, j, past(s, j + 1 + m))), past(s, j + 1 + m))
    } else if e < s.len() && ident_continue(s[e]) {
        fail(LexErr::ExpectedNow(span_of(s, j, e)), e)
    } else {
        ok(s, j, e, Kind::Now)
    }
}

/// `@today` or `@today_HH:MM[:SS[.fff]]`, with `j` at the `@`.
pub open spec fn lex_today(s: Seq<char>, j: int) -> Lexed {
    let m = matched_len(s, j + 1, word_today(), 0);
    let e = j + 6;
    if m < 5 {
        fail(LexErr::ExpectedToday(span_of(s, j, past(s, j + 1 + m))), past(s, j + 1 + m))
    } else {
        match time_suffix(s, e, j) {
            (Err(err), p) => fail(err, p),
            (Ok(Some((h, mi, sec, n))), p) => ok(s, j, p, Kind::TodayAt(h, mi, sec, n)),
            (Ok(None), p) => if e < s.len() && ident_continue(s[e]) {
                fail(LexErr::ExpectedToday(span_of(s, j, e)), e)
            } else {
                ok(s, j, e, Kind::Today)
            },
        }
    }
}

/// The seconds and nanoseconds of a signed instant `±whole.frac`, with the
/// nanoseconds counted forward from the whole second before it.
pub open spec fn normalize_instant(negative: bool, whole: int, nanos: int) -> (int, int) {
    let secs = if negative {
        -whole
    } else {
        whole
    };
    if negative && nanos > 0 {
        (secs - 1, 1_000_000_000 - nanos)
    } else {
        (secs, nanos)
    }
}

/// `@unix_[+-]SECONDS[.fff]`, with `j` at the `@`.
pub open spec fn lex_unix(s: Seq<char>, j: int) -> Lexed {
    let m = matched_len(s, j + 1, word_unix(), 0);
    if m < 5 {
        fail(LexErr::ExpectedUnixPrefix(span_of(s, j, past(s, j + 1 + m))), past(s, j + 1 + m))
    } else {
        let q0 = j + 6;
        let negative = at(s, q0, '-');
        let q = if at(s, q0, '+') || negative {
            q0 + 1
        } else {
            q0
        };
        let de = scan(s, q, CharClass::Digit);
        let whole = digits_value(s.subrange(q, de), 10);
        if de == q {
            fail(LexErr::ExpectedUnixTimestamp(span_of(s, q, q)), q)
        } else if whole > i64::MAX {
            fail(LexErr::InvalidUnixTimestamp(s.subrange(q, de), span_of(s, q, de)), de)
        } else {
            let fe = if at(s, de, '.') {
                scan(s, de + 1, CharClass::Digit)
            } else {
                de
            };
            let nanos = if at(s, de, '.') {
                nanos_value(s.subrange(de + 1, fe))
            } else {
                0
            };
            let (secs, n) = normalize_instant(negative, whole, nanos);
            ok(s, j, fe, Kind::Instant(secs as i64, n as u32))
        }
    }
}

/// `@[+-]YYYY-MM-DD[_HH:MM[:SS[.fff]]]`, with `j` at the `@`.
pub open spec fn lex_date(s: Seq<char>, j: int) -> Lexed {
    let k = j + 1;
    let negative = at(s, k, '-');
    let q = if at(s, k, '+') || negative {
        k + 1
    } else {
        k
    };
    let ye = scan(s, q, CharClass::Digit);
    if !at(s, ye, '-') {
        fail(LexErr::ExpectedDateFormat(span_of(s, j, ye)), ye)
    } else {
        let ms = ye + 1;
        let me = scan(s, ms, CharClass::Digit);
        if !at(s, me, '-') {
            fail(LexErr::ExpectedDateFormat(span_of(s, j, me)), me)
        } else {
            let ds = me + 1;
            let de = scan(s, ds, CharClass::Digit);
            match time_suffix(s, de, j) {
                (Err(err), p) => fail(err, p),
                (Ok(t), p) => {
                    let (h, mi, sec, n) = match t {
                        Some(t) => t,
                        None => (0u32, 0u32, 0u32, 0u32),
                    };
                    let yv = digits_value(s.subrange(q, ye), 10);
                    let mv = digits_value(s.subrange(ms, me), 10);
                    let dv = digits_value(s.subrange(ds, de), 10);
                    let year = if negative {
                        -yv
                    } else {
                        yv
                    };
                    if ye == q || yv > i32::MAX {
                        fail(LexErr::InvalidYear(span_of(s, j, p)), p)
                    } else if me == ms || mv < 1 || mv > 12 {
                        fail(LexErr::InvalidMonth(span_of(s, j, p)), p)
                    } else if de == ds || dv < 1 || dv > 31 {
                        fail(LexErr::InvalidDay(span_of(s, j, p)), p)
                    } else if !(date_exists(year, mv, dv) && time_exists(
                        h as int,
                        mi as int,
                        sec as int,
                        n as int,
                    )) {
                        fail(LexErr::InvalidDate(span_of(s, j, p)), p)
                    } else {
                        ok(
                            s,
                            j,
                            p,
                            Kind::Instant(
                                unix_seconds(year, mv, dv, h as int, mi as int, sec as int) as i64,
                                n,
                            ),
                        )
                    }
                },
            }
        }
    }
}

/// An instant literal, with `j` at the `@`.
pub open spec fn lex_at(s: Seq<char>, j: int) -> Lexed {
    let k = j + 1;
    if at(s, k, 'n') {
        lex_now(s, j)
    } else if at(s, k, 't') {
        lex_today(s, j)
    } else if at(s, k, 'u') {
        lex_unix(s, j)
    } else if k < s.len() && (is_digit(s[k]) || s[k] == '+' || s[k] == '-') {
        lex_date(s, j)
    } else {
        fail(LexErr::InvalidTimeLiteral(span_of(s, j, k)), k)
    }
}

// ---- durations ----
/// Which components a duration literal has had so far.
pub struct DurationSeen {
    pub weeks: bool,
    pub days: bool,
    pub hours: bool,
    pub minutes: bool,
    pub seconds: bool,
}

pub open spec fn is_duration_unit(c: char) -> bool {
    c == 'w' || c == 'd' || c == 'h' || c == 'm' || c == 's'
}

/// Seconds in one of the unit.
pub open spec fn unit_seconds(c: char) -> int {
    if c == 'w' {
        604800
    } else if c == 'd' {
        86400
    } else if c == 'h' {
        3600
    } else if c == 'm' {
        60
    } else {
        1
    }
}

pub open spec fn seen_unit(seen: DurationSeen, c: char) -> bool {
    if c == 'w' {
        seen.weeks
    } else if c == 'd' {
        seen.days
    } else if c == 'h' {
        seen.hours
    } else if c == 'm' {
        seen.minutes
    } else {
        seen.seconds
    }
}

pub open spec fn with_unit(seen: DurationSeen, c: char) -> DurationSeen {
    DurationSeen {
        weeks: seen.weeks || c == 'w',
        days: seen.days || c == 'd',
        hours: seen.hours || c == 'h',
        minutes: seen.minutes || c == 'm',
        seconds: seen.seconds || c == 's',
    }
}

pub open spec fn seen_any(seen: DurationSeen) -> bool {
    seen.weeks || seen.days || seen.hours || seen.minutes || seen.seconds
}

/// The components of a duration literal that opened at `j`, from `i` on.
/// `None` where a component's number does not fit in an `i64`: there the
/// lexer panics.
pub open spec fn duration_parts(
    s: Seq<char>,
    j: int,
    i: int,
    negative: bool,
    seen: DurationSeen,
    nanos: int,
    total: int,
) -> Option<Lexed>
    decreases s.len() - i,
{
    if i < 0 || i > s.len() {
        None
    } else {
        let ie = scan(s, i, CharClass::Digit);
        proof {
            lemma_scan(s, i, CharClass::Digit);
        }
        if ie == i {
            if at(s, i, '.') {
                Some(fail(LexErr::ExpectedDurationDigits(span_of(s, j, i)), i))
            } else if !seen_any(seen) {
                Some(fail(LexErr::EmptyDuration(span_of(s, j, i)), i))
            } else {
                let t = if negative {
                    -total
                } else {
                    total
                };
                Some(ok(s, j, i, Kind::Duration(t as i64, nanos as u32)))
            }
        } else {
            let int_part = digits_value(s.subrange(i, ie), 10);
            let has_frac = at(s, ie, '.');
            let p = if has_frac {
                scan(s, ie + 1, CharClass::Digit)
            } else {
                ie
            };
            proof {
                if has_frac {
                    lemma_scan(s, ie + 1, CharClass::Digit);
                }
            }
            if int_part > i64::MAX {
                None
            } else if has_frac && p == ie + 1 {
                Some(fail(LexErr::IncompleteDurationFraction(span_of(s, j, p)), p))
            } else if p >= s.len() {
                Some(fail(LexErr::MissingDurationSuffix(span_of(s, j, p)), p))
            } else if !is_duration_unit(s[p]) {
                Some(fail(LexErr::UnexpectedDurationSuffix(s[p], span_of(s, j, p)), p))
            } else if has_frac && s[p] != 's' {
                Some(fail(LexErr::FractionalNotAllowed(s[p], span_of(s, j, p + 1)), p + 1))
            } else if seen_unit(seen, s[p]) {
                Some(fail(LexErr::DuplicateDurationComponent(s[p], span_of(s, j, p + 1)), p + 1))
            } else if total + int_part * unit_seconds(s[p]) > i64::MAX {
                Some(fail(LexErr::DurationOverflow(span_of(s, j, p + 1)), p + 1))
            } else {
                let nanos2 = if s[p] == 's' && has_frac {
                    nanos_value(s.subrange(ie + 1, p))
                } else if s[p] == 's' {
                    0
                } else {
                    nanos
                };
                duration_parts(
                    s,
                    j,
                    p + 1,
                    negative,
                    with_unit(seen, s[p]),
                    nanos2,
                    total + int_part * unit_seconds(s[p]),
                )
            }
        }
    }
}

/// A duration literal `#[+-]NwNdNhNmN[.fff]s`, with `j` at the `#`.
pub open spec fn lex_duration(s: Seq<char>, j: int) -> Option<Lexed> {
    let k = j + 1;
    let negative = at(s, k, '-');
    let q = if at(s, k, '+') || negative {
        k + 1
    } else {
        k
    };
    duration_parts(
        s,
        j,
        q,
        negative,
        DurationSeen { weeks: false, days: false, hours: false, minutes: false, seconds: false },
        0,
        0,
    )
}

// ---- tokens ----
/// The token that starts at `j`, for any character but `#`.
pub open spec fn lex_char(s: Seq<char>, j: int) -> Lexed {
    let c = s[j];
    if c == '(' {
        single(s, j, Kind::LParen)
    } else if c == ')' {
        single(s, j, Kind::RParen)
    } else if c == '[' {
        single(s, j, Kind::LBracket)
    } else if c == ']' {
        single(s, j, Kind::RBracket)
    } else if c == '}' {
        single(s, j, Kind::RBrace)
    } else if c == ',' {
        single(s, j, Kind::Comma)
    } else if c == ';' {
        single(s, j, Kind::Semicolon)
    } else if c == '+' {
        one_or_two(s, j, '+', Kind::PlusPlus, Kind::Plus)
    } else if c == '-' {
        single(s, j, Kind::Minus)
    } else if c == '*' {
        single(s, j, Kind::Star)
    } else if c == '/' {
        single(s, j, Kind::Slash)
    } else if c == '%' {
        single(s, j, Kind::Percent)
    } else if c == '.' {
        lex_dot(s, j)
    } else if c == ':' {
        one_or_two(s, j, ':', Kind::ColonColon, Kind::Colon)
    } else if c == '=' {
        one_or_two(s, j, '=', Kind::EqEq, Kind::Eq)
    } else if c == '!' {
        one_or_two(s, j, '=', Kind::BangEq, Kind::Bang)
    } else if c == '<' {
        one_or_two(s, j, '=', Kind::LAngleEq, Kind::LAngle)
    } else if c == '>' {
        one_or_two(s, j, '=', Kind::RAngleEq, Kind::RAngle)
    } else if c == '&' {
        lex_amp(s, j)
    } else if c == '|' {
        lex_pipe(s, j)
    } else if c == '{' {
        single(s, j, Kind::LBrace)
    } else if c == '?' {
        single(s, j, Kind::Question)
    } else if c == '@' {
        lex_at(s, j)
    } else if c == '"' {
        lex_string(s, j)
    } else if is_digit(c) {
        lex_number(s, j)
    } else if ident_start(c) {
        lex_ident(s, j)
    } else {
        fail(
            LexErr::UnexpectedChar(
                c,
                Span { start: byte_offset(s, j) as usize, end: (byte_offset(s, j) + 1) as usize },
            ),
            j + 1,
        )
    }
}

/// What reading a token from index `i` gives: the token or error and the
/// index after it, or `None` where the lexer panics (a duration component
/// whose number does not fit in an `i64`).
pub open spec fn lex_token(s: Seq<char>, i: int) -> Option<Lexed> {
    let j = skip_trivia(s, i);
    if j >= s.len() {
        Some(ok(s, j, j, Kind::Eof))
    } else if s[j] == '#' {
        lex_duration(s, j)
    } else {
        Some(lex_char(s, j))
    }
}

} // verus!
