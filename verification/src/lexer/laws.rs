//! What holds of every read of the lexer, whatever the text.
use vstd::prelude::*;

use super::calendar::{date_exists, days_from_epoch};
use super::error::LexErr;
use super::grammar::{
    at, block_comment_end, duration_parts, float_with_exponent, lex_decimal, lex_date, keyword_or_ident, ok, exponent_digits_start, lemma_skip_trivia, lex_at, lex_char, lex_number,
    lex_token, matched_len, normalize_instant, simple_escape, skip_trivia, span_of, string_body,
    time_suffix, unit_seconds, with_unit, word_now, word_today, word_unix, DurationSeen, Lexed,
};
use super::scan::{
    digit_value, digits_value, is_hex_digit, pow10, ident_continue, ident_start, in_class, is_digit, lemma_digits_value_bound,
    lemma_nanos_value_bound, lemma_pow10_nine, lemma_scan, nanos_value, scan, CharClass,
};
use super::token::{kind_text, Kind, TokenView};
use crate::text::{radix_char, radix_digits, decimal_digits, digit_char, unicode_white_space, without_underscores, zero_padded};

verus! {

/// What a read that stopped at `next`, having started its token at `j`,
/// promises: it stays in the text, and a token covers exactly what was read
/// and holds its parts within their ranges.
pub open spec fn well_read(s: Seq<char>, j: int, l: Lexed) -> bool {
    &&& j < l.1 <= s.len()
    &&& l.0 is Ok ==> {
        let t = l.0->Ok_0;
        &&& t.span == span_of(s, j, l.1)
        &&& t.kind !is Eof
        &&& in_range(t.kind)
    }
}

/// The parts of a token's value that have a range: nanoseconds below a
/// second (a leap second aside, for a calendar date), and an hour and minute
/// of the day.
pub open spec fn in_range(k: Kind) -> bool {
    match k {
        Kind::Duration(_, n) => n < 1_000_000_000,
        Kind::TodayAt(h, m, _, n) => h <= 23 && m <= 59 && n < 1_000_000_000,
        Kind::Instant(_, n) => n < 2_000_000_000,
        _ => true,
    }
}

proof fn lemma_scanned_nanos(s: Seq<char>, i: int)
    requires
        0 <= i <= s.len(),
    ensures
        i <= scan(s, i, CharClass::Digit) <= s.len(),
        0 <= nanos_value(s.subrange(i, scan(s, i, CharClass::Digit))) < 1_000_000_000,
{
    lemma_scan(s, i, CharClass::Digit);
    let e = scan(s, i, CharClass::Digit);
    let d = s.subrange(i, e);
    assert forall|m: int| 0 <= m < d.len() implies #[trigger] is_digit(d[m]) by {
        assert(in_class(s[i + m], CharClass::Digit));
    }
    lemma_nanos_value_bound(d);
}

proof fn lemma_scanned_value(s: Seq<char>, i: int)
    requires
        0 <= i <= s.len(),
    ensures
        i <= scan(s, i, CharClass::Digit) <= s.len(),
        0 <= digits_value(s.subrange(i, scan(s, i, CharClass::Digit)), 10),
{
    lemma_scan(s, i, CharClass::Digit);
    let e = scan(s, i, CharClass::Digit);
    let d = s.subrange(i, e);
    assert forall|m: int| 0 <= m < d.len() implies #[trigger] is_digit(d[m]) by {
        assert(in_class(s[i + m], CharClass::Digit));
    }
    lemma_digits_value_bound(d);
}

proof fn lemma_matched_len(s: Seq<char>, k: int, w: Seq<char>, m: int)
    requires
        0 <= m <= w.len(),
        0 <= k,
    ensures
        m <= matched_len(s, k, w, m) <= w.len(),
        matched_len(s, k, w, m) > m ==> k + matched_len(s, k, w, m) <= s.len(),
    decreases w.len() - m,
{
    if m < w.len() && at(s, k + m, w[m]) {
        lemma_matched_len(s, k, w, m + 1);
    }
}

proof fn lemma_time_suffix(s: Seq<char>, p: int, j: int)
    requires
        0 <= p <= s.len(),
    ensures
        p <= time_suffix(s, p, j).1 <= s.len(),
        time_suffix(s, p, j).0 matches Ok(Some((h, m, _, n))) ==> h <= 23 && m <= 59 && n
            < 1_000_000_000,
{
    if at(s, p, '_') {
        lemma_scanned_value(s, p + 1);
        let he = scan(s, p + 1, CharClass::Digit);
        if at(s, he, ':') {
            lemma_scanned_value(s, he + 1);
            let me = scan(s, he + 1, CharClass::Digit);
            if at(s, me, ':') {
                lemma_scan(s, me + 1, CharClass::Digit);
                let se = scan(s, me + 1, CharClass::Digit);
                if at(s, se, '.') {
                    lemma_scanned_nanos(s, se + 1);
                }
            }
        }
    }
}

proof fn lemma_string_body(s: Seq<char>, j: int, i: int, acc: Seq<char>)
    requires
        0 <= j < i <= s.len(),
    ensures
        well_read(s, j, string_body(s, j, i, acc)),
    decreases s.len() - i,
{
    if i < s.len() && s[i] != '\n' && s[i] != '"' {
        if s[i] == '\\' {
            if i + 1 < s.len() {
                if s[i + 1] == '\n' {
                    lemma_string_body(s, j, i + 2, acc);
                } else if simple_escape(s[i + 1]) is Some {
                    lemma_string_body(s, j, i + 2, acc.push(simple_escape(s[i + 1])->0));
                } else if s[i + 1] == 'u' && at(s, i + 2, '{') {
                    lemma_scan(s, i + 3, CharClass::HexDigit);
                    let hex_end = scan(s, i + 3, CharClass::HexDigit);
                    if at(s, hex_end, '}') {
                        let code = digits_value(s.subrange(i + 3, hex_end), 16);
                        lemma_string_body(s, j, hex_end + 1, acc.push((code as u32) as char));
                    }
                }
            }
        } else {
            lemma_string_body(s, j, i + 1, acc.push(s[i]));
        }
    }
}

proof fn lemma_duration_parts(
    s: Seq<char>,
    j: int,
    i: int,
    negative: bool,
    seen: DurationSeen,
    nanos: int,
    total: int,
)
    requires
        0 <= j < i <= s.len(),
        0 <= nanos < 1_000_000_000,
    ensures
        duration_parts(s, j, i, negative, seen, nanos, total) matches Some(l) ==> well_read(
            s,
            j,
            l,
        ),
    decreases s.len() - i,
{
    lemma_scan(s, i, CharClass::Digit);
    let ie = scan(s, i, CharClass::Digit);
    if ie > i {
        let has_frac = at(s, ie, '.');
        if has_frac {
            lemma_scanned_nanos(s, ie + 1);
        }
        let p = if has_frac {
            scan(s, ie + 1, CharClass::Digit)
        } else {
            ie
        };
        if p < s.len() {
            let int_part = digits_value(s.subrange(i, ie), 10);
            let nanos2 = if s[p] == 's' && has_frac {
                nanos_value(s.subrange(ie + 1, p))
            } else if s[p] == 's' {
                0
            } else {
                nanos
            };
            lemma_duration_parts(
                s,
                j,
                p + 1,
                negative,
                with_unit(seen, s[p]),
                nanos2,
                total + int_part * unit_seconds(s[p]),
            );
        }
    }
}

proof fn lemma_number(s: Seq<char>, j: int)
    requires
        0 <= j < s.len(),
        is_digit(s[j]),
    ensures
        well_read(s, j, lex_number(s, j)),
{
    if s[j] == '0' && (at(s, j + 1, 'x') || at(s, j + 1, 'X') || at(s, j + 1, 'o') || at(
        s,
        j + 1,
        'O',
    ) || at(s, j + 1, 'b') || at(s, j + 1, 'B')) {
        lemma_scan(s, j + 2, CharClass::HexOrUnderscore);
        lemma_scan(s, j + 2, CharClass::OctalOrUnderscore);
        lemma_scan(s, j + 2, CharClass::BinaryOrUnderscore);
    } else {
        lemma_scan(s, j, CharClass::DigitOrUnderscore);
        let e1 = scan(s, j, CharClass::DigitOrUnderscore);
        assert(in_class(s[j], CharClass::DigitOrUnderscore));
        if at(s, e1, '.') && e1 + 1 < s.len() {
            lemma_scan(s, e1 + 1, CharClass::DigitOrUnderscore);
            let e2 = scan(s, e1 + 1, CharClass::DigitOrUnderscore);
            if at(s, e2, 'e') || at(s, e2, 'E') {
                lemma_scan(s, exponent_digits_start(s, e2), CharClass::DigitOrUnderscore);
            }
        }
        if at(s, e1, 'e') || at(s, e1, 'E') {
            lemma_scan(s, exponent_digits_start(s, e1), CharClass::DigitOrUnderscore);
        }
    }
}

proof fn lemma_at(s: Seq<char>, j: int)
    requires
        0 <= j < s.len(),
        s[j] == '@',
    ensures
        well_read(s, j, lex_at(s, j)),
{
    let k = j + 1;
    if at(s, k, 'n') {
        lemma_matched_len(s, j + 1, word_now(), 0);
    } else if at(s, k, 't') {
        lemma_matched_len(s, j + 1, word_today(), 0);
        let m = matched_len(s, j + 1, word_today(), 0);
        if m >= 5 {
            lemma_time_suffix(s, j + 6, j);
        }
    } else if at(s, k, 'u') {
        lemma_matched_len(s, j + 1, word_unix(), 0);
        let m = matched_len(s, j + 1, word_unix(), 0);
        if m >= 5 {
            let q0 = j + 6;
            let q = if at(s, q0, '+') || at(s, q0, '-') {
                q0 + 1
            } else {
                q0
            };
            lemma_scan(s, q, CharClass::Digit);
            let de = scan(s, q, CharClass::Digit);
            if at(s, de, '.') {
                lemma_scanned_nanos(s, de + 1);
            }
        }
    } else if k < s.len() && (is_digit(s[k]) || s[k] == '+' || s[k] == '-') {
        let q = if at(s, k, '+') || at(s, k, '-') {
            k + 1
        } else {
            k
        };
        lemma_scan(s, q, CharClass::Digit);
        let ye = scan(s, q, CharClass::Digit);
        if at(s, ye, '-') {
            lemma_scan(s, ye + 1, CharClass::Digit);
            let me = scan(s, ye + 1, CharClass::Digit);
            if at(s, me, '-') {
                lemma_scan(s, me + 1, CharClass::Digit);
                let de = scan(s, me + 1, CharClass::Digit);
                lemma_time_suffix(s, de, j);
            }
        }
    }
}

proof fn lemma_lex_char(s: Seq<char>, j: int)
    requires
        0 <= j < s.len(),
    ensures
        well_read(s, j, lex_char(s, j)),
{
    let c = s[j];
    if c == '@' {
        lemma_at(s, j);
    } else if c == '"' {
        lemma_string_body(s, j, j + 1, Seq::empty());
    } else if is_digit(c) {
        lemma_number(s, j);
    } else if ident_start(c) {
        lemma_scan(s, j, CharClass::IdentContinue);
        assert(in_class(c, CharClass::IdentContinue));
    }
}

/// Every read makes progress and stays in the text. From index `i`, it skips
/// white space and comments up to `skip_trivia(s, i)`; there, at the end of
/// the text, it gives `Eof` and reads nothing more; anywhere else it reads at
/// least one character, and a token it gives covers exactly the characters
/// read (its span runs from the first to past the last). So reading token
/// after token reaches `Eof` after at most as many reads as the text has
/// characters.
pub proof fn lemma_read_progress(s: Seq<char>, i: int)
    requires
        0 <= i <= s.len(),
        lex_token(s, i) is Some,
    ensures
        ({
            let (r, next) = lex_token(s, i)->0;
            let j = skip_trivia(s, i);
            &&& i <= j <= next <= s.len()
            &&& (j == s.len()) == (r is Ok && r->Ok_0.kind is Eof)
            &&& j == s.len() ==> next == j && r == Ok::<TokenView, LexErr>(
                TokenView { kind: Kind::Eof, span: span_of(s, j, j) },
            )
            &&& j < s.len() ==> j < next
            &&& r is Ok ==> r->Ok_0.span == span_of(s, j, next)
        }),
{
    lemma_skip_trivia(s, i);
    let j = skip_trivia(s, i);
    if j < s.len() {
        if s[j] == '#' {
            let k = j + 1;
            let q = if at(s, k, '+') || at(s, k, '-') {
                k + 1
            } else {
                k
            };
            lemma_duration_parts(
                s,
                j,
                q,
                at(s, k, '-'),
                DurationSeen {
                    weeks: false,
                    days: false,
                    hours: false,
                    minutes: false,
                    seconds: false,
                },
                0,
                0,
            );
        } else {
            lemma_lex_char(s, j);
        }
    }
}

/// Once the lexer has given `Eof`, it gives `Eof` again, at the same place,
/// on every later read.
pub proof fn lemma_eof_repeats(s: Seq<char>, i: int)
    requires
        0 <= i <= s.len(),
        lex_token(s, i) matches Some((Ok(t), _)) && t.kind is Eof,
    ensures
        ({
            let l = lex_token(s, i)->0;
            lex_token(s, l.1) == lex_token(s, i)
        }),
{
    lemma_read_progress(s, i);
}

/// Every token's value lies in its range: a duration's nanoseconds, and a
/// time of day's, are below a second, its hour at most 23 and its minute at
/// most 59; an instant's nanoseconds are below two seconds, the second one
/// only in a leap second.
pub proof fn lemma_token_values_in_range(s: Seq<char>, i: int)
    requires
        0 <= i <= s.len(),
        lex_token(s, i) matches Some((Ok(_), _)),
    ensures
        ({
            let l = lex_token(s, i)->0;
            in_range(l.0->Ok_0.kind)
        }),
{
    lemma_read_progress(s, i);
    let j = skip_trivia(s, i);
    if j < s.len() {
        if s[j] == '#' {
            let k = j + 1;
            let q = if at(s, k, '+') || at(s, k, '-') {
                k + 1
            } else {
                k
            };
            lemma_duration_parts(
                s,
                j,
                q,
                at(s, k, '-'),
                DurationSeen {
                    weeks: false,
                    days: false,
                    hours: false,
                    minutes: false,
                    seconds: false,
                },
                0,
                0,
            );
        } else {
            lemma_lex_char(s, j);
        }
    }
}

/// An instant read as `@unix_[+-]SECONDS[.fff]` stands for exactly the signed
/// time it spells: its seconds times a billion plus its nanoseconds is
/// `±(SECONDS * 10^9 + fff)`, with the nanoseconds counted forward from the
/// second before, so that they lie below a second.
pub proof fn lemma_normalize_instant(negative: bool, whole: int, nanos: int)
    requires
        0 <= whole,
        0 <= nanos < 1_000_000_000,
    ensures
        ({
            let (secs, n) = normalize_instant(negative, whole, nanos);
            &&& 0 <= n < 1_000_000_000
            &&& secs * 1_000_000_000 + n == if negative {
                -(whole * 1_000_000_000 + nanos)
            } else {
                whole * 1_000_000_000 + nanos
            }
        }),
{
}


/// Whether a token kind is written out by `kind_text` as text that reads back
/// as that kind: all but a float (written as its literal text only), `@`
/// (which alone is no literal), `Eof`, a negative integer (read as `-` and a
/// number), an identifier that is not one, a string with a quote, backslash
/// or line feed in it, an instant before 1970 or with more than a second of
/// nanoseconds, a duration of `i64::MIN` seconds, and a time of day out of
/// its range.
pub open spec fn reads_back(k: Kind) -> bool {
    match k {
        Kind::Ident(s) => s.len() > 0 && ident_start(s[0]) && !unicode_white_space(s[0]) && (
        forall|m: int| 0 <= m < s.len() ==> #[trigger] ident_continue(s[m])) && keyword_or_ident(s)
            == Kind::Ident(s),
        Kind::Int(n) => n >= 0,
        Kind::Float(_) => false,
        Kind::Str(s) => forall|m: int|
            0 <= m < s.len() ==> #[trigger] s[m] != '"' && s[m] != '\\' && s[m] != '\n',
        Kind::Instant(secs, n) => secs >= 0 && n < 1_000_000_000,
        Kind::Duration(secs, n) => secs > i64::MIN && n < 1_000_000_000,
        Kind::TodayAt(h, m, _, n) => h <= 23 && m <= 59 && n < 1_000_000_000,
        Kind::At => false,
        Kind::Eof => false,
        _ => true,
    }
}

/// A run of characters of class `k` from `i` up to `e`, followed by one
/// outside the class or by the end of the text, is what `scan` finds.
proof fn lemma_scan_to(s: Seq<char>, i: int, e: int, k: CharClass)
    requires
        0 <= i <= e <= s.len(),
        forall|m: int| i <= m < e ==> #[trigger] in_class(s[m], k),
        e == s.len() || !in_class(s[e], k),
    ensures
        scan(s, i, k) == e,
    decreases e - i,
{
    if i < e {
        lemma_scan_to(s, i + 1, e, k);
    }
}

/// Keywords, operators, delimiters, `@now` and `@today` read back.
#[verifier::spinoff_prover]
proof fn lemma_fixed_reads_back(k: Kind)
    requires
        reads_back(k),
        !(k is Ident || k is Int || k is Str || k is Instant || k is Duration || k is TodayAt),
    ensures
        ({
            let t = kind_text(k);
            lex_token(t, 0) == Some(ok(t, 0, t.len() as int, k))
        }),
{
    let t = kind_text(k);
    match k {
        Kind::Plus => {
            reveal_strlit("+");
            assert(t =~= seq!['+']);
        },
        Kind::Minus => {
            reveal_strlit("-");
            assert(t =~= seq!['-']);
        },
        Kind::Star => {
            reveal_strlit("*");
            assert(t =~= seq!['*']);
        },
        Kind::Slash => {
            reveal_strlit("/");
            assert(t =~= seq!['/']);
        },
        Kind::Percent => {
            reveal_strlit("%");
            assert(t =~= seq!['%']);
        },
        Kind::PlusPlus => {
            reveal_strlit("++");
            assert(t =~= seq!['+', '+']);
        },
        Kind::EqEq => {
            reveal_strlit("==");
            assert(t =~= seq!['=', '=']);
        },
        Kind::BangEq => {
            reveal_strlit("!=");
            assert(t =~= seq!['!', '=']);
        },
        Kind::LAngleEq => {
            reveal_strlit("<=");
            assert(t =~= seq!['<', '=']);
        },
        Kind::RAngleEq => {
            reveal_strlit(">=");
            assert(t =~= seq!['>', '=']);
        },
        Kind::Bang => {
            reveal_strlit("!");
            assert(t =~= seq!['!']);
        },
        Kind::AmpAmp => {
            reveal_strlit("&&");
            assert(t =~= seq!['&', '&']);
        },
        Kind::PipePipe => {
            reveal_strlit("||");
            assert(t =~= seq!['|', '|']);
        },
        Kind::DotDot => {
            reveal_strlit("..");
            assert(t =~= seq!['.', '.']);
        },
        Kind::DotDotEq => {
            reveal_strlit("..=");
            assert(t =~= seq!['.', '.', '=']);
        },
        Kind::PipeR => {
            reveal_strlit("|>");
            assert(t =~= seq!['|', '>']);
        },
        Kind::Dot => {
            reveal_strlit(".");
            assert(t =~= seq!['.']);
        },
        Kind::Colon => {
            reveal_strlit(":");
            assert(t =~= seq![':']);
        },
        Kind::ColonColon => {
            reveal_strlit("::");
            assert(t =~= seq![':', ':']);
        },
        Kind::Question => {
            reveal_strlit("?");
            assert(t =~= seq!['?']);
        },
        Kind::Eq => {
            reveal_strlit("=");
            assert(t =~= seq!['=']);
        },
        Kind::LParen => {
            reveal_strlit("(");
            assert(t =~= seq!['(']);
        },
        Kind::RParen => {
            reveal_strlit(")");
            assert(t =~= seq![')']);
        },
        Kind::LBracket => {
            reveal_strlit("[");
            assert(t =~= seq!['[']);
        },
        Kind::RBracket => {
            reveal_strlit("]");
            assert(t =~= seq![']']);
        },
        Kind::LBrace => {
            reveal_strlit("{");
            assert(t =~= seq!['{']);
        },
        Kind::RBrace => {
            reveal_strlit("}");
            assert(t =~= seq!['}']);
        },
        Kind::LAngle => {
            reveal_strlit("<");
            assert(t =~= seq!['<']);
        },
        Kind::RAngle => {
            reveal_strlit(">");
            assert(t =~= seq!['>']);
        },
        Kind::Semicolon => {
            reveal_strlit(";");
            assert(t =~= seq![';']);
        },
        Kind::Comma => {
            reveal_strlit(",");
            assert(t =~= seq![',']);
        },
        Kind::Let => {
            reveal_strlit("let");
            assert(t =~= seq!['l', 'e', 't']);
            lemma_scan_to(t, 0, t.len() as int, CharClass::IdentContinue);
            assert(t.subrange(0, t.len() as int) =~= t);
        },
        Kind::Table => {
            reveal_strlit("table");
            assert(t =~= seq!['t', 'a', 'b', 'l', 'e']);
            lemma_scan_to(t, 0, t.len() as int, CharClass::IdentContinue);
            assert(t.subrange(0, t.len() as int) =~= t);
        },
        Kind::If => {
            reveal_strlit("if");
            assert(t =~= seq!['i', 'f']);
            lemma_scan_to(t, 0, t.len() as int, CharClass::IdentContinue);
            assert(t.subrange(0, t.len() as int) =~= t);
        },
        Kind::Else => {
            reveal_strlit("else");
            assert(t =~= seq!['e', 'l', 's', 'e']);
            lemma_scan_to(t, 0, t.len() as int, CharClass::IdentContinue);
            assert(t.subrange(0, t.len() as int) =~= t);
        },
        Kind::True => {
            reveal_strlit("true");
            assert(t =~= seq!['t', 'r', 'u', 'e']);
            lemma_scan_to(t, 0, t.len() as int, CharClass::IdentContinue);
            assert(t.subrange(0, t.len() as int) =~= t);
        },
        Kind::False => {
            reveal_strlit("false");
            assert(t =~= seq!['f', 'a', 'l', 's', 'e']);
            lemma_scan_to(t, 0, t.len() as int, CharClass::IdentContinue);
            assert(t.subrange(0, t.len() as int) =~= t);
        },
        Kind::Now => {
            reveal_strlit("@now");
            assert(t =~= seq!['@', 'n', 'o', 'w']);
            reveal_with_fuel(matched_len, 4);
        },
        Kind::Today => {
            reveal_strlit("@today");
            assert(t =~= seq!['@', 't', 'o', 'd', 'a', 'y']);
            reveal_with_fuel(matched_len, 6);
        },
        _ => {},
    }
}


proof fn lemma_digit_char(d: int)
    requires
        0 <= d <= 9,
    ensures
        is_digit(digit_char(d)),
        digit_value(digit_char(d)) == d,
{
}

/// The decimal digits of `n` are digits and spell `n`.
pub proof fn lemma_decimal_digits(n: nat)
    ensures
        decimal_digits(n).len() >= 1,
        forall|m: int| 0 <= m < decimal_digits(n).len() ==> #[trigger] is_digit(decimal_digits(n)[m]),
        digits_value(decimal_digits(n), 10) == n,
    decreases n,
{
    let d = decimal_digits(n);
    if n < 10 {
        lemma_digit_char(n as int);
        assert(d.drop_last() =~= Seq::<char>::empty());
        assert(d.last() == digit_char(n as int));
        assert(digits_value(d, 10) == digits_value(d.drop_last(), 10) * 10 + digit_value(d.last()));
    } else {
        lemma_decimal_digits(n / 10);
        lemma_digit_char((n % 10) as int);
        assert(d.drop_last() =~= decimal_digits(n / 10));
        assert(d.last() == digit_char((n % 10) as int));
        assert(digits_value(d, 10) == digits_value(d.drop_last(), 10) * 10 + digit_value(d.last()));
        assert(n == (n / 10) * 10 + n % 10);
        assert forall|m: int| 0 <= m < d.len() implies #[trigger] is_digit(d[m]) by {
            if m < d.len() - 1 {
                assert(d[m] == decimal_digits(n / 10)[m]);
            }
        }
    }
}

/// A number below ten to the `k` has at most `k` decimal digits.
proof fn lemma_decimal_len(n: nat, k: nat)
    requires
        k >= 1,
        n < pow10(k),
    ensures
        decimal_digits(n).len() <= k,
    decreases n,
{
    if n >= 10 {
        assert(pow10(k) == 10 * pow10((k - 1) as nat));
        if k == 1 {
            assert(pow10(0) == 1);
        }
        lemma_decimal_len(n / 10, (k - 1) as nat);
    }
}

proof fn lemma_zeros_value(z: Seq<char>)
    requires
        forall|m: int| 0 <= m < z.len() ==> #[trigger] z[m] == '0',
    ensures
        digits_value(z, 10) == 0,
    decreases z.len(),
{
    if z.len() > 0 {
        let p = z.drop_last();
        assert forall|m: int| 0 <= m < p.len() implies #[trigger] p[m] == '0' by {
            assert(p[m] == z[m]);
        }
        lemma_zeros_value(p);
    }
}

/// Zeros in front do not change a number.
proof fn lemma_leading_zeros(z: Seq<char>, d: Seq<char>)
    requires
        forall|m: int| 0 <= m < z.len() ==> #[trigger] z[m] == '0',
    ensures
        digits_value(z + d, 10) == digits_value(d, 10),
    decreases d.len(),
{
    if d.len() == 0 {
        assert(z + d =~= z);
        lemma_zeros_value(z);
    } else {
        lemma_leading_zeros(z, d.drop_last());
        assert((z + d).drop_last() =~= z + d.drop_last());
        assert((z + d).last() == d.last());
    }
}

/// A number below ten to the `w`, zero-filled to `w` digits: exactly `w`
/// digits, which spell it.
proof fn lemma_zero_padded(n: nat, w: nat)
    requires
        w >= 1,
        n < pow10(w),
    ensures
        zero_padded(n, w).len() == w,
        forall|m: int| 0 <= m < w ==> #[trigger] is_digit(zero_padded(n, w)[m]),
        digits_value(zero_padded(n, w), 10) == n,
{
    let d = decimal_digits(n);
    lemma_decimal_digits(n);
    lemma_decimal_len(n, w);
    if d.len() < w {
        let z = Seq::new((w - d.len()) as nat, |i: int| '0');
        lemma_leading_zeros(z, d);
        assert forall|m: int| 0 <= m < w implies #[trigger] is_digit(zero_padded(n, w)[m]) by {
            if m >= z.len() {
                assert(zero_padded(n, w)[m] == d[m - z.len()]);
            }
        }
    }
}

/// Nine digits spell their own nanoseconds.
proof fn lemma_nine_digit_nanos(d: Seq<char>)
    requires
        d.len() == 9,
    ensures
        nanos_value(d) == digits_value(d, 10),
{
    assert(d.take(9) =~= d);
}

proof fn lemma_digits_no_underscores(s: Seq<char>)
    requires
        forall|m: int| 0 <= m < s.len() ==> #[trigger] is_digit(s[m]),
    ensures
        without_underscores(s) == s,
    decreases s.len(),
{
    if s.len() > 0 {
        let p = s.drop_last();
        assert forall|m: int| 0 <= m < p.len() implies #[trigger] is_digit(p[m]) by {
            assert(p[m] == s[m]);
        }
        lemma_digits_no_underscores(p);
        assert(is_digit(s[s.len() - 1]));
        assert(p.push(s.last()) =~= s);
    }
}


/// A non-negative integer's decimal digits read back as that integer.
#[verifier::spinoff_prover]
proof fn lemma_int_reads_back(n: i64)
    requires
        n >= 0,
    ensures
        ({
            let t = kind_text(Kind::Int(n));
            lex_token(t, 0) == Some(ok(t, 0, t.len() as int, Kind::Int(n)))
        }),
{
    let t = kind_text(Kind::Int(n));
    assert(t == decimal_digits(n as nat));
    lemma_decimal_digits(n as nat);
    assert(is_digit(t[0]));
    assert forall|m: int| 0 <= m < t.len() implies #[trigger] in_class(
        t[m],
        CharClass::DigitOrUnderscore,
    ) by {
        assert(is_digit(t[m]));
    }
    lemma_scan_to(t, 0, t.len() as int, CharClass::DigitOrUnderscore);
    assert(t.subrange(0, t.len() as int) =~= t);
    lemma_digits_no_underscores(t);
    if t.len() > 1 {
        assert(is_digit(t[1]));
    }
}

/// An identifier reads back as itself.
proof fn lemma_ident_reads_back(s: Seq<char>)
    requires
        reads_back(Kind::Ident(s)),
    ensures
        ({
            let t = kind_text(Kind::Ident(s));
            lex_token(t, 0) == Some(ok(t, 0, t.len() as int, Kind::Ident(s)))
        }),
{
    let t = kind_text(Kind::Ident(s));
    assert(t == s);
    assert forall|m: int| 0 <= m < t.len() implies #[trigger] in_class(
        t[m],
        CharClass::IdentContinue,
    ) by {
        assert(ident_continue(s[m]));
    }
    lemma_scan_to(t, 0, t.len() as int, CharClass::IdentContinue);
    assert(t.subrange(0, t.len() as int) =~= t);
}

proof fn lemma_plain_string_body(t: Seq<char>, i: int, acc: Seq<char>)
    requires
        t.len() >= 2,
        t[t.len() - 1] == '"',
        1 <= i <= t.len() - 1,
        acc == t.subrange(1, i),
        forall|m: int| 1 <= m < t.len() - 1 ==> #[trigger] t[m] != '"' && t[m] != '\\' && t[m]
            != '\n',
    ensures
        string_body(t, 0, i, acc) == ok(t, 0, t.len() as int, Kind::Str(t.subrange(1, t.len() - 1))),
    decreases t.len() - i,
{
    if i < t.len() - 1 {
        assert(t[i] != '"' && t[i] != '\\' && t[i] != '\n');
        assert(acc.push(t[i]) =~= t.subrange(1, i + 1));
        lemma_plain_string_body(t, i + 1, acc.push(t[i]));
    }
}

/// A string without a quote, backslash or line feed, written between
/// quotes, reads back as itself.
#[verifier::spinoff_prover]
proof fn lemma_str_reads_back(s: Seq<char>)
    requires
        reads_back(Kind::Str(s)),
    ensures
        ({
            let t = kind_text(Kind::Str(s));
            lex_token(t, 0) == Some(ok(t, 0, t.len() as int, Kind::Str(s)))
        }),
{
    let t = kind_text(Kind::Str(s));
    reveal_strlit("\"");
    assert(t =~= seq!['"'] + s + seq!['"']);
    assert forall|m: int| 1 <= m < t.len() - 1 implies #[trigger] t[m] != '"' && t[m] != '\\'
        && t[m] != '\n' by {
        assert(t[m] == s[m - 1]);
    }
    assert(t.subrange(1, 1) =~= Seq::<char>::empty());
    lemma_plain_string_body(t, 1, Seq::empty());
    assert(t.subrange(1, t.len() - 1) =~= s);
}


/// A run of digits at `i` in `t`: what `scan` finds for the class of digits,
/// and its value.
proof fn lemma_digit_run(t: Seq<char>, i: int, d: Seq<char>)
    requires
        0 <= i,
        i + d.len() <= t.len(),
        t.subrange(i, i + d.len()) == d,
        forall|m: int| 0 <= m < d.len() ==> #[trigger] is_digit(d[m]),
        i + d.len() == t.len() || !is_digit(t[i + d.len()]),
    ensures
        scan(t, i, CharClass::Digit) == i + d.len(),
        t.subrange(i, scan(t, i, CharClass::Digit)) == d,
{
    assert forall|m: int| i <= m < i + d.len() implies #[trigger] in_class(t[m], CharClass::Digit) by {
        assert(t[m] == d[m - i]);
    }
    lemma_scan_to(t, i, i + d.len(), CharClass::Digit);
}

/// An instant at or after 1970 reads back from `@unix_SECS.NNNNNNNNN`.
#[verifier::spinoff_prover]
proof fn lemma_instant_reads_back(secs: i64, n: u32)
    requires
        secs >= 0,
        n < 1_000_000_000,
    ensures
        ({
            let t = kind_text(Kind::Instant(secs, n));
            lex_token(t, 0) == Some(ok(t, 0, t.len() as int, Kind::Instant(secs, n)))
        }),
{
    let t = kind_text(Kind::Instant(secs, n));
    let d = decimal_digits(secs as nat);
    lemma_pow10_nine();
    let p = zero_padded(n as nat, 9);
    lemma_decimal_digits(secs as nat);
    lemma_zero_padded(n as nat, 9);
    reveal_strlit("@unix_");
    reveal_strlit(".");
    let l = d.len() as int;
    assert(t =~= seq!['@', 'u', 'n', 'i', 'x', '_'] + d + seq!['.'] + p);
    assert(t.len() == 16 + l);
    assert(t.subrange(6, 6 + l) =~= d);
    assert(t.subrange(7 + l, 16 + l) =~= p);
    assert(is_digit(t[6]));
    lemma_digit_run(t, 6, d);
    lemma_digit_run(t, 7 + l, p);
    lemma_nine_digit_nanos(p);
    reveal_with_fuel(matched_len, 6);
}

/// A duration other than `i64::MIN` seconds reads back from
/// `#SECS.NNNNNNNNNs`.
#[verifier::spinoff_prover]
proof fn lemma_duration_reads_back(secs: i64, n: u32)
    requires
        secs > i64::MIN,
        n < 1_000_000_000,
    ensures
        ({
            let t = kind_text(Kind::Duration(secs, n));
            lex_token(t, 0) == Some(ok(t, 0, t.len() as int, Kind::Duration(secs, n)))
        }),
{
    let t = kind_text(Kind::Duration(secs, n));
    let mag: nat = if secs < 0 {
        (-secs) as nat
    } else {
        secs as nat
    };
    let d = decimal_digits(mag);
    lemma_pow10_nine();
    let p = zero_padded(n as nat, 9);
    lemma_decimal_digits(mag);
    lemma_zero_padded(n as nat, 9);
    reveal_strlit("#");
    reveal_strlit(".");
    reveal_strlit("s");
    let l = d.len() as int;
    let q: int = if secs < 0 {
        2
    } else {
        1
    };
    if secs < 0 {
        assert(t =~= seq!['#', '-'] + d + seq!['.'] + p + seq!['s']);
    } else {
        assert(t =~= seq!['#'] + d + seq!['.'] + p + seq!['s']);
    }
    assert(t.len() == q + l + 11);
    assert(t.subrange(q, q + l) =~= d);
    assert(t.subrange(q + l + 1, q + l + 10) =~= p);
    assert(is_digit(t[q]));
    lemma_digit_run(t, q, d);
    lemma_digit_run(t, q + l + 1, p);
    lemma_nine_digit_nanos(p);
    lemma_scan_to(t, t.len() as int, t.len() as int, CharClass::Digit);
    reveal_with_fuel(duration_parts, 2);
}

/// `n` zero-filled to at least `w` digits: digits that spell `n`.
proof fn lemma_zero_padded_any(n: nat, w: nat)
    ensures
        zero_padded(n, w).len() >= w,
        zero_padded(n, w).len() >= 1,
        forall|m: int| 0 <= m < zero_padded(n, w).len() ==> #[trigger] is_digit(zero_padded(n, w)[m]),
        digits_value(zero_padded(n, w), 10) == n,
{
    let d = decimal_digits(n);
    lemma_decimal_digits(n);
    if d.len() < w {
        let z = Seq::new((w - d.len()) as nat, |i: int| '0');
        lemma_leading_zeros(z, d);
        assert forall|m: int| 0 <= m < zero_padded(n, w).len() implies #[trigger] is_digit(
            zero_padded(n, w)[m],
        ) by {
            if m >= z.len() {
                assert(zero_padded(n, w)[m] == d[m - z.len()]);
            }
        }
    }
}

/// The text of a time of day, from its `_` on, reads as that time of day.
#[verifier::spinoff_prover]
proof fn lemma_today_suffix(h: u32, mi: u32, s: u32, n: u32)
    requires
        h <= 23,
        mi <= 59,
        n < 1_000_000_000,
    ensures
        ({
            let t = kind_text(Kind::TodayAt(h, mi, s, n));
            &&& time_suffix(t, 6, 0) == (
                Ok::<Option<(u32, u32, u32, u32)>, LexErr>(Some((h, mi, s, n))),
                t.len() as int,
            )
            &&& t.len() >= 13
            &&& t[0] == '@' && t[1] == 't' && t[2] == 'o' && t[3] == 'd' && t[4] == 'a'
            &&& t[5] == 'y' && t[6] == '_'
        }),
{
    let t = kind_text(Kind::TodayAt(h, mi, s, n));
    let hd = zero_padded(h as nat, 2);
    let md = zero_padded(mi as nat, 2);
    let sd = zero_padded(s as nat, 2);
    let nd = zero_padded(n as nat, 9);
    lemma_zero_padded_any(h as nat, 2);
    lemma_zero_padded_any(mi as nat, 2);
    lemma_zero_padded_any(s as nat, 2);
    lemma_zero_padded_any(n as nat, 9);
    lemma_pow10_nine();
    lemma_zero_padded(n as nat, 9);
    reveal_with_fuel(pow10, 3);
    lemma_zero_padded(h as nat, 2);
    lemma_zero_padded(mi as nat, 2);
    let ls = sd.len() as int;
    reveal_strlit("@today_");
    reveal_strlit(":");
    reveal_strlit(".");
    let hms = seq!['@', 't', 'o', 'd', 'a', 'y', '_'] + hd + seq![':'] + md + seq![':'] + sd;
    if n == 0 {
        assert(t =~= hms);
    } else {
        assert(t =~= hms + seq!['.'] + nd);
    }
    assert(t.subrange(7, 9) =~= hd);
    assert(t.subrange(10, 12) =~= md);
    assert(t.subrange(13, 13 + ls) =~= sd);
    lemma_digit_run(t, 7, hd);
    lemma_digit_run(t, 10, md);
    lemma_digit_run(t, 13, sd);
    if n != 0 {
        assert(t.subrange(14 + ls, 23 + ls) =~= nd);
        lemma_digit_run(t, 14 + ls, nd);
        lemma_nine_digit_nanos(nd);
    }
}

/// A time of day in range reads back from `@today_HH:MM:SS[.NNNNNNNNN]`.
#[verifier::spinoff_prover]
proof fn lemma_today_at_reads_back(h: u32, mi: u32, s: u32, n: u32)
    requires
        h <= 23,
        mi <= 59,
        n < 1_000_000_000,
    ensures
        ({
            let t = kind_text(Kind::TodayAt(h, mi, s, n));
            lex_token(t, 0) == Some(ok(t, 0, t.len() as int, Kind::TodayAt(h, mi, s, n)))
        }),
{
    let t = kind_text(Kind::TodayAt(h, mi, s, n));
    lemma_today_suffix(h, mi, s, n);
    reveal_with_fuel(matched_len, 6);
}

/// Writing a token kind out with `kind_text` (what `TokenKind::display`
/// gives) and reading the text back gives that kind again, with a span over
/// the whole text, and then `Eof`: for every kind that `reads_back` admits.
pub proof fn lemma_display_reads_back(k: Kind)
    requires
        reads_back(k),
    ensures
        ({
            let t = kind_text(k);
            &&& lex_token(t, 0) == Some(ok(t, 0, t.len() as int, k))
            &&& lex_token(t, t.len() as int) == Some(
                ok(t, t.len() as int, t.len() as int, Kind::Eof),
            )
        }),
{
    match k {
        Kind::Ident(s) => lemma_ident_reads_back(s),
        Kind::Int(n) => lemma_int_reads_back(n),
        Kind::Str(s) => lemma_str_reads_back(s),
        Kind::Instant(secs, n) => lemma_instant_reads_back(secs, n),
        Kind::Duration(secs, n) => lemma_duration_reads_back(secs, n),
        Kind::TodayAt(h, mi, s, n) => lemma_today_at_reads_back(h, mi, s, n),
        _ => lemma_fixed_reads_back(k),
    }
}


/// A digit below the radix (two, eight or sixteen), as written: a digit of
/// that radix, with that value, and no `_`, `.`, sign or exponent mark
/// outside the hexadecimal digits.
pub proof fn lemma_radix_char(k: int, r: int, upper: bool)
    requires
        r == 2 || r == 8 || r == 16,
        0 <= k < r,
    ensures
        digit_value(radix_char(k, upper)) == k,
        is_hex_digit(radix_char(k, upper)),
        r <= 8 ==> is_digit(radix_char(k, upper)) && radix_char(k, upper) <= '7',
        r == 2 ==> radix_char(k, upper) == '0' || radix_char(k, upper) == '1',
        radix_char(k, upper) != '_',
{
}

/// The digits of `n` in base two, eight or sixteen are digits of that base
/// and spell `n`.
pub proof fn lemma_radix_digits(n: nat, r: nat, upper: bool)
    requires
        r == 2 || r == 8 || r == 16,
    ensures
        radix_digits(n, r, upper).len() >= 1,
        forall|m: int|
            0 <= m < radix_digits(n, r, upper).len() ==> {
                let c = #[trigger] radix_digits(n, r, upper)[m];
                &&& is_hex_digit(c)
                &&& c != '_'
                &&& r <= 8 ==> is_digit(c) && c <= '7'
                &&& r == 2 ==> c == '0' || c == '1'
            },
        digits_value(radix_digits(n, r, upper), r as int) == n,
    decreases n,
{
    let d = radix_digits(n, r, upper);
    if n < r {
        lemma_radix_char(n as int, r as int, upper);
        assert(d.drop_last() =~= Seq::<char>::empty());
        assert(digits_value(d, r as int) == digits_value(d.drop_last(), r as int) * r + digit_value(
            d.last(),
        ));
    } else {
        vstd::arithmetic::div_mod::lemma_div_decreases(n as int, r as int);
        vstd::arithmetic::div_mod::lemma_div_pos_is_pos(n as int, r as int);
        vstd::arithmetic::div_mod::lemma_mod_pos_bound(n as int, r as int);
        vstd::arithmetic::div_mod::lemma_fundamental_div_mod(n as int, r as int);
        let q = n / r;
        let k = n % r;
        lemma_radix_digits(q, r, upper);
        lemma_radix_char(k as int, r as int, upper);
        assert(d.drop_last() =~= radix_digits(q, r, upper));
        assert(d.last() == radix_char(k as int, upper));
        assert(digits_value(d, r as int) == digits_value(d.drop_last(), r as int) * r + digit_value(
            d.last(),
        ));
        assert(q * r == r * q) by (nonlinear_arith);
        assert forall|m: int| 0 <= m < d.len() implies {
            let c = #[trigger] d[m];
            &&& is_hex_digit(c)
            &&& c != '_'
            &&& r <= 8 ==> is_digit(c) && c <= '7'
            &&& r == 2 ==> c == '0' || c == '1'
        } by {
            if m < d.len() - 1 {
                assert(d[m] == radix_digits(q, r, upper)[m]);
            }
        }
    }
}

proof fn lemma_no_underscore_chars(s: Seq<char>)
    requires
        forall|m: int| 0 <= m < s.len() ==> #[trigger] s[m] != '_',
    ensures
        without_underscores(s) == s,
    decreases s.len(),
{
    if s.len() > 0 {
        let p = s.drop_last();
        assert forall|m: int| 0 <= m < p.len() implies #[trigger] p[m] != '_' by {
            assert(p[m] == s[m]);
        }
        lemma_no_underscore_chars(p);
        assert(s[s.len() - 1] != '_');
        assert(p.push(s.last()) =~= s);
    }
}

/// Every integer literal with a radix prefix reads back as its value: for
/// every `n` from zero to `i64::MAX`, `0x` followed by the hexadecimal digits
/// of `n` (in lower or in upper case), `0o` followed by its octal digits, or
/// `0b` followed by its binary digits, is one `Int(n)` token over the whole
/// text, and `Eof` follows.
pub proof fn lemma_radix_int_reads(n: i64, prefix: char, upper: bool)
    requires
        n >= 0,
        prefix == 'x' || prefix == 'o' || prefix == 'b',
    ensures
        ({
            let r: nat = if prefix == 'x' {
                16
            } else if prefix == 'o' {
                8
            } else {
                2
            };
            let t = seq!['0', prefix] + radix_digits(n as nat, r, upper);
            &&& lex_token(t, 0) == Some(
                (
                    Ok::<TokenView, LexErr>(
                        TokenView { kind: Kind::Int(n), span: span_of(t, 0, t.len() as int) },
                    ),
                    t.len() as int,
                ),
            )
            &&& lex_token(t, t.len() as int) == Some(
                (
                    Ok::<TokenView, LexErr>(
                        TokenView {
                            kind: Kind::Eof,
                            span: span_of(t, t.len() as int, t.len() as int),
                        },
                    ),
                    t.len() as int,
                ),
            )
        }),
{
    let r: nat = if prefix == 'x' {
        16
    } else if prefix == 'o' {
        8
    } else {
        2
    };
    let d = radix_digits(n as nat, r, upper);
    let t = seq!['0', prefix] + d;
    lemma_radix_digits(n as nat, r, upper);
    let k = if prefix == 'x' {
        CharClass::HexOrUnderscore
    } else if prefix == 'o' {
        CharClass::OctalOrUnderscore
    } else {
        CharClass::BinaryOrUnderscore
    };
    assert forall|m: int| 2 <= m < t.len() implies #[trigger] in_class(t[m], k) by {
        assert(t[m] == d[m - 2]);
    }
    lemma_scan_to(t, 2, t.len() as int, k);
    assert(t.subrange(2, t.len() as int) =~= d);
    lemma_no_underscore_chars(d);
    lemma_skip_trivia(t, 0);
}


/// Whether every character of `d` is a decimal digit, and there is one.
pub open spec fn all_digits(d: Seq<char>) -> bool {
    d.len() > 0 && forall|m: int| 0 <= m < d.len() ==> #[trigger] is_digit(d[m])
}

/// Whether `s` has no `_`.
spec fn no_underscore(s: Seq<char>) -> bool {
    forall|m: int| 0 <= m < s.len() ==> #[trigger] s[m] != '_'
}

proof fn lemma_no_underscore_concat(x: Seq<char>, y: Seq<char>)
    requires
        no_underscore(x),
        no_underscore(y),
    ensures
        no_underscore(x + y),
{
    assert forall|m: int| 0 <= m < (x + y).len() implies #[trigger] (x + y)[m] != '_' by {
        if m < x.len() {
            assert((x + y)[m] == x[m]);
        } else {
            assert((x + y)[m] == y[m - x.len()]);
        }
    }
}

proof fn lemma_digits_no_underscore(d: Seq<char>)
    requires
        forall|m: int| 0 <= m < d.len() ==> #[trigger] is_digit(d[m]),
    ensures
        no_underscore(d),
{
    assert forall|m: int| 0 <= m < d.len() implies #[trigger] d[m] != '_' by {
        assert(is_digit(d[m]));
    }
}

/// A run of decimal digits `d` at `i` in `t`, followed by something that is
/// neither a digit nor `_`: where `scan` stops for digits and underscores.
proof fn lemma_digit_underscore_run(t: Seq<char>, i: int, d: Seq<char>)
    requires
        0 <= i,
        i + d.len() <= t.len(),
        t.subrange(i, i + d.len()) == d,
        forall|m: int| 0 <= m < d.len() ==> #[trigger] is_digit(d[m]),
        i + d.len() == t.len() || !in_class(t[i + d.len()], CharClass::DigitOrUnderscore),
    ensures
        scan(t, i, CharClass::DigitOrUnderscore) == i + d.len(),
{
    assert forall|m: int| i <= m < i + d.len() implies #[trigger] in_class(
        t[m],
        CharClass::DigitOrUnderscore,
    ) by {
        assert(t[m] == d[m - i]);
    }
    lemma_scan_to(t, i, i + d.len(), CharClass::DigitOrUnderscore);
}

/// The exponent of a float literal with no `_` in it: the mark at `e`, an
/// optional sign, and digits to the end of the text.
#[verifier::spinoff_prover]
proof fn lemma_exponent_part(t: Seq<char>, e: int, sg: Seq<char>, b: Seq<char>)
    requires
        0 <= e,
        t.len() == e + 1 + sg.len() + b.len(),
        t[e] == 'e' || t[e] == 'E',
        sg.len() == 0 || (sg.len() == 1 && (sg[0] == '+' || sg[0] == '-')),
        t.subrange(e + 1, e + 1 + sg.len()) == sg,
        t.subrange(e + 1 + sg.len(), t.len() as int) == b,
        all_digits(b),
        no_underscore(t),
    ensures
        float_with_exponent(t, 0, e) == ok(t, 0, t.len() as int, Kind::Float(t)),
{
    let k = e + 1 + sg.len();
    assert(t[k] == b[0]);
    assert(is_digit(b[0]));
    if sg.len() == 1 {
        assert(t[e + 1] == sg[0]);
    }
    assert(exponent_digits_start(t, e) == k);
    lemma_digit_underscore_run(t, k, b);
    lemma_digits_no_underscore(b);
    lemma_no_underscore_chars(b);
    assert(t.subrange(0, t.len() as int) =~= t);
    lemma_no_underscore_chars(t);
}

/// A number literal that starts with a digit and no radix prefix is read as
/// a decimal one.
#[verifier::spinoff_prover]
proof fn lemma_decimal_start(t: Seq<char>)
    requires
        t.len() >= 2,
        is_digit(t[0]),
        t[1] != 'x' && t[1] != 'X' && t[1] != 'o' && t[1] != 'O' && t[1] != 'b' && t[1] != 'B',
    ensures
        lex_token(t, 0) == Some(lex_decimal(t, 0)),
{
    lemma_skip_trivia(t, 0);
}

/// Digits `a`, then an optional fraction `.f`, up to the exponent mark at
/// `e`: the decimal literal goes on to its exponent.
#[verifier::spinoff_prover]
proof fn lemma_decimal_to_exponent(t: Seq<char>, a: Seq<char>, fraction: Option<Seq<char>>, e: int)
    requires
        all_digits(a),
        fraction matches Some(f) ==> all_digits(f) && e == a.len() + 1 + f.len() && t.subrange(
            a.len() + 1int,
            e,
        ) == f && t[a.len() as int] == '.',
        fraction is None ==> e == a.len(),
        e < t.len(),
        t.subrange(0, a.len() as int) == a,
        t[e] == 'e' || t[e] == 'E',
    ensures
        lex_decimal(t, 0) == float_with_exponent(t, 0, e),
{
    let la = a.len() as int;
    lemma_digit_underscore_run(t, 0, a);
    if let Some(f) = fraction {
        assert(t[la + 1] == f[0]);
        assert(is_digit(f[0]));
        lemma_digit_underscore_run(t, la + 1, f);
    }
}

/// Every decimal float literal with an exponent reads as one float token
/// over all of its text, whatever the case of the exponent mark: for digits
/// `a`, an optional fraction of digits `f`, the mark `e` or `E`, an optional
/// sign and exponent digits `b`, the text `a[.f](e|E)[+|-]b` is one `Float`
/// of that very text, and `Eof` follows.
#[verifier::spinoff_prover]
pub proof fn lemma_float_with_exponent_reads(
    a: Seq<char>,
    fraction: Option<Seq<char>>,
    mark: char,
    sign: Option<char>,
    b: Seq<char>,
)
    requires
        all_digits(a),
        fraction matches Some(f) ==> all_digits(f),
        mark == 'e' || mark == 'E',
        sign matches Some(c) ==> c == '+' || c == '-',
        all_digits(b),
    ensures
        ({
            let frac = match fraction {
                Some(f) => seq!['.'] + f,
                None => Seq::<char>::empty(),
            };
            let sg = match sign {
                Some(c) => seq![c],
                None => Seq::<char>::empty(),
            };
            let t = a + frac + seq![mark] + sg + b;
            &&& lex_token(t, 0) == Some(
                (
                    Ok::<TokenView, LexErr>(
                        TokenView { kind: Kind::Float(t), span: span_of(t, 0, t.len() as int) },
                    ),
                    t.len() as int,
                ),
            )
            &&& lex_token(t, t.len() as int) == Some(
                (
                    Ok::<TokenView, LexErr>(
                        TokenView {
                            kind: Kind::Eof,
                            span: span_of(t, t.len() as int, t.len() as int),
                        },
                    ),
                    t.len() as int,
                ),
            )
        }),
{
    let frac = match fraction {
        Some(f) => seq!['.'] + f,
        None => Seq::<char>::empty(),
    };
    let sg = match sign {
        Some(c) => seq![c],
        None => Seq::<char>::empty(),
    };
    let pre = a + frac;
    let t = pre + seq![mark] + (sg + b);
    assert(t =~= a + frac + seq![mark] + sg + b);
    let la = a.len() as int;
    let e = pre.len() as int;
    lemma_digits_no_underscore(a);
    lemma_digits_no_underscore(b);
    if let Some(f) = fraction {
        lemma_digits_no_underscore(f);
        assert(no_underscore(seq!['.']));
        lemma_no_underscore_concat(seq!['.'], f);
        assert(t.subrange(la + 1, e) =~= f);
        assert(t[la] == '.');
    }
    assert(no_underscore(frac));
    lemma_no_underscore_concat(a, frac);
    assert(no_underscore(seq![mark]));
    lemma_no_underscore_concat(pre, seq![mark]);
    assert(no_underscore(sg));
    lemma_no_underscore_concat(sg, b);
    lemma_no_underscore_concat(pre + seq![mark], sg + b);
    assert(t[e] == mark);
    assert(t.subrange(e + 1, e + 1 + sg.len()) =~= sg);
    assert(t.subrange(e + 1 + sg.len(), t.len() as int) =~= b);
    lemma_exponent_part(t, e, sg, b);
    assert(t.subrange(0, la) =~= a);
    lemma_decimal_to_exponent(t, a, fraction, e);
    assert(t[0] == a[0]);
    assert(is_digit(a[0]));
    if la == 1 {
        assert(t[1] == if fraction is Some {
            '.'
        } else {
            mark
        });
    } else {
        assert(t[1] == a[1]);
        assert(is_digit(a[1]));
    }
    lemma_decimal_start(t);
}

proof fn lemma_plain_run(s: Seq<char>, j: int, i: int, e: int, acc: Seq<char>)
    requires
        0 <= i <= e <= s.len(),
        forall|m: int| i <= m < e ==> #[trigger] s[m] != '"' && s[m] != '\\' && s[m] != '\n',
    ensures
        string_body(s, j, i, acc) == string_body(s, j, e, acc + s.subrange(i, e)),
    decreases e - i,
{
    if i < e {
        assert(s[i] != '"' && s[i] != '\\' && s[i] != '\n');
        lemma_plain_run(s, j, i + 1, e, acc.push(s[i]));
        assert(acc.push(s[i]) + s.subrange(i + 1, e) =~= acc + s.subrange(i, e));
    } else {
        assert(acc + s.subrange(i, e) =~= acc);
    }
}

/// Whether `c` may stand in a string literal as itself: not a quote, a
/// backslash or a line feed.
pub open spec fn plain(c: char) -> bool {
    c != '"' && c != '\\' && c != '\n'
}

/// Every simple escape stands for its character, wherever it is in a string:
/// for plain text `a` and `b`, the literal `"a\cb"` reads as one string
/// token over all of its text, of `a`, then the character that `\c` stands
/// for, then `b`: `\n` a line feed, `\t` a tab, `\r` a carriage return,
/// `\0` the character U+0000, `\\` a backslash and `\"` a quote.
pub proof fn lemma_simple_escapes(a: Seq<char>, c: char, b: Seq<char>)
    requires
        forall|m: int| 0 <= m < a.len() ==> plain(#[trigger] a[m]),
        forall|m: int| 0 <= m < b.len() ==> plain(#[trigger] b[m]),
        c == 'n' || c == 't' || c == 'r' || c == '0' || c == '\\' || c == '"',
    ensures
        ({
            let t = seq!['"'] + a + seq!['\\', c] + b + seq!['"'];
            let x = if c == 'n' {
                '\n'
            } else if c == 't' {
                '\t'
            } else if c == 'r' {
                '\r'
            } else if c == '0' {
                '\0'
            } else {
                c
            };
            lex_token(t, 0) == Some(
                (
                    Ok::<TokenView, LexErr>(
                        TokenView {
                            kind: Kind::Str(a + seq![x] + b),
                            span: span_of(t, 0, t.len() as int),
                        },
                    ),
                    t.len() as int,
                ),
            )
        }),
{
    let t = seq!['"'] + a + seq!['\\', c] + b + seq!['"'];
    let x = if c == 'n' {
        '\n'
    } else if c == 't' {
        '\t'
    } else if c == 'r' {
        '\r'
    } else if c == '0' {
        '\0'
    } else {
        c
    };
    let la = a.len() as int;
    let p = 1 + la;
    let q = p + 2;
    let end = q + b.len();
    assert(t.len() == end + 1);
    assert(t[0] == '"');
    lemma_skip_trivia(t, 0);
    assert forall|m: int| 1 <= m < p implies #[trigger] t[m] != '"' && t[m] != '\\' && t[m]
        != '\n' by {
        assert(t[m] == a[m - 1]);
        assert(plain(a[m - 1]));
    }
    lemma_plain_run(t, 0, 1, p, Seq::empty());
    assert(t.subrange(1, p) =~= a);
    assert(Seq::<char>::empty() + a =~= a);
    assert(t[p] == '\\' && t[p + 1] == c);
    assert(simple_escape(c) == Some(x));
    assert forall|m: int| q <= m < end implies #[trigger] t[m] != '"' && t[m] != '\\' && t[m]
        != '\n' by {
        assert(t[m] == b[m - q]);
        assert(plain(b[m - q]));
    }
    lemma_plain_run(t, 0, q, end, a.push(x));
    assert(t.subrange(q, end) =~= b);
    assert(a.push(x) + b =~= a + seq![x] + b);
    assert(t[end] == '"');
}


/// Every operator and punctuation mark reads as its token, wherever it
/// stands: where white space and comments from `i` end at `j` and the text
/// from `j` on is the mark `w` (and not the start of a longer one), the token
/// is the one for `w`, over `w`, and reading goes on after it.
#[verifier::spinoff_prover]
#[verifier::rlimit(50)]
pub proof fn lemma_marks_read(s: Seq<char>, i: int, j: int, w: Seq<char>, k: Kind)
    requires
        0 <= i <= s.len(),
        skip_trivia(s, i) == j,
        j + w.len() <= s.len(),
        s.subrange(j, j + w.len()) == w,
        (w == seq!['('] && k == Kind::LParen) ||
            (w == seq![')'] && k == Kind::RParen) ||
            (w == seq!['['] && k == Kind::LBracket) ||
            (w == seq![']'] && k == Kind::RBracket) ||
            (w == seq!['{'] && k == Kind::LBrace) ||
            (w == seq!['}'] && k == Kind::RBrace) ||
            (w == seq![','] && k == Kind::Comma) ||
            (w == seq![';'] && k == Kind::Semicolon) ||
            (w == seq!['+'] && k == Kind::Plus && (j + 1 == s.len() || (s[j + 1] != '+'))) ||
            (w == seq!['+', '+'] && k == Kind::PlusPlus) ||
            (w == seq!['-'] && k == Kind::Minus) ||
            (w == seq!['*'] && k == Kind::Star) ||
            (w == seq!['/'] && k == Kind::Slash) ||
            (w == seq!['%'] && k == Kind::Percent) ||
            (w == seq!['.'] && k == Kind::Dot && (j + 1 == s.len() || (s[j + 1] != '.'))) ||
            (w == seq!['.', '.'] && k == Kind::DotDot && (j + 2 == s.len() || (s[j + 2] != '.' && s[j + 2] != '='))) ||
            (w == seq!['.', '.', '='] && k == Kind::DotDotEq) ||
            (w == seq![':'] && k == Kind::Colon && (j + 1 == s.len() || (s[j + 1] != ':'))) ||
            (w == seq![':', ':'] && k == Kind::ColonColon) ||
            (w == seq!['='] && k == Kind::Eq && (j + 1 == s.len() || (s[j + 1] != '='))) ||
            (w == seq!['=', '='] && k == Kind::EqEq) ||
            (w == seq!['!'] && k == Kind::Bang && (j + 1 == s.len() || (s[j + 1] != '='))) ||
            (w == seq!['!', '='] && k == Kind::BangEq) ||
            (w == seq!['<'] && k == Kind::LAngle && (j + 1 == s.len() || (s[j + 1] != '='))) ||
            (w == seq!['<', '='] && k == Kind::LAngleEq) ||
            (w == seq!['>'] && k == Kind::RAngle && (j + 1 == s.len() || (s[j + 1] != '='))) ||
            (w == seq!['>', '='] && k == Kind::RAngleEq) ||
            (w == seq!['&', '&'] && k == Kind::AmpAmp) ||
            (w == seq!['|', '|'] && k == Kind::PipePipe) ||
            (w == seq!['|', '>'] && k == Kind::PipeR) ||
            (w == seq!['?'] && k == Kind::Question),
    ensures
        lex_token(s, i) == Some(
            (
                Ok::<TokenView, LexErr>(TokenView { kind: k, span: span_of(s, j, j + w.len()) }),
                j + w.len(),
            ),
        ),
{
    lemma_skip_trivia(s, i);
    assert(s[j] == w[0]);
    if w.len() > 1 {
        assert(s[j + 1] == w[1]);
    }
    if w.len() > 2 {
        assert(s[j + 2] == w[2]);
    }
}

/// Every keyword reads as its keyword, wherever it stands: where white space
/// and comments from `i` end at `j`, and the text from `j` on is one of the
/// words `let`, `table`, `if`, `else`, `true` or `false`, not followed by a
/// letter, number or `_`, the token read is that keyword, over the word, and
/// reading goes on after it.
#[verifier::spinoff_prover]
pub proof fn lemma_keywords_read(s: Seq<char>, i: int, j: int, w: Seq<char>, k: Kind)
    requires
        0 <= i <= s.len(),
        skip_trivia(s, i) == j,
        j + w.len() <= s.len(),
        s.subrange(j, j + w.len()) == w,
        j + w.len() == s.len() || !ident_continue(s[j + w.len()]),
        (w == seq!['l', 'e', 't'] && k == Kind::Let) || (w == seq!['t', 'a', 'b', 'l', 'e'] && k
            == Kind::Table) || (w == seq!['i', 'f'] && k == Kind::If) || (w == seq!['e', 'l', 's', 'e']
            && k == Kind::Else) || (w == seq!['t', 'r', 'u', 'e'] && k == Kind::True) || (w == seq![
            'f',
            'a',
            'l',
            's',
            'e',
        ] && k == Kind::False),
    ensures
        lex_token(s, i) == Some(
            (
                Ok::<TokenView, LexErr>(TokenView { kind: k, span: span_of(s, j, j + w.len()) }),
                j + w.len(),
            ),
        ),
{
    lemma_skip_trivia(s, i);
    let e = j + w.len();
    assert forall|m: int| j <= m < e implies #[trigger] in_class(s[m], CharClass::IdentContinue) by {
        assert(s[m] == w[m - j]);
    }
    assert(s[j] == w[0]);
    lemma_scan_to(s, j, e, CharClass::IdentContinue);
}


/// The digits of a calendar date, `YYYY-MM-DD`, each field zero-filled.
pub open spec fn date_text(y: nat, m: nat, d: nat) -> Seq<char> {
    zero_padded(y, 4) + seq!['-'] + zero_padded(m, 2) + seq!['-'] + zero_padded(d, 2)
}

/// The digits of a time of day, `_HH:MM:SS`, each field zero-filled.
pub open spec fn time_text(h: nat, mi: nat, s: nat) -> Seq<char> {
    seq!['_'] + zero_padded(h, 2) + seq![':'] + zero_padded(mi, 2) + seq![':'] + zero_padded(s, 2)
}

proof fn lemma_sub_of_sub(t: Seq<char>, p: int, x: Seq<char>, a: int, n: int)
    requires
        0 <= p,
        p + x.len() <= t.len(),
        t.subrange(p, p + x.len()) == x,
        0 <= a <= a + n <= x.len(),
    ensures
        t.subrange(p + a, p + a + n) == x.subrange(a, a + n),
{
    assert forall|m: int| 0 <= m < n implies #[trigger] t.subrange(p + a, p + a + n)[m]
        == x.subrange(a, a + n)[m] by {
        assert(t[p + a + m] == t.subrange(p, p + x.len())[a + m]);
    }
    assert(t.subrange(p + a, p + a + n) =~= x.subrange(a, a + n));
}

#[verifier::spinoff_prover]
proof fn lemma_time_text_suffix(t: Seq<char>, p: int, h: nat, mi: nat, s: nat)
    requires
        0 <= p,
        h <= 23,
        mi <= 59,
        s <= 59,
        t.len() == p + 9,
        t.subrange(p, p + 9) == time_text(h, mi, s),
    ensures
        time_suffix(t, p, 0) == (
            Ok::<Option<(u32, u32, u32, u32)>, LexErr>(Some((h as u32, mi as u32, s as u32, 0u32))),
            t.len() as int,
        ),
{
    reveal_with_fuel(pow10, 3);
    lemma_zero_padded(h, 2);
    lemma_zero_padded(mi, 2);
    lemma_zero_padded(s, 2);
    let tt = time_text(h, mi, s);
    assert(tt.len() == 9);
    assert(tt.subrange(1, 3) =~= zero_padded(h, 2));
    assert(tt.subrange(4, 6) =~= zero_padded(mi, 2));
    assert(tt.subrange(7, 9) =~= zero_padded(s, 2));
    lemma_sub_of_sub(t, p, tt, 1, 2);
    lemma_sub_of_sub(t, p, tt, 4, 2);
    lemma_sub_of_sub(t, p, tt, 7, 2);
    assert(t[p] == tt[0]);
    assert(t[p + 3] == tt[3]);
    assert(t[p + 6] == tt[6]);
    lemma_digit_run(t, p + 1, zero_padded(h, 2));
    lemma_digit_run(t, p + 4, zero_padded(mi, 2));
    lemma_digit_run(t, p + 7, zero_padded(s, 2));
}

/// The date fields of `@YYYY-MM-DD...`: where the digit runs end, and their
/// values.
#[verifier::spinoff_prover]
proof fn lemma_date_fields(t: Seq<char>, y: nat, m: nat, d: nat)
    requires
        y <= 9999,
        1 <= m <= 12,
        1 <= d <= 31,
        t.len() >= 11,
        t[0] == '@',
        t.subrange(1, 11) == date_text(y, m, d),
        t.len() == 11 || t[11] == '_',
    ensures
        scan(t, 1, CharClass::Digit) == 5,
        t.subrange(1, 5) == zero_padded(y, 4),
        digits_value(zero_padded(y, 4), 10) == y,
        t[5] == '-',
        scan(t, 6, CharClass::Digit) == 8,
        t.subrange(6, 8) == zero_padded(m, 2),
        digits_value(zero_padded(m, 2), 10) == m,
        t[8] == '-',
        scan(t, 9, CharClass::Digit) == 11,
        t.subrange(9, 11) == zero_padded(d, 2),
        digits_value(zero_padded(d, 2), 10) == d,
        is_digit(t[1]),
{
    reveal_with_fuel(pow10, 5);
    lemma_zero_padded(y, 4);
    lemma_zero_padded(m, 2);
    lemma_zero_padded(d, 2);
    let dt = date_text(y, m, d);
    assert(dt.len() == 10);
    assert(dt.subrange(0, 4) =~= zero_padded(y, 4));
    assert(dt.subrange(5, 7) =~= zero_padded(m, 2));
    assert(dt.subrange(8, 10) =~= zero_padded(d, 2));
    lemma_sub_of_sub(t, 1, dt, 0, 4);
    lemma_sub_of_sub(t, 1, dt, 5, 2);
    lemma_sub_of_sub(t, 1, dt, 8, 2);
    assert(t[5] == dt[4]);
    assert(t[8] == dt[7]);
    assert(t[1] == t.subrange(1, 5)[0]);
    lemma_digit_run(t, 1, zero_padded(y, 4));
    lemma_digit_run(t, 6, zero_padded(m, 2));
    lemma_digit_run(t, 9, zero_padded(d, 2));
}

/// A date literal whose fields have been read: the instant it stands for.
#[verifier::spinoff_prover]
#[verifier::rlimit(40)]
proof fn lemma_lex_date_of(
    t: Seq<char>,
    y: nat,
    m: nat,
    d: nat,
    tm: Option<(u32, u32, u32, u32)>,
    h: u32,
    mi: u32,
    s: u32,
)
    requires
        y <= 9999,
        date_exists(y as int, m as int, d as int),
        h <= 23 && mi <= 59 && s <= 59,
        tm is None ==> h == 0 && mi == 0 && s == 0,
        tm is Some ==> tm == Some((h, mi, s, 0u32)),
        t.len() >= 11,
        scan(t, 1, CharClass::Digit) == 5,
        digits_value(t.subrange(1, 5), 10) == y,
        t[1] != '-' && t[1] != '+',
        t[5] == '-',
        scan(t, 6, CharClass::Digit) == 8,
        digits_value(t.subrange(6, 8), 10) == m,
        t[8] == '-',
        scan(t, 9, CharClass::Digit) == 11,
        digits_value(t.subrange(9, 11), 10) == d,
        time_suffix(t, 11, 0) == (Ok::<Option<(u32, u32, u32, u32)>, LexErr>(tm), t.len() as int),
    ensures
        lex_date(t, 0) == ok(
            t,
            0,
            t.len() as int,
            Kind::Instant(
                (days_from_epoch(y as int, m as int, d as int) * 86400 + h * 3600 + mi * 60 + s) as i64,
                0,
            ),
        ),
{
}

/// Every date of the years 0 to 9999 reads back from `@YYYY-MM-DD`, with an
/// optional time of day `_HH:MM:SS`: as the instant that many seconds after
/// the Unix epoch that the calendar counts (`days_from_epoch` days, whose
/// laws are `calendar::lemma_days_follow` and `lemma_year_length`), with no
/// nanoseconds, over all of the text.
#[verifier::spinoff_prover]
#[verifier::rlimit(40)]
pub proof fn lemma_date_reads(y: u32, m: u32, d: u32, time: Option<(u32, u32, u32)>)
    requires
        y <= 9999,
        date_exists(y as int, m as int, d as int),
        time matches Some((h, mi, s)) ==> h <= 23 && mi <= 59 && s <= 59,
    ensures
        ({
            let (h, mi, s) = match time {
                Some(x) => x,
                None => (0u32, 0u32, 0u32),
            };
            let tail = match time {
                Some((h, mi, s)) => time_text(h as nat, mi as nat, s as nat),
                None => Seq::<char>::empty(),
            };
            let t = seq!['@'] + date_text(y as nat, m as nat, d as nat) + tail;
            let secs = days_from_epoch(y as int, m as int, d as int) * 86400 + h * 3600 + mi * 60
                + s;
            lex_token(t, 0) == Some(
                (
                    Ok::<TokenView, LexErr>(
                        TokenView {
                            kind: Kind::Instant(secs as i64, 0),
                            span: span_of(t, 0, t.len() as int),
                        },
                    ),
                    t.len() as int,
                ),
            )
        }),
{
    let (h, mi, s) = match time {
        Some(x) => x,
        None => (0u32, 0u32, 0u32),
    };
    let tail = match time {
        Some((h, mi, s)) => time_text(h as nat, mi as nat, s as nat),
        None => Seq::<char>::empty(),
    };
    let dt = date_text(y as nat, m as nat, d as nat);
    let t = seq!['@'] + dt + tail;
    reveal_with_fuel(pow10, 5);
    lemma_zero_padded(y as nat, 4);
    lemma_zero_padded(m as nat, 2);
    lemma_zero_padded(d as nat, 2);
    assert(dt.len() == 10);
    assert(t.subrange(1, 11) =~= dt);
    let tm: Option<(u32, u32, u32, u32)> = match time {
        Some((h, mi, s)) => Some((h, mi, s, 0u32)),
        None => None,
    };
    if let Some((h, mi, s)) = time {
        lemma_zero_padded(h as nat, 2);
        lemma_zero_padded(mi as nat, 2);
        lemma_zero_padded(s as nat, 2);
        assert(tail.len() == 9);
        assert(t.subrange(11, 20) =~= tail);
        assert(t[11] == tail[0]);
        lemma_time_text_suffix(t, 11, h as nat, mi as nat, s as nat);
    } else {
        assert(t.len() == 11);
    }
    lemma_date_fields(t, y as nat, m as nat, d as nat);
    lemma_lex_date_of(t, y as nat, m as nat, d as nat, tm, h, mi, s);
    assert(t[0] == '@');
    lemma_skip_trivia(t, 0);
    assert(lex_token(t, 0) == Some(lex_at(t, 0)));
}


/// Every word that is no keyword reads as an identifier, wherever it stands:
/// where white space and comments from `i` end at `j`, and the text from `j`
/// on is a word `w` that starts with a letter or `_`, goes on with letters,
/// numbers and `_`, is not followed by another of those, and is none of
/// `let`, `table`, `if`, `else`, `true`, `false`, the token is `Ident(w)`
/// over `w`, and reading goes on after it.
#[verifier::spinoff_prover]
pub proof fn lemma_identifiers_read(s: Seq<char>, i: int, j: int, w: Seq<char>)
    requires
        0 <= i <= s.len(),
        skip_trivia(s, i) == j,
        w.len() > 0,
        j + w.len() <= s.len(),
        s.subrange(j, j + w.len()) == w,
        ident_start(w[0]),
        forall|m: int| 0 <= m < w.len() ==> #[trigger] ident_continue(w[m]),
        j + w.len() == s.len() || !ident_continue(s[j + w.len()]),
        w != seq!['l', 'e', 't'],
        w != seq!['t', 'a', 'b', 'l', 'e'],
        w != seq!['i', 'f'],
        w != seq!['e', 'l', 's', 'e'],
        w != seq!['t', 'r', 'u', 'e'],
        w != seq!['f', 'a', 'l', 's', 'e'],
    ensures
        lex_token(s, i) == Some(
            (
                Ok::<TokenView, LexErr>(
                    TokenView { kind: Kind::Ident(w), span: span_of(s, j, j + w.len()) },
                ),
                j + w.len(),
            ),
        ),
{
    lemma_skip_trivia(s, i);
    let e = j + w.len();
    assert forall|m: int| j <= m < e implies #[trigger] in_class(s[m], CharClass::IdentContinue) by {
        assert(s[m] == w[m - j]);
        assert(ident_continue(w[m - j]));
    }
    assert(s[j] == w[0]);
    lemma_scan_to(s, j, e, CharClass::IdentContinue);
}


/// Every signed Unix timestamp reads as the instant it spells: for whole
/// seconds `w` up to `i64::MAX` and nine fractional digits `f`, the text
/// `@unix_[-]W.FFFFFFFFF` reads, over all of its text, as an instant of
/// `secs` seconds and `n` nanoseconds with `0 <= n < 10^9` and
/// `secs * 10^9 + n == ±(w * 10^9 + f)`.
#[verifier::spinoff_prover]
pub proof fn lemma_unix_reads(negative: bool, w: i64, f: u32)
    requires
        w >= 0,
        f < 1_000_000_000,
    ensures
        ({
            let t = seq!['@', 'u', 'n', 'i', 'x', '_'] + (if negative {
                seq!['-']
            } else {
                Seq::<char>::empty()
            }) + decimal_digits(w as nat) + seq!['.'] + zero_padded(f as nat, 9);
            let r = lex_token(t, 0);
            &&& r matches Some((Ok(tv), next)) && next == t.len() && tv.span == span_of(
                t,
                0,
                t.len() as int,
            ) && tv.kind is Instant
            &&& r matches Some((Ok(tv), _)) && (tv.kind matches Kind::Instant(secs, n) && 0 <= n
                < 1_000_000_000 && secs * 1_000_000_000 + n == if negative {
                -(w * 1_000_000_000 + f)
            } else {
                w * 1_000_000_000 + f
            })
        }),
{
    let sg = if negative {
        seq!['-']
    } else {
        Seq::<char>::empty()
    };
    let d = decimal_digits(w as nat);
    lemma_pow10_nine();
    let p = zero_padded(f as nat, 9);
    lemma_decimal_digits(w as nat);
    lemma_zero_padded(f as nat, 9);
    let t = seq!['@', 'u', 'n', 'i', 'x', '_'] + sg + d + seq!['.'] + p;
    let q: int = 6 + sg.len() as int;
    let l = d.len() as int;
    assert(t.len() == q + l + 10);
    assert(t.subrange(q, q + l) =~= d);
    assert(t.subrange(q + l + 1, q + l + 10) =~= p);
    assert(t[q] == d[0]);
    assert(is_digit(d[0]));
    if negative {
        assert(t[6] == '-');
    }
    assert(t[q + l] == '.');
    lemma_digit_run(t, q, d);
    lemma_digit_run(t, q + l + 1, p);
    lemma_nine_digit_nanos(p);
    lemma_normalize_instant(negative, w as int, f as int);
    reveal_with_fuel(matched_len, 6);
    lemma_skip_trivia(t, 0);
}

/// Every one-component duration reads as its number of seconds: for `n`
/// and a unit `w`, `d`, `h`, `m` or `s` (a week, day, hour, minute or
/// second: 604800, 86400, 3600, 60 or 1 seconds) whose product fits in an
/// `i64`, `#[-]N` followed by the unit reads, over all of its text, as a
/// duration of `±N` times the unit's seconds, with no nanoseconds.
#[verifier::spinoff_prover]
pub proof fn lemma_duration_unit_reads(negative: bool, n: i64, unit: char)
    requires
        n >= 0,
        unit == 'w' || unit == 'd' || unit == 'h' || unit == 'm' || unit == 's',
        n * (if unit == 'w' {
            604800int
        } else if unit == 'd' {
            86400int
        } else if unit == 'h' {
            3600int
        } else if unit == 'm' {
            60int
        } else {
            1int
        }) <= i64::MAX,
    ensures
        ({
            let secs = n * (if unit == 'w' {
                604800int
            } else if unit == 'd' {
                86400int
            } else if unit == 'h' {
                3600int
            } else if unit == 'm' {
                60int
            } else {
                1int
            });
            let t = seq!['#'] + (if negative {
                seq!['-']
            } else {
                Seq::<char>::empty()
            }) + decimal_digits(n as nat) + seq![unit];
            lex_token(t, 0) == Some(
                (
                    Ok::<TokenView, LexErr>(
                        TokenView {
                            kind: Kind::Duration((if negative {
                                -secs
                            } else {
                                secs
                            }) as i64, 0),
                            span: span_of(t, 0, t.len() as int),
                        },
                    ),
                    t.len() as int,
                ),
            )
        }),
{
    let sg = if negative {
        seq!['-']
    } else {
        Seq::<char>::empty()
    };
    let d = decimal_digits(n as nat);
    lemma_decimal_digits(n as nat);
    let t = seq!['#'] + sg + d + seq![unit];
    let q: int = 1 + sg.len() as int;
    let l = d.len() as int;
    assert(t.len() == q + l + 1);
    assert(t.subrange(q, q + l) =~= d);
    assert(t[q] == d[0]);
    assert(is_digit(d[0]));
    if negative {
        assert(t[1] == '-');
    }
    assert(t[q + l] == unit);
    lemma_digit_run(t, q, d);
    lemma_scan_to(t, t.len() as int, t.len() as int, CharClass::Digit);
    reveal_with_fuel(duration_parts, 2);
    lemma_skip_trivia(t, 0);
}


/// How times, instants and durations are written: a time of day as
/// `@today_HH:MM:SS`, each field in exactly two digits (for values below a
/// hundred), with `.` and exactly nine digits of nanoseconds after it when
/// there are any; an instant at or after 1970 as `@unix_`, its seconds in
/// decimal, `.` and exactly nine digits of nanoseconds; a duration as `#`,
/// its seconds in decimal (with `-` before them when negative), `.`, nine
/// digits of nanoseconds and `s`. The digits spell the values.
#[verifier::spinoff_prover]
pub proof fn lemma_time_texts(h: u32, mi: u32, s: u32, n: u32, secs: i64)
    requires
        h < 100,
        mi < 100,
        s < 100,
        n < 1_000_000_000,
        secs >= 0,
    ensures
        ({
            let t = kind_text(Kind::TodayAt(h, mi, s, n));
            &&& t.len() == if n == 0 {
                15int
            } else {
                25int
            }
            &&& t.subrange(0, 7) == seq!['@', 't', 'o', 'd', 'a', 'y', '_']
            &&& digits_value(t.subrange(7, 9), 10) == h
            &&& t[9] == ':'
            &&& digits_value(t.subrange(10, 12), 10) == mi
            &&& t[12] == ':'
            &&& digits_value(t.subrange(13, 15), 10) == s
            &&& n != 0 ==> t[15] == '.' && digits_value(t.subrange(16, 25), 10) == n
        }),
        ({
            let t = kind_text(Kind::Instant(secs, n));
            let l = decimal_digits(secs as nat).len() as int;
            &&& t.len() == 16 + l
            &&& t.subrange(0, 6) == seq!['@', 'u', 'n', 'i', 'x', '_']
            &&& digits_value(t.subrange(6, 6 + l), 10) == secs
            &&& t[6 + l] == '.'
            &&& digits_value(t.subrange(7 + l, 16 + l), 10) == n
        }),
        ({
            let t = kind_text(Kind::Duration(secs, n));
            let l = decimal_digits(secs as nat).len() as int;
            &&& t.len() == 12 + l
            &&& t[0] == '#'
            &&& digits_value(t.subrange(1, 1 + l), 10) == secs
            &&& t[1 + l] == '.'
            &&& digits_value(t.subrange(2 + l, 11 + l), 10) == n
            &&& t[11 + l] == 's'
        }),
{
    reveal_with_fuel(pow10, 3);
    lemma_pow10_nine();
    lemma_zero_padded(h as nat, 2);
    lemma_zero_padded(mi as nat, 2);
    lemma_zero_padded(s as nat, 2);
    lemma_zero_padded(n as nat, 9);
    lemma_decimal_digits(secs as nat);
    reveal_strlit("@today_");
    reveal_strlit(":");
    reveal_strlit(".");
    reveal_strlit("@unix_");
    reveal_strlit("#");
    reveal_strlit("s");
    let hd = zero_padded(h as nat, 2);
    let md = zero_padded(mi as nat, 2);
    let sd = zero_padded(s as nat, 2);
    let nd = zero_padded(n as nat, 9);
    let hms = seq!['@', 't', 'o', 'd', 'a', 'y', '_'] + hd + seq![':'] + md + seq![':'] + sd;
    let t = kind_text(Kind::TodayAt(h, mi, s, n));
    if n == 0 {
        assert(t =~= hms);
    } else {
        assert(t =~= hms + seq!['.'] + nd);
        assert(t.subrange(16, 25) =~= nd);
    }
    assert(t.subrange(0, 7) =~= seq!['@', 't', 'o', 'd', 'a', 'y', '_']);
    assert(t.subrange(7, 9) =~= hd);
    assert(t.subrange(10, 12) =~= md);
    assert(t.subrange(13, 15) =~= sd);
    let d = decimal_digits(secs as nat);
    let l = d.len() as int;
    let ti = kind_text(Kind::Instant(secs, n));
    assert(ti =~= seq!['@', 'u', 'n', 'i', 'x', '_'] + d + seq!['.'] + nd);
    assert(ti.subrange(0, 6) =~= seq!['@', 'u', 'n', 'i', 'x', '_']);
    assert(ti.subrange(6, 6 + l) =~= d);
    assert(ti.subrange(7 + l, 16 + l) =~= nd);
    let td = kind_text(Kind::Duration(secs, n));
    assert(td =~= seq!['#'] + d + seq!['.'] + nd + seq!['s']);
    assert(td.subrange(1, 1 + l) =~= d);
    assert(td.subrange(2 + l, 11 + l) =~= nd);
}


/// An integer is written in decimal: a `-` exactly when it is negative, then
/// digits, with no leading zero, that spell its magnitude.
pub proof fn lemma_int_text(n: i64)
    ensures
        ({
            let t = kind_text(Kind::Int(n));
            let start: int = if n < 0 {
                1
            } else {
                0
            };
            let digits = t.subrange(start, t.len() as int);
            &&& (n < 0) == (t.len() > 0 && t[0] == '-')
            &&& digits.len() >= 1
            &&& forall|m: int| 0 <= m < digits.len() ==> #[trigger] is_digit(digits[m])
            &&& digits.len() > 1 ==> digits[0] != '0'
            &&& digits_value(digits, 10) == if n < 0 {
                -n
            } else {
                n as int
            }
        }),
{
    let mag: nat = if n < 0 {
        (-n) as nat
    } else {
        n as nat
    };
    let d = decimal_digits(mag);
    lemma_decimal_digits(mag);
    lemma_leading_digit(mag);
    let t = kind_text(Kind::Int(n));
    if n < 0 {
        assert(t =~= seq!['-'] + d);
        assert(t.subrange(1, t.len() as int) =~= d);
    } else {
        assert(t.subrange(0, t.len() as int) =~= d);
        assert(is_digit(d[0]));
    }
}

/// Decimal digits have no leading zero.
proof fn lemma_leading_digit(n: nat)
    ensures
        decimal_digits(n).len() > 1 ==> decimal_digits(n)[0] != '0',
        n > 0 ==> decimal_digits(n)[0] != '0',
    decreases n,
{
    if n >= 10 {
        lemma_leading_digit(n / 10);
        lemma_decimal_digits(n / 10);
        assert(decimal_digits(n)[0] == decimal_digits(n / 10)[0]);
    }
}


/// White space is skipped: a read from a white-space character reads on from
/// the next one.
pub proof fn lemma_white_space_skipped(s: Seq<char>, i: int)
    requires
        0 <= i < s.len(),
        unicode_white_space(s[i]),
    ensures
        skip_trivia(s, i) == skip_trivia(s, i + 1),
{
}

/// A line comment is skipped: from `//` up to the end of its line.
pub proof fn lemma_line_comment_skipped(s: Seq<char>, i: int, e: int)
    requires
        0 <= i,
        i + 2 <= e <= s.len(),
        s[i] == '/' && s[i + 1] == '/',
        forall|m: int| i + 2 <= m < e ==> #[trigger] s[m] != '\n',
        e == s.len() || s[e] == '\n',
    ensures
        skip_trivia(s, i) == skip_trivia(s, e),
{
    assert forall|m: int| i + 2 <= m < e implies #[trigger] in_class(s[m], CharClass::NotNewline) by {
        assert(s[m] != '\n');
    }
    lemma_scan_to(s, i + 2, e, CharClass::NotNewline);
}

proof fn lemma_comment_body_run(s: Seq<char>, i: int, e: int, depth: nat)
    requires
        0 <= i <= e <= s.len(),
        forall|m: int| i <= m < e ==> #[trigger] s[m] != '/' && s[m] != '*',
    ensures
        block_comment_end(s, i, depth) == block_comment_end(s, e, depth),
    decreases e - i,
{
    if i < e {
        assert(s[i] != '/' && s[i] != '*');
        lemma_comment_body_run(s, i + 1, e, depth);
    }
}

/// A block comment is skipped, and block comments nest: from `/*` at `i`
/// up to the `*/` that ends at `e`, with one comment `/* ... */` from `j` to
/// `k` nested in it when `nested`, and no other `/` or `*` in between.
pub proof fn lemma_block_comment_skipped(s: Seq<char>, i: int, nested: bool, j: int, k: int, e: int)
    requires
        0 <= i,
        e <= s.len(),
        s[i] == '/' && s[i + 1] == '*',
        s[e - 2] == '*' && s[e - 1] == '/',
        nested ==> i + 2 <= j && j + 4 <= k && k + 2 <= e && s[j] == '/' && s[j + 1] == '*' && s[k
            - 2] == '*' && s[k - 1] == '/',
        !nested ==> i + 4 <= e,
        forall|m: int|
            i + 2 <= m < e - 2 && !(nested && (j <= m < j + 2 || k - 2 <= m < k)) ==> #[trigger] s[m]
                != '/' && s[m] != '*',
    ensures
        skip_trivia(s, i) == skip_trivia(s, e),
{
    if nested {
        lemma_comment_body_run(s, i + 2, j, 1);
        lemma_comment_body_run(s, j + 2, k - 2, 2);
        lemma_comment_body_run(s, k, e - 2, 1);
    } else {
        lemma_comment_body_run(s, i + 2, e - 2, 1);
    }
}

} // verus!
