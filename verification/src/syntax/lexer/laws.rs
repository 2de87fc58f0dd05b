//! What holds of every read of the parser's lexer, whatever the text.
use vstd::prelude::*;

use super::error::LexicalError;
use super::grammar::{
    at, block_comment, lemma_trivia, radix_at, radix_class, read_at, read_numeric, read_token, span_of,
    string_rest, trivia, Read,
};
use super::token::{Tok, TokView};
use crate::lexer::laws::{lemma_decimal_digits, lemma_radix_digits};
use crate::lexer::scan::{in_class, is_ascii_alphabetic, is_digit, lemma_scan, scan, CharClass};
use crate::text::{decimal_digits, radix_digits};

verus! {

/// What a read of a token that starts at `j` promises: it reads at least one
/// character and stays in the text, and a token ends where the read stopped
/// and starts at `j`, or, for a number with a radix prefix, after the
/// prefix.
pub open spec fn well_read(s: Seq<char>, j: int, r: Read) -> bool {
    &&& j < r.1 <= s.len()
    &&& r.0 is Ok ==> {
        let t = r.0->Ok_0;
        &&& t.kind !is Eof
        &&& t.span == span_of(s, j, r.1) || (radix_at(s, j) != 10 && t.span == span_of(
            s,
            j + 2,
            r.1,
        ))
    }
}

proof fn lemma_string_rest(s: Seq<char>, j: int, k: int)
    requires
        0 <= j < k <= s.len(),
    ensures
        well_read(s, j, string_rest(s, j, k)),
    decreases s.len() - k,
{
    lemma_scan(s, k, CharClass::NotQuoteNorBackslash);
    let p = scan(s, k, CharClass::NotQuoteNorBackslash);
    if p < s.len() && s[p] != '"' {
        if at(s, p + 1, '"') {
            lemma_string_rest(s, j, p + 2);
        } else {
            lemma_string_rest(s, j, p + 1);
        }
    }
}

proof fn lemma_read_numeric(s: Seq<char>, j: int)
    requires
        0 <= j < s.len(),
        is_digit(s[j]),
    ensures
        well_read(s, j, read_numeric(s, j)),
{
    let radix = radix_at(s, j);
    let k = if radix != 10 {
        j + 2
    } else {
        j
    };
    lemma_scan(s, k, radix_class(radix));
    assert(radix == 10 ==> in_class(s[j], radix_class(radix)));
    let ie = scan(s, k, radix_class(radix));
    if ie > k {
        if at(s, ie, '.') && ie + 1 < s.len() {
            lemma_scan(s, ie + 1, CharClass::Digit);
        }
        let fe = if at(s, ie, '.') && ie + 1 < s.len() && is_digit(s[ie + 1]) {
            scan(s, ie + 1, CharClass::Digit)
        } else {
            ie
        };
        if at(s, fe, 'e') || at(s, fe, 'E') {
            let es = if at(s, fe + 1, '-') || at(s, fe + 1, '+') {
                fe + 2
            } else {
                fe + 1
            };
            lemma_scan(s, es, CharClass::Digit);
        }
    }
}

proof fn lemma_read_at(s: Seq<char>, j: int)
    requires
        0 <= j < s.len(),
    ensures
        well_read(s, j, read_at(s, j)),
{
    let c = s[j];
    if c == '_' || is_ascii_alphabetic(c) {
        lemma_scan(s, j, CharClass::AsciiWord);
        assert(in_class(c, CharClass::AsciiWord));
    } else if is_digit(c) {
        lemma_read_numeric(s, j);
    } else if c == '"' {
        lemma_string_rest(s, j, j + 1);
    }
}

/// Every read makes progress and stays in the text. From index `i`, the
/// lexer skips white space and comments; where that reaches the end of the
/// text it gives `Eof` there and reads nothing more, and otherwise it reads
/// at least one character (a comment left open is an error up to the end of
/// the text). A token ends where the read stopped and starts at its first
/// character, or after the radix prefix of a number. So reading token after
/// token reaches `Eof`, or a place where the lexer makes no progress, after
/// at most as many reads as the text has characters.
pub proof fn lemma_read_progress(s: Seq<char>, i: int)
    requires
        0 <= i <= s.len(),
        read_token(s, i) is Some,
    ensures
        ({
            let (r, next) = read_token(s, i)->0;
            &&& i <= next <= s.len()
            &&& (trivia(s, i) == Some(Ok::<int, int>(s.len() as int))) == (r is Ok
                && r->Ok_0.kind is Eof)
            &&& trivia(s, i) == Some(Ok::<int, int>(s.len() as int)) ==> next == s.len() && r
                == Ok::<TokView, LexicalError>(
                TokView { kind: Tok::Eof, span: span_of(s, s.len() as int, s.len() as int) },
            )
            &&& trivia(s, i) != Some(Ok::<int, int>(s.len() as int)) ==> i < next
            &&& trivia(s, i) matches Some(Ok(j)) ==> (j < s.len() ==> well_read(s, j, (r, next)))
        }),
{
    lemma_trivia(s, i);
    if let Some(Ok(j)) = trivia(s, i) {
        if j < s.len() {
            lemma_read_at(s, j);
        }
    }
}

/// Once the lexer has given `Eof`, it gives `Eof` again, at the same place,
/// on every later read.
pub proof fn lemma_eof_repeats(s: Seq<char>, i: int)
    requires
        0 <= i <= s.len(),
        read_token(s, i) matches Some((Ok(t), _)) && t.kind is Eof,
    ensures
        ({
            let l = read_token(s, i)->0;
            read_token(s, l.1) == read_token(s, i)
        }),
{
    lemma_read_progress(s, i);
    lemma_trivia(s, s.len() as int);
    lemma_scan(s, s.len() as int, CharClass::AsciiWhitespace);
}


/// Every keyword reads as its keyword, wherever it stands: where white space
/// and comments from `i` end at `j`, and the text from `j` on is one of the
/// words `if`, `let`, `create`, `set`, `migrate` or `drop` not followed by a
/// letter, digit or `_`, the token read is that keyword (`If`, `Let`,
/// `Create`, `SetKeyword`, `Migrate`, `Drop`), over the word, and reading goes
/// on after it.
pub proof fn lemma_keywords_read(s: Seq<char>, i: int, j: int, w: Seq<char>, k: Tok)
    requires
        0 <= i <= s.len(),
        trivia(s, i) == Some(Ok::<int, int>(j)),
        j + w.len() <= s.len(),
        s.subrange(j, j + w.len()) == w,
        j + w.len() == s.len() || !in_class(s[j + w.len()], CharClass::AsciiWord),
        (w == seq!['i', 'f'] && k == Tok::If) || (w == seq!['l', 'e', 't'] && k == Tok::Let) || (w
            == seq!['c', 'r', 'e', 'a', 't', 'e'] && k == Tok::Create) || (w == seq!['s', 'e', 't']
            && k == Tok::SetKeyword) || (w == seq!['m', 'i', 'g', 'r', 'a', 't', 'e'] && k
            == Tok::Migrate) || (w == seq!['d', 'r', 'o', 'p'] && k == Tok::Drop),
    ensures
        read_token(s, i) == Some(
            (
                Ok::<TokView, LexicalError>(
                    TokView { kind: k, span: span_of(s, j, j + w.len()) },
                ),
                j + w.len(),
            ),
        ),
{
    lemma_trivia(s, i);
    let e = j + w.len();
    assert forall|m: int| j <= m < e implies #[trigger] in_class(s[m], CharClass::AsciiWord) by {
        assert(s[m] == w[m - j]);
    }
    assert(s[j] == w[0]);
    lemma_scan_to(s, j, e, CharClass::AsciiWord);
}

proof fn lemma_scan_to(s: Seq<char>, i: int, e: int, k: CharClass)
    requires
        0 <= i <= e <= s.len(),
        forall|m: int| i <= m < e ==> #[trigger] in_class(s[m], k),
        e == s.len() || !in_class(s[e], k),
    ensures
        scan(s, i, k) == e,
    decreases e - i,
{
    if i < e {
        lemma_scan_to(s, i + 1, e, k);
    }
}

/// Every integer literal with a radix prefix reads as its value: for every
/// `n` from zero to `i64::MAX`, `0x` followed by the hexadecimal digits of
/// `n` (in lower or in upper case), `0o` followed by its octal digits, or
/// `0b` followed by its binary digits, reads as `IntLit(n)` over its digits
/// (the span leaves out the prefix), and `Eof` follows.
pub proof fn lemma_radix_int_reads(n: i64, prefix: char, upper: bool)
    requires
        n >= 0,
        prefix == 'x' || prefix == 'o' || prefix == 'b',
    ensures
        ({
            let r: nat = if prefix == 'x' {
                16
            } else if prefix == 'o' {
                8
            } else {
                2
            };
            let t = seq!['0', prefix] + radix_digits(n as nat, r, upper);
            &&& read_token(t, 0) == Some(
                (
                    Ok::<TokView, LexicalError>(
                        TokView { kind: Tok::IntLit(n), span: span_of(t, 2, t.len() as int) },
                    ),
                    t.len() as int,
                ),
            )
            &&& read_token(t, t.len() as int) == Some(
                (
                    Ok::<TokView, LexicalError>(
                        TokView {
                            kind: Tok::Eof,
                            span: span_of(t, t.len() as int, t.len() as int),
                        },
                    ),
                    t.len() as int,
                ),
            )
        }),
{
    let r: nat = if prefix == 'x' {
        16
    } else if prefix == 'o' {
        8
    } else {
        2
    };
    let d = radix_digits(n as nat, r, upper);
    let t = seq!['0', prefix] + d;
    lemma_radix_digits(n as nat, r, upper);
    let k = if prefix == 'x' {
        CharClass::HexDigit
    } else if prefix == 'o' {
        CharClass::OctalDigit
    } else {
        CharClass::BinaryDigit
    };
    assert(radix_class(radix_at(t, 0)) == k);
    assert forall|m: int| 2 <= m < t.len() implies #[trigger] in_class(t[m], k) by {
        assert(t[m] == d[m - 2]);
    }
    lemma_scan_to(t, 2, t.len() as int, k);
    assert(t.subrange(2, t.len() as int) =~= d);
    lemma_scan(t, 0, CharClass::AsciiWhitespace);
    assert(scan(t, 0, CharClass::AsciiWhitespace) == 0);
    lemma_scan(t, t.len() as int, CharClass::AsciiWhitespace);
}


/// Every operator and punctuation mark reads as its token, wherever it
/// stands: where white space and comments from `i` end at `j` and the text
/// from `j` on is the mark `w` (and not the start of a longer one), the token
/// is the one for `w`, over `w`, and reading goes on after it.
#[verifier::spinoff_prover]
#[verifier::rlimit(50)]
pub proof fn lemma_marks_read(s: Seq<char>, i: int, j: int, w: Seq<char>, k: Tok)
    requires
        0 <= i <= s.len(),
        trivia(s, i) == Some(Ok::<int, int>(j)),
        j + w.len() <= s.len(),
        s.subrange(j, j + w.len()) == w,
        (w == seq!['|', '|'] && k == Tok::LogicalOr) ||
            (w == seq!['|', '>'] && k == Tok::Pipeline) ||
            (w == seq!['&', '&'] && k == Tok::LogicalAnd) ||
            (w == seq!['!', '='] && k == Tok::NotEqual) ||
            (w == seq!['!'] && k == Tok::Bang && (j + 1 == s.len() || (s[j + 1] != '='))) ||
            (w == seq!['=', '='] && k == Tok::Equal) ||
            (w == seq!['='] && k == Tok::Assign && (j + 1 == s.len() || (s[j + 1] != '='))) ||
            (w == seq!['>', '='] && k == Tok::GreaterEqual) ||
            (w == seq!['>'] && k == Tok::Greater && (j + 1 == s.len() || (s[j + 1] != '='))) ||
            (w == seq!['<', '='] && k == Tok::LessEqual) ||
            (w == seq!['<'] && k == Tok::Less && (j + 1 == s.len() || (s[j + 1] != '='))) ||
            (w == seq![';'] && k == Tok::Semicolon) ||
            (w == seq![':', ':'] && k == Tok::DoubleColon) ||
            (w == seq![':'] && k == Tok::Colon && (j + 1 == s.len() || (s[j + 1] != ':'))) ||
            (w == seq![','] && k == Tok::Comma) ||
            (w == seq!['.', '.', '.'] && k == Tok::TripleDot) ||
            (w == seq!['.'] && k == Tok::Dot && (j + 1 == s.len() || (s[j + 1] != '.'))) ||
            (w == seq!['('] && k == Tok::LParen) ||
            (w == seq![')'] && k == Tok::RParen) ||
            (w == seq!['['] && k == Tok::LBracket) ||
            (w == seq![']'] && k == Tok::RBracket) ||
            (w == seq!['{'] && k == Tok::LBrace) ||
            (w == seq!['}'] && k == Tok::RBrace) ||
            (w == seq!['+'] && k == Tok::Plus) ||
            (w == seq!['-'] && k == Tok::Minus) ||
            (w == seq!['*'] && k == Tok::Star) ||
            (w == seq!['/'] && k == Tok::Slash) ||
            (w == seq!['%'] && k == Tok::Percent),
    ensures
        read_token(s, i) == Some(
            (
                Ok::<TokView, LexicalError>(
                    TokView { kind: k, span: span_of(s, j, j + w.len()) },
                ),
                j + w.len(),
            ),
        ),
{
    lemma_trivia(s, i);
    assert(s[j] == w[0]);
    if w.len() > 1 {
        assert(s[j + 1] == w[1]);
    }
    if w.len() > 2 {
        assert(s[j + 2] == w[2]);
    }
}


/// Every non-negative integer reads back from its decimal digits: for every
/// `n` from zero to `i64::MAX`, its decimal digits read as `IntLit(n)` over
/// all of the text, and `Eof` follows.
pub proof fn lemma_decimal_int_reads(n: i64)
    requires
        n >= 0,
    ensures
        ({
            let t = decimal_digits(n as nat);
            &&& read_token(t, 0) == Some(
                (
                    Ok::<TokView, LexicalError>(
                        TokView { kind: Tok::IntLit(n), span: span_of(t, 0, t.len() as int) },
                    ),
                    t.len() as int,
                ),
            )
            &&& read_token(t, t.len() as int) == Some(
                (
                    Ok::<TokView, LexicalError>(
                        TokView {
                            kind: Tok::Eof,
                            span: span_of(t, t.len() as int, t.len() as int),
                        },
                    ),
                    t.len() as int,
                ),
            )
        }),
{
    let t = decimal_digits(n as nat);
    lemma_decimal_digits(n as nat);
    assert forall|m: int| 0 <= m < t.len() implies #[trigger] in_class(t[m], CharClass::Digit) by {
        assert(is_digit(t[m]));
    }
    lemma_scan_to(t, 0, t.len() as int, CharClass::Digit);
    assert(t.subrange(0, t.len() as int) =~= t);
    assert(is_digit(t[0]));
    if t.len() > 1 {
        assert(is_digit(t[1]));
    }
    lemma_scan(t, 0, CharClass::AsciiWhitespace);
    assert(scan(t, 0, CharClass::AsciiWhitespace) == 0);
    lemma_scan(t, t.len() as int, CharClass::AsciiWhitespace);
}

/// Every string literal is read as written: for any text `b` with no quote
/// and no backslash, `"b"` reads as `StringLit(b)` over all of the text, and
/// `Eof` follows.
pub proof fn lemma_raw_string_reads(b: Seq<char>)
    requires
        forall|m: int| 0 <= m < b.len() ==> #[trigger] b[m] != '"' && b[m] != '\\',
    ensures
        ({
            let t = seq!['"'] + b + seq!['"'];
            read_token(t, 0) == Some(
                (
                    Ok::<TokView, LexicalError>(
                        TokView { kind: Tok::StringLit(b), span: span_of(t, 0, t.len() as int) },
                    ),
                    t.len() as int,
                ),
            )
        }),
{
    let t = seq!['"'] + b + seq!['"'];
    let e = t.len() - 1;
    assert forall|m: int| 1 <= m < e implies #[trigger] in_class(
        t[m],
        CharClass::NotQuoteNorBackslash,
    ) by {
        assert(t[m] == b[m - 1]);
    }
    assert(t[e] == '"');
    lemma_scan_to(t, 1, e, CharClass::NotQuoteNorBackslash);
    assert(t.subrange(1, e) =~= b);
    assert(t[0] == '"');
    lemma_scan(t, 0, CharClass::AsciiWhitespace);
    assert(scan(t, 0, CharClass::AsciiWhitespace) == 0);
}

/// Every word that is no keyword reads as an identifier, wherever it stands:
/// where white space and comments from `i` end at `j`, and the text from `j`
/// on is a word `w` of ASCII letters, digits and `_` starting with a letter
/// or `_`, not followed by another such character, and `w` is none of `if`,
/// `let`, `create`, `set`, `migrate`, `drop`, the token is `Ident(w)` over
/// `w`, and reading goes on after it.
pub proof fn lemma_identifiers_read(s: Seq<char>, i: int, j: int, w: Seq<char>)
    requires
        0 <= i <= s.len(),
        trivia(s, i) == Some(Ok::<int, int>(j)),
        w.len() > 0,
        j + w.len() <= s.len(),
        s.subrange(j, j + w.len()) == w,
        w[0] == '_' || is_ascii_alphabetic(w[0]),
        forall|m: int| 0 <= m < w.len() ==> #[trigger] in_class(w[m], CharClass::AsciiWord),
        j + w.len() == s.len() || !in_class(s[j + w.len()], CharClass::AsciiWord),
        w != seq!['i', 'f'],
        w != seq!['l', 'e', 't'],
        w != seq!['c', 'r', 'e', 'a', 't', 'e'],
        w != seq!['s', 'e', 't'],
        w != seq!['m', 'i', 'g', 'r', 'a', 't', 'e'],
        w != seq!['d', 'r', 'o', 'p'],
    ensures
        read_token(s, i) == Some(
            (
                Ok::<TokView, LexicalError>(
                    TokView { kind: Tok::Ident(w), span: span_of(s, j, j + w.len()) },
                ),
                j + w.len(),
            ),
        ),
{
    lemma_trivia(s, i);
    let e = j + w.len();
    assert forall|m: int| j <= m < e implies #[trigger] in_class(s[m], CharClass::AsciiWord) by {
        assert(s[m] == w[m - j]);
    }
    assert(s[j] == w[0]);
    lemma_scan_to(s, j, e, CharClass::AsciiWord);
}


/// A run of decimal digits `d` at `i` in `t`, followed by a non-digit or the
/// end: where `scan` stops for digits.
proof fn lemma_digits_at(t: Seq<char>, i: int, d: Seq<char>)
    requires
        0 <= i,
        i + d.len() <= t.len(),
        t.subrange(i, i + d.len()) == d,
        forall|m: int| 0 <= m < d.len() ==> #[trigger] is_digit(d[m]),
        i + d.len() == t.len() || !is_digit(t[i + d.len()]),
    ensures
        scan(t, i, CharClass::Digit) == i + d.len(),
{
    assert forall|m: int| i <= m < i + d.len() implies #[trigger] in_class(t[m], CharClass::Digit) by {
        assert(t[m] == d[m - i]);
    }
    lemma_scan_to(t, i, i + d.len(), CharClass::Digit);
}

/// Whether every character of `d` is a decimal digit, and there is one.
pub open spec fn all_digits(d: Seq<char>) -> bool {
    d.len() > 0 && forall|m: int| 0 <= m < d.len() ==> #[trigger] is_digit(d[m])
}

/// Every decimal float literal reads as one float token over all of its
/// text: for digits `a`, an optional fraction of digits `f`, and an optional
/// exponent (the mark `e` or `E`, an optional sign and digits `b`), with a
/// fraction or an exponent or both, `a[.f][(e|E)[+|-]b]` reads as `FloatLit`
/// of that very text, and `Eof` follows.
#[verifier::spinoff_prover]
#[verifier::rlimit(40)]
pub proof fn lemma_decimal_float_reads(
    a: Seq<char>,
    fraction: Option<Seq<char>>,
    exponent: Option<(char, Option<char>, Seq<char>)>,
)
    requires
        all_digits(a),
        fraction matches Some(f) ==> all_digits(f),
        exponent matches Some((mark, sign, b)) ==> (mark == 'e' || mark == 'E') && (sign matches Some(
            c,
        ) ==> c == '+' || c == '-') && all_digits(b),
        fraction is Some || exponent is Some,
    ensures
        ({
            let frac = match fraction {
                Some(f) => seq!['.'] + f,
                None => Seq::<char>::empty(),
            };
            let exp = match exponent {
                Some((mark, sign, b)) => seq![mark] + match sign {
                    Some(c) => seq![c],
                    None => Seq::<char>::empty(),
                } + b,
                None => Seq::<char>::empty(),
            };
            let t = a + frac + exp;
            read_token(t, 0) == Some(
                (
                    Ok::<TokView, LexicalError>(
                        TokView { kind: Tok::FloatLit(t), span: span_of(t, 0, t.len() as int) },
                    ),
                    t.len() as int,
                ),
            )
        }),
{
    let frac = match fraction {
        Some(f) => seq!['.'] + f,
        None => Seq::<char>::empty(),
    };
    let sg = match exponent {
        Some((_, Some(c), _)) => seq![c],
        _ => Seq::<char>::empty(),
    };
    let exp = match exponent {
        Some((mark, sign, b)) => seq![mark] + match sign {
            Some(c) => seq![c],
            None => Seq::<char>::empty(),
        } + b,
        None => Seq::<char>::empty(),
    };
    let t = a + frac + exp;
    let exp_mark = match exponent {
        Some((mark, _, _)) => mark,
        None => ' ',
    };
    let la = a.len() as int;
    let fe = la + frac.len();
    assert(t.subrange(0, la) =~= a);
    assert(t[0] == a[0]);
    assert(is_digit(a[0]));
    if la < t.len() {
        assert(t[la] == if fraction is Some {
            '.'
        } else {
            exp_mark
        });
    }
    lemma_digits_at(t, 0, a);
    if la > 1 {
        assert(t[1] == a[1]);
        assert(is_digit(a[1]));
    } else if t.len() > 1 {
        assert(t[1] == if fraction is Some {
            '.'
        } else {
            exp_mark
        });
    }
    if let Some(f) = fraction {
        assert(t.subrange(la + 1, fe) =~= f);
        assert(t[la + 1] == f[0]);
        assert(is_digit(f[0]));
        if fe < t.len() {
            assert(t[fe] == exp_mark);
        }
        lemma_digits_at(t, la + 1, f);
    }
    if let Some((mark, sign, b)) = exponent {
        let es = fe + 1 + sg.len();
        assert(t[fe] == mark);
        assert(t.subrange(es, t.len() as int) =~= b);
        assert(t[es] == b[0]);
        assert(is_digit(b[0]));
        if sign is Some {
            assert(t[fe + 1] == sign->0);
        }
        lemma_digits_at(t, es, b);
    } else {
        assert(t.len() == fe);
    }
    assert(t.subrange(0, t.len() as int) =~= t);
    lemma_scan(t, 0, CharClass::AsciiWhitespace);
    assert(scan(t, 0, CharClass::AsciiWhitespace) == 0);
}


/// ASCII white space is skipped: where white space and comments from the
/// next character end, they end too from a white-space character.
pub proof fn lemma_white_space_skipped(s: Seq<char>, i: int)
    requires
        0 <= i < s.len(),
        in_class(s[i], CharClass::AsciiWhitespace),
    ensures
        trivia(s, i) == trivia(s, i + 1),
{
}

/// A line comment is skipped, with the line feed that ends it.
pub proof fn lemma_line_comment_skipped(s: Seq<char>, i: int, e: int)
    requires
        0 <= i,
        i + 2 <= e <= s.len(),
        s[i] == '/' && s[i + 1] == '/',
        forall|m: int| i + 2 <= m < e ==> #[trigger] s[m] != '\n',
        e == s.len() || s[e] == '\n',
    ensures
        trivia(s, i) == trivia(s, if e < s.len() {
            e + 1
        } else {
            e
        }),
{
    assert forall|m: int| i <= m < e implies #[trigger] in_class(s[m], CharClass::NotNewline) by {
        assert(s[m] != '\n');
    }
    lemma_scan_to(s, i, e, CharClass::NotNewline);
}

proof fn lemma_comment_body_run(s: Seq<char>, i: int, e: int, depth: int)
    requires
        0 <= i <= e < s.len(),
        forall|m: int| i <= m < e ==> #[trigger] s[m] != '/' && s[m] != '*',
        s[e] == '/' || s[e] == '*',
    ensures
        block_comment(s, i, depth) == block_comment(s, e, depth),
{
    assert forall|m: int| i <= m < e implies #[trigger] in_class(s[m], CharClass::NotSlashNorStar) by {
        assert(s[m] != '/' && s[m] != '*');
    }
    lemma_scan_to(s, i, e, CharClass::NotSlashNorStar);
    lemma_scan_to(s, e, e, CharClass::NotSlashNorStar);
}

/// A block comment is skipped, and block comments nest: from `/*` at `i`
/// up to the `*/` that ends at `e`, with one comment `/* ... */` from `j` to
/// `k` nested in it when `nested`, and no other `/` or `*` in between.
pub proof fn lemma_block_comment_skipped(s: Seq<char>, i: int, nested: bool, j: int, k: int, e: int)
    requires
        0 <= i,
        e <= s.len(),
        s[i] == '/' && s[i + 1] == '*',
        s[e - 2] == '*' && s[e - 1] == '/',
        nested ==> i + 2 <= j && j + 4 <= k && k + 2 <= e && s[j] == '/' && s[j + 1] == '*' && s[k
            - 2] == '*' && s[k - 1] == '/',
        !nested ==> i + 4 <= e,
        forall|m: int|
            i + 2 <= m < e - 2 && !(nested && (j <= m < j + 2 || k - 2 <= m < k)) ==> #[trigger] s[m]
                != '/' && s[m] != '*',
    ensures
        trivia(s, i) == trivia(s, e),
{
    lemma_scan_to(s, i, i, CharClass::AsciiWhitespace);
    lemma_comment_body_run(s, i, i, 0);
    if nested {
        lemma_comment_body_run(s, i + 2, j, 1);
        lemma_comment_body_run(s, j + 2, k - 2, 2);
        lemma_comment_body_run(s, k, e - 2, 1);
    } else {
        lemma_comment_body_run(s, i + 2, e - 2, 1);
    }
}

} // verus!
