//! Classes of characters, runs of them, and the numbers that runs of digits
//! spell.
use vstd::prelude::*;

use crate::text::{is_alphabetic, is_alphanumeric, unicode_alphabetic, unicode_alphanumeric};

verus! {

/// A class of characters that the lexer reads runs of.
#[derive(Clone, Copy, PartialEq, Eq, Structural)]
pub enum CharClass {
    /// `0`-`9`.
    Digit,
    /// `0`-`9` and `_`.
    DigitOrUnderscore,
    /// `0`-`9`, `a`-`f`, `A`-`F`.
    HexDigit,
    /// Hexadecimal digits and `_`.
    HexOrUnderscore,
    /// `0`-`7` and `_`.
    OctalOrUnderscore,
    /// `0`, `1` and `_`.
    BinaryOrUnderscore,
    /// Letters, numbers and `_`.
    IdentContinue,
    /// Anything but a line feed.
    NotNewline,
    /// `0`-`7`.
    OctalDigit,
    /// `0` and `1`.
    BinaryDigit,
    /// ASCII white space: space, tab, line feed, form feed, carriage return.
    AsciiWhitespace,
    /// ASCII letters and digits, and `_`.
    AsciiWord,
    /// Anything but `"` and `\`.
    NotQuoteNorBackslash,
    /// Anything but `/` and `*`.
    NotSlashNorStar,
}

pub open spec fn is_digit(c: char) -> bool {
    '0' <= c && c <= '9'
}

pub open spec fn is_hex_digit(c: char) -> bool {
    is_digit(c) || ('a' <= c && c <= 'f') || ('A' <= c && c <= 'F')
}

/// Characters that may start an identifier.
pub open spec fn ident_start(c: char) -> bool {
    unicode_alphabetic(c) || c == '_'
}

/// Characters that may continue an identifier.
pub open spec fn ident_continue(c: char) -> bool {
    unicode_alphanumeric(c) || c == '_'
}

pub open spec fn in_class(c: char, k: CharClass) -> bool {
    match k {
        CharClass::Digit => is_digit(c),
        CharClass::DigitOrUnderscore => is_digit(c) || c == '_',
        CharClass::HexDigit => is_hex_digit(c),
        CharClass::HexOrUnderscore => is_hex_digit(c) || c == '_',
        CharClass::OctalOrUnderscore => ('0' <= c && c <= '7') || c == '_',
        CharClass::BinaryOrUnderscore => c == '0' || c == '1' || c == '_',
        CharClass::IdentContinue => ident_continue(c),
        CharClass::NotNewline => c != '\n',
        CharClass::OctalDigit => '0' <= c && c <= '7',
        CharClass::BinaryDigit => c == '0' || c == '1',
        CharClass::AsciiWhitespace => is_ascii_whitespace(c),
        CharClass::AsciiWord => is_ascii_alphabetic(c) || is_digit(c) || c == '_',
        CharClass::NotQuoteNorBackslash => c != '"' && c != '\\',
        CharClass::NotSlashNorStar => c != '/' && c != '*',
    }
}

pub open spec fn is_ascii_alphabetic(c: char) -> bool {
    ('a' <= c && c <= 'z') || ('A' <= c && c <= 'Z')
}

pub open spec fn is_ascii_whitespace(c: char) -> bool {
    c == ' ' || c == '\t' || c == '\n' || c == '\x0C' || c == '\r'
}

pub fn is_ident_start(c: char) -> (r: bool)
    ensures
        r == ident_start(c),
{
    is_alphabetic(c) || c == '_'
}

pub fn is_ident_continue(c: char) -> (r: bool)
    ensures
        r == ident_continue(c),
{
    is_alphanumeric(c) || c == '_'
}

pub fn is_ascii_digit(c: char) -> (r: bool)
    ensures
        r == is_digit(c),
{
    '0' <= c && c <= '9'
}

pub fn class_contains(c: char, k: CharClass) -> (r: bool)
    ensures
        r == in_class(c, k),
{
    match k {
        CharClass::Digit => '0' <= c && c <= '9',
        CharClass::DigitOrUnderscore => ('0' <= c && c <= '9') || c == '_',
        CharClass::HexDigit => ('0' <= c && c <= '9') || ('a' <= c && c <= 'f') || ('A' <= c
            && c <= 'F'),
        CharClass::HexOrUnderscore => ('0' <= c && c <= '9') || ('a' <= c && c <= 'f') || ('A'
            <= c && c <= 'F') || c == '_',
        CharClass::OctalOrUnderscore => ('0' <= c && c <= '7') || c == '_',
        CharClass::BinaryOrUnderscore => c == '0' || c == '1' || c == '_',
        CharClass::IdentContinue => is_ident_continue(c),
        CharClass::NotNewline => c != '\n',
        CharClass::OctalDigit => '0' <= c && c <= '7',
        CharClass::BinaryDigit => c == '0' || c == '1',
        CharClass::AsciiWhitespace => c == ' ' || c == '\t' || c == '\n' || c == '\x0C' || c
            == '\r',
        CharClass::AsciiWord => ('a' <= c && c <= 'z') || ('A' <= c && c <= 'Z') || ('0' <= c
            && c <= '9') || c == '_',
        CharClass::NotQuoteNorBackslash => c != '"' && c != '\\',
        CharClass::NotSlashNorStar => c != '/' && c != '*',
    }
}

/// The end of the run of characters of class `k` that starts at `i`: the
/// first index from `i` on whose character is not in the class, or the end
/// of `s`.
pub open spec fn scan(s: Seq<char>, i: int, k: CharClass) -> int
    decreases s.len() - i,
{
    if 0 <= i < s.len() && in_class(s[i], k) {
        scan(s, i + 1, k)
    } else {
        i
    }
}

pub proof fn lemma_scan(s: Seq<char>, i: int, k: CharClass)
    requires
        0 <= i <= s.len(),
    ensures
        i <= scan(s, i, k) <= s.len(),
        forall|m: int| i <= m < scan(s, i, k) ==> #[trigger] in_class(s[m], k),
        scan(s, i, k) < s.len() ==> !in_class(s[scan(s, i, k)], k),
    decreases s.len() - i,
{
    if i < s.len() && in_class(s[i], k) {
        lemma_scan(s, i + 1, k);
    }
}

/// The value of a digit character: `0`-`9`, then `a`/`A` as ten up to
/// `f`/`F` as fifteen.
pub open spec fn digit_value(c: char) -> int {
    if '0' <= c && c <= '9' {
        c as int - '0' as int
    } else if 'a' <= c && c <= 'f' {
        c as int - 'a' as int + 10
    } else if 'A' <= c && c <= 'F' {
        c as int - 'A' as int + 10
    } else {
        0
    }
}

/// The number that the digits `d` spell in base `radix`.
pub open spec fn digits_value(d: Seq<char>, radix: int) -> int
    decreases d.len(),
{
    if d.len() == 0 {
        0
    } else {
        digits_value(d.drop_last(), radix) * radix + digit_value(d.last())
    }
}

pub fn char_digit_value(c: char) -> (r: u64)
    ensures
        r == digit_value(c),
        r < 16,
{
    if '0' <= c && c <= '9' {
        (c as u64) - ('0' as u64)
    } else if 'a' <= c && c <= 'f' {
        (c as u64) - ('a' as u64) + 10
    } else if 'A' <= c && c <= 'F' {
        (c as u64) - ('A' as u64) + 10
    } else {
        0
    }
}

proof fn lemma_digits_value_nonneg(d: Seq<char>, radix: int)
    requires
        radix >= 1,
    ensures
        digits_value(d, radix) >= 0,
    decreases d.len(),
{
    if d.len() > 0 {
        lemma_digits_value_nonneg(d.drop_last(), radix);
        let v = digits_value(d.drop_last(), radix);
        assert(v * radix >= 0) by (nonlinear_arith)
            requires
                v >= 0,
                radix >= 1,
        ;
    }
}

/// The value of a run of digits is at least the value of any of its prefixes.
pub proof fn lemma_digits_value_prefix(d: Seq<char>, k: int, radix: int)
    requires
        0 <= k <= d.len(),
        radix >= 1,
    ensures
        digits_value(d.take(k), radix) <= digits_value(d, radix),
        digits_value(d.take(k), radix) >= 0,
    decreases d.len() - k,
{
    lemma_digits_value_nonneg(d.take(k), radix);
    if k < d.len() {
        lemma_digits_value_prefix(d, k + 1, radix);
        let p = d.take(k + 1);
        assert(p.drop_last() =~= d.take(k));
        let v = digits_value(d.take(k), radix);
        assert(v * radix >= v) by (nonlinear_arith)
            requires
                v >= 0,
                radix >= 1,
        ;
    } else {
        assert(d.take(k) =~= d);
    }
}

/// Reads the digits `v[from..to]` in base `radix`: their value when it is at
/// most `bound`, else `None`.
pub fn parse_digits(v: &Vec<char>, from: usize, to: usize, radix: u64, bound: u64) -> (r: Option<
    u64,
>)
    requires
        from <= to <= v.len(),
        2 <= radix <= 16,
    ensures
        match r {
            Some(n) => n == digits_value(v@.subrange(from as int, to as int), radix as int) && n
                <= bound,
            None => digits_value(v@.subrange(from as int, to as int), radix as int) > bound,
        },
{
    let ghost d = v@.subrange(from as int, to as int);
    let mut acc: u64 = 0;
    let mut i = from;
    while i < to
        invariant
            from <= i <= to <= v.len(),
            2 <= radix <= 16,
            d == v@.subrange(from as int, to as int),
            acc == digits_value(d.take(i - from), radix as int),
            acc <= bound,
        decreases to - i,
    {
        proof {
            assert(d.take(i - from + 1).drop_last() =~= d.take(i - from));
            assert(d.take(i - from + 1).last() == v@[i as int]);
        }
        let dv = char_digit_value(v[i]);
        let next = match acc.checked_mul(radix) {
            Some(m) => m.checked_add(dv),
            None => None,
        };
        match next {
            Some(n) if n <= bound => {
                acc = n;
            },
            _ => {
                proof {
                    lemma_digits_value_prefix(d, i - from + 1, radix as int);
                }
                return None;
            },
        }
        i = i + 1;
    }
    assert(d.take(to - from) =~= d);
    Some(acc)
}

/// `d` made exactly nine digits long: cut after nine, or filled up with
/// zeros.
pub open spec fn nine_digits(d: Seq<char>) -> Seq<char> {
    if d.len() >= 9 {
        d.take(9)
    } else {
        d + Seq::new((9 - d.len()) as nat, |i: int| '0')
    }
}

/// The nanoseconds that the fractional digits `d` of a second stand for.
pub open spec fn nanos_value(d: Seq<char>) -> int {
    digits_value(nine_digits(d), 10)
}

/// Decimal digits spell a number below ten to their count.
pub proof fn lemma_digits_value_bound(d: Seq<char>)
    requires
        forall|m: int| 0 <= m < d.len() ==> #[trigger] is_digit(d[m]),
    ensures
        0 <= digits_value(d, 10) < pow10(d.len()),
    decreases d.len(),
{
    if d.len() > 0 {
        let p = d.drop_last();
        assert forall|m: int| 0 <= m < p.len() implies #[trigger] is_digit(p[m]) by {
            assert(p[m] == d[m]);
        }
        lemma_digits_value_bound(p);
        assert(is_digit(d[d.len() - 1]));
        let v = digits_value(p, 10);
        let b = pow10(p.len());
        assert(v * 10 + 9 < b * 10) by (nonlinear_arith)
            requires
                0 <= v < b,
        ;
    }
}

/// Ten to the `n`.
pub open spec fn pow10(n: nat) -> int
    decreases n,
{
    if n == 0 {
        1
    } else {
        10 * pow10((n - 1) as nat)
    }
}

/// Reads fractional digits `v[from..to]` as nanoseconds: the first nine
/// digits, filled up with zeros to nine.
pub fn parse_nanos(v: &Vec<char>, from: usize, to: usize) -> (r: u32)
    requires
        from <= to <= v.len(),
        forall|m: int| from <= m < to ==> #[trigger] is_digit(v@[m]),
    ensures
        r == nanos_value(v@.subrange(from as int, to as int)),
        r < 1_000_000_000,
{
    let ghost d = v@.subrange(from as int, to as int);
    let ghost n9 = nine_digits(d);
    let mut acc: u32 = 0;
    let mut k: usize = 0;
    assert forall|m: int| 0 <= m < n9.len() implies #[trigger] is_digit(n9[m]) by {
        if m < d.len() {
            assert(n9[m] == d[m]);
            assert(d[m] == v@[from + m]);
        }
    }
    while k < 9
        invariant
            from <= to <= v.len(),
            d == v@.subrange(from as int, to as int),
            n9 == nine_digits(d),
            n9.len() == 9,
            forall|m: int| 0 <= m < n9.len() ==> #[trigger] is_digit(n9[m]),
            k <= 9,
            acc == digits_value(n9.take(k as int), 10),
            acc < pow10(k as nat),
        decreases 9 - k,
    {
        proof {
            assert(n9.take(k + 1).drop_last() =~= n9.take(k as int));
            assert(pow10((k + 1) as nat) == 10 * pow10(k as nat));
            lemma_pow10_nine();
            lemma_pow10_mono((k + 1) as nat, 9);
        }
        let c = if k < to - from {
            v[from + k]
        } else {
            '0'
        };
        assert(c == n9[k as int]);
        assert(is_digit(c));
        let dv = char_digit_value(c) as u32;
        assert(acc * 10 + dv < pow10((k + 1) as nat)) by (nonlinear_arith)
            requires
                acc < pow10(k as nat),
                dv <= 9,
                pow10((k + 1) as nat) == 10 * pow10(k as nat),
        ;
        acc = acc * 10 + dv;
        k = k + 1;
    }
    assert(n9.take(9) =~= n9);
    proof {
        lemma_pow10_nine();
    }
    acc
}

/// Fractional digits stand for fewer nanoseconds than make a second.
pub proof fn lemma_nanos_value_bound(d: Seq<char>)
    requires
        forall|m: int| 0 <= m < d.len() ==> #[trigger] is_digit(d[m]),
    ensures
        0 <= nanos_value(d) < 1_000_000_000,
{
    let n9 = nine_digits(d);
    assert forall|m: int| 0 <= m < n9.len() implies #[trigger] is_digit(n9[m]) by {
        if m < d.len() {
            assert(n9[m] == d[m]);
        }
    }
    lemma_digits_value_bound(n9);
    lemma_pow10_nine();
}

pub proof fn lemma_pow10_nine()
    ensures
        pow10(9) == 1_000_000_000,
{
    reveal_with_fuel(pow10, 10);
}

pub proof fn lemma_pow10_mono(a: nat, b: nat)
    requires
        a <= b,
    ensures
        1 <= pow10(a) <= pow10(b),
    decreases b,
{
    if a < b {
        lemma_pow10_mono(a, (b - 1) as nat);
    } else if b > 0 {
        lemma_pow10_mono((b - 1) as nat, (b - 1) as nat);
    }
}

} // verus!
