//! Reading instant literals (`@...`) and duration literals (`#...`).
use vstd::prelude::*;

use super::calendar::utc_timestamp;
use super::error::{LexErr, LexError};
use super::grammar::{
    at, duration_parts, lex_at, lex_date, lex_duration, lex_now, lex_today, lex_unix,
    matched_len, past, span_of, time_suffix, u32_or_zero, word_now, word_today, word_unix,
    DurationSeen, TimeOfDay,
};
use super::scan::{
    ident_continue, is_ascii_digit, is_digit, is_ident_continue, lemma_scan, parse_digits,
    parse_nanos, scan, CharClass,
};
use super::token::{Token, TokenKind};
use super::view_result;
use super::Lexer;
use crate::text::{byte_offset, string_from_chars};

verus! {

/// A time suffix or error, with its error as a sequence of characters.
pub open spec fn view_suffix(r: Result<Option<TimeOfDay>, LexError>) -> Result<
    Option<TimeOfDay>,
    LexErr,
> {
    match r {
        Ok(t) => Ok(t),
        Err(e) => Err(e@),
    }
}

/// The value of the decimal digits `v[from..to]` when they are some and it
/// fits in a `u32`, else zero.
fn parse_u32_or_zero(v: &Vec<char>, from: usize, to: usize) -> (r: u32)
    requires
        from <= to <= v.len(),
    ensures
        r == u32_or_zero(v@.subrange(from as int, to as int)),
{
    if to > from {
        match parse_digits(v, from, to, 10, u32::MAX as u64) {
            Some(n) => n as u32,
            None => 0,
        }
    } else {
        0
    }
}

/// Splits `SS.fff` into whole seconds and nanoseconds: the seconds are zero
/// when their digits are none or too many for a `u32`, the nanoseconds come
/// from the first nine fractional digits. Without a `.`, there are no
/// nanoseconds.
fn split_seconds(v: &Vec<char>, from: usize, to: usize) -> (r: (u32, u32))
    requires
        from <= to <= v.len(),
        forall|m: int|
            from <= m < to && m != scan(v@, from as int, CharClass::Digit) ==> #[trigger] is_digit(
                v@[m],
            ),
    ensures
        ({
            let dot = scan(v@, from as int, CharClass::Digit);
            if dot < to {
                r == (
                    u32_or_zero(v@.subrange(from as int, dot)),
                    super::scan::nanos_value(v@.subrange(dot + 1, to as int)) as u32,
                )
            } else {
                r == (u32_or_zero(v@.subrange(from as int, to as int)), 0u32)
            }
        }),
{
    let ghost s = v@;
    proof {
        lemma_scan(s, from as int, CharClass::Digit);
    }
    let mut dot = from;
    while dot < to && is_ascii_digit(v[dot])
        invariant
            from <= dot <= to <= v.len(),
            scan(s, dot as int, CharClass::Digit) == scan(s, from as int, CharClass::Digit),
            s == v@,
        decreases to - dot,
    {
        dot = dot + 1;
    }
    if dot < to {
        assert(scan(s, dot as int, CharClass::Digit) == dot);
        (parse_u32_or_zero(v, from, dot), parse_nanos(v, dot + 1, to))
    } else {
        proof {
            lemma_scan(s, dot as int, CharClass::Digit);
        }
        assert(scan(s, from as int, CharClass::Digit) >= to);
        (parse_u32_or_zero(v, from, to), 0)
    }
}

impl Lexer {
    /// Moves past the digits here; gives where they start and end.
    fn advance_digits(&mut self) -> (r: (usize, usize))
        requires
            old(self).inv(),
        ensures
            final(self).inv(),
            final(self).chars@ == old(self).chars@,
            final(self).start == old(self).start,
            r.0 == old(self).idx,
            r.1 == final(self).idx,
            r.0 <= r.1,
            final(self).idx == scan(old(self).chars@, old(self).idx as int, CharClass::Digit),
            forall|m: int| r.0 <= m < r.1 ==> #[trigger] is_digit(final(self).chars@[m]),
            final(self).idx <= final(self).chars.len(),
    {
        let from = self.idx;
        proof {
            lemma_scan(self.chars@, from as int, CharClass::Digit);
        }
        self.scan_class(CharClass::Digit);
        assert forall|m: int| from <= m < self.idx implies #[trigger] is_digit(self.chars@[m]) by {
            assert(super::scan::in_class(self.chars@[m], CharClass::Digit));
        }
        (from, self.idx)
    }

    /// Moves past the characters of `w` as long as the text matches them;
    /// also past the first character that does not. Whether all matched.
    fn expect_word(&mut self, w: &Vec<char>) -> (matched: bool)
        requires
            old(self).inv(),
        ensures
            final(self).inv(),
            final(self).chars@ == old(self).chars@,
            final(self).start == old(self).start,
            matched == (matched_len(old(self).chars@, old(self).idx as int, w@, 0) >= w@.len()),
            matched ==> final(self).idx == old(self).idx + w@.len(),
            !matched ==> final(self).idx == past(
                old(self).chars@,
                old(self).idx + matched_len(old(self).chars@, old(self).idx as int, w@, 0),
            ),
    {
        let ghost s = self.chars@;
        let ghost k = self.idx as int;
        let ghost total = matched_len(s, k, w@, 0);
        let mut m: usize = 0;
        while m < w.len()
            invariant
                self.inv(),
                self.chars@ == s,
                self.start == old(self).start,
                s == old(self).chars@,
                k == old(self).idx,
                m <= w.len(),
                self.idx == k + m,
                matched_len(s, k, w@, m as int) == total,
                total == matched_len(s, k, w@, 0),
            decreases w.len() - m,
        {
            match self.advance() {
                Some(c) => {
                    if c != w[m] {
                        return false;
                    }
                },
                None => {
                    return false;
                },
            }
            m = m + 1;
        }
        true
    }

    pub(crate) fn lex_at_literal(&mut self, Ghost(j): Ghost<int>) -> (r: Result<Token, LexError>)
        requires
            old(self).inv(),
            old(self).idx == j,
            j < old(self).chars.len(),
            old(self).start == byte_offset(old(self).chars@, j),
        ensures
            final(self).inv(),
            final(self).chars@ == old(self).chars@,
            (view_result(r), final(self).idx as int) == lex_at(old(self).chars@, j),
    {
        self.advance();
        match self.peek() {
            Some('n') => self.lex_at_now(Ghost(j)),
            Some('t') => self.lex_at_today(Ghost(j)),
            Some('u') => self.lex_at_unix(Ghost(j)),
            Some(c) => {
                if is_ascii_digit(c) || c == '+' || c == '-' {
                    self.lex_at_date(Ghost(j))
                } else {
                    Err(LexError::InvalidTimeLiteral(self.span_from(self.start)))
                }
            },
            None => Err(LexError::InvalidTimeLiteral(self.span_from(self.start))),
        }
    }

    fn lex_at_now(&mut self, Ghost(j): Ghost<int>) -> (r: Result<Token, LexError>)
        requires
            old(self).inv(),
            old(self).idx == j + 1,
            j + 1 < old(self).chars.len(),
            old(self).start == byte_offset(old(self).chars@, j),
        ensures
            final(self).inv(),
            final(self).chars@ == old(self).chars@,
            (view_result(r), final(self).idx as int) == lex_now(old(self).chars@, j),
    {
        if !self.expect_word(&vec!['n', 'o', 'w']) {
            return Err(LexError::ExpectedNow(self.span_from(self.start)));
        }
        match self.peek() {
            Some(c) => {
                if is_ident_continue(c) {
                    return Err(LexError::ExpectedNow(self.span_from(self.start)));
                }
            },
            None => {},
        }
        Ok(self.token(TokenKind::Now))
    }

    fn lex_at_today(&mut self, Ghost(j): Ghost<int>) -> (r: Result<Token, LexError>)
        requires
            old(self).inv(),
            old(self).idx == j + 1,
            j + 1 < old(self).chars.len(),
            old(self).start == byte_offset(old(self).chars@, j),
        ensures
            final(self).inv(),
            final(self).chars@ == old(self).chars@,
            (view_result(r), final(self).idx as int) == lex_today(old(self).chars@, j),
    {
        if !self.expect_word(&vec!['t', 'o', 'd', 'a', 'y']) {
            return Err(LexError::ExpectedToday(self.span_from(self.start)));
        }
        match self.read_time_suffix(Ghost(j)) {
            Err(e) => Err(e),
            Ok(Some((hour, minute, secs, nanos))) => Ok(
                self.token(TokenKind::TodayAt(hour, minute, secs, nanos)),
            ),
            Ok(None) => {
                match self.peek() {
                    Some(c) => {
                        if is_ident_continue(c) {
                            return Err(LexError::ExpectedToday(self.span_from(self.start)));
                        }
                    },
                    None => {},
                }
                Ok(self.token(TokenKind::Today))
            },
        }
    }

    /// Reads an optional `_HH:MM[:SS[.fff]]` suffix of an instant literal
    /// that started at `j`.
    fn read_time_suffix(&mut self, Ghost(j): Ghost<int>) -> (r: Result<Option<TimeOfDay>, LexError>)
        requires
            old(self).inv(),
            old(self).start == byte_offset(old(self).chars@, j),
        ensures
            final(self).inv(),
            final(self).chars@ == old(self).chars@,
            final(self).start == old(self).start,
            (view_suffix(r), final(self).idx as int) == time_suffix(
                old(self).chars@,
                old(self).idx as int,
                j,
            ),
    {
        let ghost s = self.chars@;
        if !self.peek_is('_') {
            return Ok(None);
        }
        self.advance();
        let (hs, he) = self.advance_digits();
        let hour = match parse_digits(&self.chars, hs, he, 10, 23) {
            Some(h) => {
                if he == hs {
                    return Err(LexError::InvalidHour(self.span_from(self.start)));
                }
                h as u32
            },
            None => {
                return Err(LexError::InvalidHour(self.span_from(self.start)));
            },
        };
        if !self.peek_is(':') {
            return Err(LexError::ExpectedColon(self.span_from(self.start)));
        }
        self.advance();
        let (ms, me) = self.advance_digits();
        let minute = match parse_digits(&self.chars, ms, me, 10, 59) {
            Some(m) => {
                if me == ms {
                    return Err(LexError::InvalidMinute(self.span_from(self.start)));
                }
                m as u32
            },
            None => {
                return Err(LexError::InvalidMinute(self.span_from(self.start)));
            },
        };
        let mut secs: u32 = 0;
        let mut nanos: u32 = 0;
        if self.peek_is(':') {
            self.advance();
            let (ss, se) = self.advance_digits();
            if self.peek_is('.') {
                self.advance();
                let (fs, fe) = self.advance_digits();
                proof {
                    assert forall|m: int| ss <= m < fe && m != scan(s, ss as int, CharClass::Digit) implies #[trigger] is_digit(
                        s[m],
                    ) by {
                        if m < se {
                        } else {
                            assert(m > se);
                        }
                    }
                }
                let (a, b) = split_seconds(&self.chars, ss, fe);
                secs = a;
                nanos = b;
            } else {
                secs = parse_u32_or_zero(&self.chars, ss, se);
            }
        }
        Ok(Some((hour, minute, secs, nanos)))
    }

    fn lex_at_unix(&mut self, Ghost(j): Ghost<int>) -> (r: Result<Token, LexError>)
        requires
            old(self).inv(),
            old(self).idx == j + 1,
            j + 1 < old(self).chars.len(),
            old(self).start == byte_offset(old(self).chars@, j),
        ensures
            final(self).inv(),
            final(self).chars@ == old(self).chars@,
            (view_result(r), final(self).idx as int) == lex_unix(old(self).chars@, j),
    {
        if !self.expect_word(&vec!['u', 'n', 'i', 'x', '_']) {
            return Err(LexError::ExpectedUnixPrefix(self.span_from(self.start)));
        }
        let negative = self.peek_is('-');
        if self.peek_is('+') || self.peek_is('-') {
            self.advance();
        }
        let digits_pos = self.pos;
        let (ds, de) = self.advance_digits();
        if de == ds {
            return Err(LexError::ExpectedUnixTimestamp(self.span_from(digits_pos)));
        }
        let whole = match parse_digits(&self.chars, ds, de, 10, i64::MAX as u64) {
            Some(n) => n as i64,
            None => {
                let text = string_from_chars(&self.chars, ds, de);
                return Err(LexError::InvalidUnixTimestamp(text, self.span_from(digits_pos)));
            },
        };
        let secs = if negative {
            -whole
        } else {
            whole
        };
        let nanos = if self.peek_is('.') {
            self.advance();
            let (fs, fe) = self.advance_digits();
            parse_nanos(&self.chars, fs, fe)
        } else {
            0
        };
        let (secs, nanos) = if negative && nanos > 0 {
            (secs - 1, 1_000_000_000 - nanos)
        } else {
            (secs, nanos)
        };
        Ok(self.token(TokenKind::Instant(secs, nanos)))
    }

    fn lex_at_date(&mut self, Ghost(j): Ghost<int>) -> (r: Result<Token, LexError>)
        requires
            old(self).inv(),
            old(self).idx == j + 1,
            j + 1 < old(self).chars.len(),
            old(self).start == byte_offset(old(self).chars@, j),
        ensures
            final(self).inv(),
            final(self).chars@ == old(self).chars@,
            (view_result(r), final(self).idx as int) == lex_date(old(self).chars@, j),
    {
        let negative = self.peek_is('-');
        if self.peek_is('+') || self.peek_is('-') {
            self.advance();
        }
        let (ys, ye) = self.advance_digits();
        if !self.peek_is('-') {
            return Err(LexError::ExpectedDateFormat(self.span_from(self.start)));
        }
        self.advance();
        let (ms, me) = self.advance_digits();
        if !self.peek_is('-') {
            return Err(LexError::ExpectedDateFormat(self.span_from(self.start)));
        }
        self.advance();
        let (ds, de) = self.advance_digits();
        let (hour, minute, secs, nanos) = match self.read_time_suffix(Ghost(j)) {
            Err(e) => {
                return Err(e);
            },
            Ok(Some(t)) => t,
            Ok(None) => (0, 0, 0, 0),
        };
        let year = match parse_digits(&self.chars, ys, ye, 10, i32::MAX as u64) {
            Some(y) => {
                if ye == ys {
                    return Err(LexError::InvalidYear(self.span_from(self.start)));
                }
                y as i32
            },
            None => {
                return Err(LexError::InvalidYear(self.span_from(self.start)));
            },
        };
        let year = if negative {
            -year
        } else {
            year
        };
        let month = match parse_digits(&self.chars, ms, me, 10, 12) {
            Some(m) => {
                if me == ms || m < 1 {
                    return Err(LexError::InvalidMonth(self.span_from(self.start)));
                }
                m as u32
            },
            None => {
                return Err(LexError::InvalidMonth(self.span_from(self.start)));
            },
        };
        let day = match parse_digits(&self.chars, ds, de, 10, 31) {
            Some(d) => {
                if de == ds || d < 1 {
                    return Err(LexError::InvalidDay(self.span_from(self.start)));
                }
                d as u32
            },
            None => {
                return Err(LexError::InvalidDay(self.span_from(self.start)));
            },
        };
        match utc_timestamp(year, month, day, hour, minute, secs, nanos) {
            Some(total_secs) => Ok(self.token(TokenKind::Instant(total_secs, nanos))),
            None => Err(LexError::InvalidDate(self.span_from(self.start))),
        }
    }

    /// Reads a duration literal, or gives `None` where a component's number
    /// does not fit in an `i64`.
    pub(crate) fn lex_duration(&mut self, Ghost(j): Ghost<int>) -> (r: Option<
        Result<Token, LexError>,
    >)
        requires
            old(self).inv(),
            old(self).idx == j,
            j < old(self).chars.len(),
            old(self).start == byte_offset(old(self).chars@, j),
        ensures
            final(self).inv(),
            final(self).chars@ == old(self).chars@,
            match r {
                Some(t) => lex_duration(old(self).chars@, j) == Some(
                    (view_result(t), final(self).idx as int),
                ),
                None => lex_duration(old(self).chars@, j) is None,
            },
    {
        let ghost s = self.chars@;
        let ghost target = lex_duration(s, j);
        self.advance();
        let negative = self.peek_is('-');
        if self.peek_is('+') || self.peek_is('-') {
            self.advance();
        }
        let mut weeks = false;
        let mut days = false;
        let mut hours = false;
        let mut minutes = false;
        let mut seconds = false;
        let mut nanos: u32 = 0;
        let mut total: i64 = 0;
        loop
            invariant
                self.inv(),
                self.chars@ == s,
                s == old(self).chars@,
                self.start == byte_offset(s, j),
                target == lex_duration(s, j),
                0 <= total,
                duration_parts(
                    s,
                    j,
                    self.idx as int,
                    negative,
                    DurationSeen { weeks, days, hours, minutes, seconds },
                    nanos as int,
                    total as int,
                ) == target,
            decreases self.chars.len() - self.idx,
        {
            let ghost i = self.idx as int;
            let (is, ie) = self.advance_digits();
            if ie == is {
                if self.peek_is('.') {
                    return Some(Err(LexError::ExpectedDurationDigits(self.span_from(self.start))));
                }
                if !(weeks || days || hours || minutes || seconds) {
                    return Some(Err(LexError::EmptyDuration(self.span_from(self.start))));
                }
                if negative {
                    total = -total;
                }
                return Some(Ok(self.token(TokenKind::Duration(total, nanos))));
            }
            let int_part = match parse_digits(&self.chars, is, ie, 10, i64::MAX as u64) {
                Some(n) => n as i64,
                None => {
                    return None;
                },
            };
            let mut frac: Option<u32> = None;
            if self.peek_is('.') {
                self.advance();
                let (fs, fe) = self.advance_digits();
                if fe == fs {
                    return Some(
                        Err(LexError::IncompleteDurationFraction(self.span_from(self.start))),
                    );
                }
                frac = Some(parse_nanos(&self.chars, fs, fe));
            }
            let unit = match self.peek() {
                Some(c) => {
                    if c == 'w' || c == 'd' || c == 'h' || c == 'm' || c == 's' {
                        self.advance();
                        c
                    } else {
                        return Some(
                            Err(LexError::UnexpectedDurationSuffix(c, self.span_from(self.start))),
                        );
                    }
                },
                None => {
                    return Some(Err(LexError::MissingDurationSuffix(self.span_from(self.start))));
                },
            };
            if frac.is_some() && unit != 's' {
                return Some(
                    Err(LexError::FractionalNotAllowed(unit, self.span_from(self.start))),
                );
            }
            let already = if unit == 'w' {
                weeks
            } else if unit == 'd' {
                days
            } else if unit == 'h' {
                hours
            } else if unit == 'm' {
                minutes
            } else {
                seconds
            };
            if unit == 's' {
                nanos = match frac {
                    Some(f) => f,
                    None => 0,
                };
            }
            if already {
                return Some(
                    Err(LexError::DuplicateDurationComponent(unit, self.span_from(self.start))),
                );
            }
            let multiplier: i64 = if unit == 'w' {
                604800
            } else if unit == 'd' {
                86400
            } else if unit == 'h' {
                3600
            } else if unit == 'm' {
                60
            } else {
                1
            };
            if unit == 'w' {
                weeks = true;
            } else if unit == 'd' {
                days = true;
            } else if unit == 'h' {
                hours = true;
            } else if unit == 'm' {
                minutes = true;
            } else {
                seconds = true;
            }
            assert(int_part * multiplier >= 0) by (nonlinear_arith)
                requires
                    int_part >= 0,
                    multiplier >= 1,
            ;
            let product = match int_part.checked_mul(multiplier) {
                Some(p) => p,
                None => {
                    return Some(Err(LexError::DurationOverflow(self.span_from(self.start))));
                },
            };
            total = match total.checked_add(product) {
                Some(t) => t,
                None => {
                    return Some(Err(LexError::DurationOverflow(self.span_from(self.start))));
                },
            };
        }
    }
}

} // verus!
