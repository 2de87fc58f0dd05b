//! What can go wrong while reading a token.
use vstd::prelude::*;

use super::token::Span;
use crate::text::{hex_padded, push_char, push_hex_padded, push_signed_decimal, signed_decimal};

verus! {

/// A lexical error, with the span of source text it concerns.
#[derive(Debug, Clone, PartialEq)]
pub enum LexError {
    // characters
    UnexpectedChar(char, Span),
    UnexpectedAmpersand(Span),
    UnexpectedPipe(Span),
    // string literals
    UnclosedString(Span),
    InvalidEscape(char, Span),
    InvalidUnicodeEscape(String, Span),
    InvalidUnicodeCodePoint(u32, Span),
    // number literals
    IntOverflow(String, Span),
    EmptyIntLiteral(String, Span),
    InvalidFloat(String, Span),
    // instant literals
    InvalidTimeLiteral(Span),
    ExpectedNow(Span),
    ExpectedToday(Span),
    ExpectedUnixPrefix(Span),
    ExpectedUnixTimestamp(Span),
    InvalidUnixTimestamp(String, Span),
    ExpectedDateFormat(Span),
    ExpectedColon(Span),
    // date and time components
    InvalidYear(Span),
    InvalidMonth(Span),
    InvalidDay(Span),
    InvalidDate(Span),
    InvalidHour(Span),
    InvalidMinute(Span),
    // duration literals
    ExpectedDurationDigits(Span),
    IncompleteDurationFraction(Span),
    UnexpectedDurationSuffix(char, Span),
    MissingDurationSuffix(Span),
    FractionalNotAllowed(char, Span),
    DuplicateDurationComponent(char, Span),
    DurationOverflow(Span),
    EmptyDuration(Span),
}

/// A lexical error with its text as a sequence of characters.
pub enum LexErr {
    // characters
    UnexpectedChar(char, Span),
    UnexpectedAmpersand(Span),
    UnexpectedPipe(Span),
    // string literals
    UnclosedString(Span),
    InvalidEscape(char, Span),
    InvalidUnicodeEscape(Seq<char>, Span),
    InvalidUnicodeCodePoint(u32, Span),
    // number literals
    IntOverflow(Seq<char>, Span),
    EmptyIntLiteral(Seq<char>, Span),
    InvalidFloat(Seq<char>, Span),
    // instant literals
    InvalidTimeLiteral(Span),
    ExpectedNow(Span),
    ExpectedToday(Span),
    ExpectedUnixPrefix(Span),
    ExpectedUnixTimestamp(Span),
    InvalidUnixTimestamp(Seq<char>, Span),
    ExpectedDateFormat(Span),
    ExpectedColon(Span),
    // date and time components
    InvalidYear(Span),
    InvalidMonth(Span),
    InvalidDay(Span),
    InvalidDate(Span),
    InvalidHour(Span),
    InvalidMinute(Span),
    // duration literals
    ExpectedDurationDigits(Span),
    IncompleteDurationFraction(Span),
    UnexpectedDurationSuffix(char, Span),
    MissingDurationSuffix(Span),
    FractionalNotAllowed(char, Span),
    DuplicateDurationComponent(char, Span),
    DurationOverflow(Span),
    EmptyDuration(Span),
}

impl View for LexError {
    type V = LexErr;

    open spec fn view(&self) -> LexErr {
        match self {
            LexError::UnexpectedChar(x, s) => LexErr::UnexpectedChar(*x, *s),
            LexError::UnexpectedAmpersand(s) => LexErr::UnexpectedAmpersand(*s),
            LexError::UnexpectedPipe(s) => LexErr::UnexpectedPipe(*s),
            LexError::UnclosedString(s) => LexErr::UnclosedString(*s),
            LexError::InvalidEscape(x, s) => LexErr::InvalidEscape(*x, *s),
            LexError::InvalidUnicodeEscape(x, s) => LexErr::InvalidUnicodeEscape(x@, *s),
            LexError::InvalidUnicodeCodePoint(x, s) => LexErr::InvalidUnicodeCodePoint(*x, *s),
            LexError::IntOverflow(x, s) => LexErr::IntOverflow(x@, *s),
            LexError::EmptyIntLiteral(x, s) => LexErr::EmptyIntLiteral(x@, *s),
            LexError::InvalidFloat(x, s) => LexErr::InvalidFloat(x@, *s),
            LexError::InvalidTimeLiteral(s) => LexErr::InvalidTimeLiteral(*s),
            LexError::ExpectedNow(s) => LexErr::ExpectedNow(*s),
            LexError::ExpectedToday(s) => LexErr::ExpectedToday(*s),
            LexError::ExpectedUnixPrefix(s) => LexErr::ExpectedUnixPrefix(*s),
            LexError::ExpectedUnixTimestamp(s) => LexErr::ExpectedUnixTimestamp(*s),
            LexError::InvalidUnixTimestamp(x, s) => LexErr::InvalidUnixTimestamp(x@, *s),
            LexError::ExpectedDateFormat(s) => LexErr::ExpectedDateFormat(*s),
            LexError::ExpectedColon(s) => LexErr::ExpectedColon(*s),
            LexError::InvalidYear(s) => LexErr::InvalidYear(*s),
            LexError::InvalidMonth(s) => LexErr::InvalidMonth(*s),
            LexError::InvalidDay(s) => LexErr::InvalidDay(*s),
            LexError::InvalidDate(s) => LexErr::InvalidDate(*s),
            LexError::InvalidHour(s) => LexErr::InvalidHour(*s),
            LexError::InvalidMinute(s) => LexErr::InvalidMinute(*s),
            LexError::ExpectedDurationDigits(s) => LexErr::ExpectedDurationDigits(*s),
            LexError::IncompleteDurationFraction(s) => LexErr::IncompleteDurationFraction(*s),
            LexError::UnexpectedDurationSuffix(x, s) => LexErr::UnexpectedDurationSuffix(*x, *s),
            LexError::MissingDurationSuffix(s) => LexErr::MissingDurationSuffix(*s),
            LexError::FractionalNotAllowed(x, s) => LexErr::FractionalNotAllowed(*x, *s),
            LexError::DuplicateDurationComponent(x, s) => LexErr::DuplicateDurationComponent(*x, *s),
            LexError::DurationOverflow(s) => LexErr::DurationOverflow(*s),
            LexError::EmptyDuration(s) => LexErr::EmptyDuration(*s),
        }
    }
}

/// The span that an error concerns.
pub open spec fn err_span(e: LexErr) -> Span {
    match e {
            LexErr::UnexpectedChar(_, s) => s,
            LexErr::UnexpectedAmpersand(s) => s,
            LexErr::UnexpectedPipe(s) => s,
            LexErr::UnclosedString(s) => s,
            LexErr::InvalidEscape(_, s) => s,
            LexErr::InvalidUnicodeEscape(_, s) => s,
            LexErr::InvalidUnicodeCodePoint(_, s) => s,
            LexErr::IntOverflow(_, s) => s,
            LexErr::EmptyIntLiteral(_, s) => s,
            LexErr::InvalidFloat(_, s) => s,
            LexErr::InvalidTimeLiteral(s) => s,
            LexErr::ExpectedNow(s) => s,
            LexErr::ExpectedToday(s) => s,
            LexErr::ExpectedUnixPrefix(s) => s,
            LexErr::ExpectedUnixTimestamp(s) => s,
            LexErr::InvalidUnixTimestamp(_, s) => s,
            LexErr::ExpectedDateFormat(s) => s,
            LexErr::ExpectedColon(s) => s,
            LexErr::InvalidYear(s) => s,
            LexErr::InvalidMonth(s) => s,
            LexErr::InvalidDay(s) => s,
            LexErr::InvalidDate(s) => s,
            LexErr::InvalidHour(s) => s,
            LexErr::InvalidMinute(s) => s,
            LexErr::ExpectedDurationDigits(s) => s,
            LexErr::IncompleteDurationFraction(s) => s,
            LexErr::UnexpectedDurationSuffix(_, s) => s,
            LexErr::MissingDurationSuffix(s) => s,
            LexErr::FractionalNotAllowed(_, s) => s,
            LexErr::DuplicateDurationComponent(_, s) => s,
            LexErr::DurationOverflow(s) => s,
            LexErr::EmptyDuration(s) => s,
    }
}

/// The hint that a report of the error gives on how to mend the text.
pub open spec fn help_text(e: LexErr) -> Seq<char> {
    match e {
        LexErr::UnexpectedChar(c, _) => "this character '"@ + seq![c] + "' is not valid in this position"@,
        LexErr::InvalidEscape(c, _) => "\\"@ + seq![c] + " is not an escape; use \\\", \\\\, \\n, \\t, \\r, \\0 or \\u{...}"@,
        LexErr::InvalidUnicodeCodePoint(cp, _) => "U+"@ + hex_padded(cp as nat, 4) + " is not a valid unicode code point"@,
        LexErr::IntOverflow(lit, _) => "the literal `"@ + lit + "` exceeds the range of a signed 64-bit integer whose range is "@
            + signed_decimal(i64::MIN as int) + "..="@ + signed_decimal(i64::MAX as int),
        LexErr::InvalidFloat(lit, _) => "the literal `"@ + lit + "` is not a valid float"@,
        LexErr::InvalidUnixTimestamp(ts, _) => "`"@ + ts
            + "` is not a valid unix timestamp (whole seconds must fit in a 64-bit signed integer)"@,
        LexErr::UnexpectedAmpersand(_) => "use && for logical AND"@,
        LexErr::UnexpectedPipe(_) => "use |> for pipeline or || for logical OR"@,
        LexErr::UnclosedString(_) => "add a closing \" to terminate the string literal"@,
        LexErr::EmptyIntLiteral(_, _) => "add at least one valid digit after the prefix"@,
        LexErr::InvalidUnicodeEscape(hex, _) => "valid escape: \\u followed by four hex digits, got \\u"@ + hex,
        LexErr::InvalidTimeLiteral(_) => "use @now, @today / @today_HH:MM:SS.SSS, @unix_SS.SSS, or @yyyy-mm-dd_HH:MM:SS.SSS"@,
        LexErr::ExpectedNow(_) => "@now gives the current instant"@,
        LexErr::ExpectedToday(_) => "@today gives midnight of the current date"@,
        LexErr::ExpectedUnixPrefix(_) => "@unix_ must be followed by an seconds value, following the format @unix_SS.SSS"@,
        LexErr::ExpectedUnixTimestamp(_) => "provide a number of seconds since the Unix epoch, may include a fractional part"@,
        LexErr::ExpectedDateFormat(_) => "after @, provide a date in YYYY-MM-DD format"@,
        LexErr::ExpectedColon(_) => "time components are separated by colons (HH:MM:SS)"@,
        LexErr::InvalidYear(_) => "year must be a valid integer"@,
        LexErr::InvalidMonth(_) => "month must be 1–12"@,
        LexErr::InvalidDay(_) => "day must be 1–31 and valid for the given month/year"@,
        LexErr::InvalidDate(_) => "this date does not exist in the Gregorian calendar"@,
        LexErr::InvalidHour(_) => "hour must be 0–23"@,
        LexErr::InvalidMinute(_) => "minute must be 0–59"@,
        LexErr::ExpectedDurationDigits(_) => "a duration component starts with digits"@,
        LexErr::IncompleteDurationFraction(_) => "add digits after the '.'"@,
        LexErr::UnexpectedDurationSuffix(_, _) => "end each component with w, d, h, m or s"@,
        LexErr::MissingDurationSuffix(_) => "end each component with w, d, h, m or s"@,
        LexErr::FractionalNotAllowed(_, _) => "only seconds may have a fraction"@,
        LexErr::DuplicateDurationComponent(_, _) => "give each unit at most once"@,
        LexErr::DurationOverflow(_) => "the total must fit in a signed 64-bit number of seconds"@,
        LexErr::EmptyDuration(_) => "write at least one component, such as #1h"@,
    }
}

impl LexError {
    /// The hint that a report of the error gives on how to mend the text,
    /// as `help_text` says.
    pub fn help(&self) -> (r: String)
        ensures
            r@ == help_text(self@),
    {
        match self {
            LexError::UnexpectedChar(c, _) => {
                let mut r = String::from_str("this character '");
                push_char(&mut r, *c);
                r.append("' is not valid in this position");
                r
            },
            LexError::InvalidEscape(c, _) => {
                let mut r = String::from_str("\\");
                push_char(&mut r, *c);
                r.append(" is not an escape; use \\\", \\\\, \\n, \\t, \\r, \\0 or \\u{...}");
                r
            },
            LexError::InvalidUnicodeCodePoint(cp, _) => {
                let mut r = String::from_str("U+");
                push_hex_padded(&mut r, *cp, 4);
                r.append(" is not a valid unicode code point");
                r
            },
            LexError::IntOverflow(lit, _) => {
                let mut r = String::from_str("the literal `");
                r.append(lit.as_str());
                r.append("` exceeds the range of a signed 64-bit integer whose range is ");
                push_signed_decimal(&mut r, i64::MIN);
                r.append("..=");
                push_signed_decimal(&mut r, i64::MAX);
                r
            },
            LexError::InvalidFloat(lit, _) => {
                let mut r = String::from_str("the literal `");
                r.append(lit.as_str());
                r.append("` is not a valid float");
                r
            },
            LexError::InvalidUnixTimestamp(ts, _) => {
                let mut r = String::from_str("`");
                r.append(ts.as_str());
                r.append(
                    "` is not a valid unix timestamp (whole seconds must fit in a 64-bit signed integer)",
                );
                r
            },
            LexError::UnexpectedAmpersand(_) => String::from_str("use && for logical AND"),
            LexError::UnexpectedPipe(_) => String::from_str("use |> for pipeline or || for logical OR"),
            LexError::UnclosedString(_) => String::from_str("add a closing \" to terminate the string literal"),
            LexError::EmptyIntLiteral(_, _) => String::from_str("add at least one valid digit after the prefix"),
            LexError::InvalidUnicodeEscape(hex, _) => {
                let mut r = String::from_str("valid escape: \\u followed by four hex digits, got \\u");
                r.append(hex.as_str());
                r
            },
            LexError::InvalidTimeLiteral(_) => String::from_str("use @now, @today / @today_HH:MM:SS.SSS, @unix_SS.SSS, or @yyyy-mm-dd_HH:MM:SS.SSS"),
            LexError::ExpectedNow(_) => String::from_str("@now gives the current instant"),
            LexError::ExpectedToday(_) => String::from_str("@today gives midnight of the current date"),
            LexError::ExpectedUnixPrefix(_) => String::from_str("@unix_ must be followed by an seconds value, following the format @unix_SS.SSS"),
            LexError::ExpectedUnixTimestamp(_) => String::from_str("provide a number of seconds since the Unix epoch, may include a fractional part"),
            LexError::ExpectedDateFormat(_) => String::from_str("after @, provide a date in YYYY-MM-DD format"),
            LexError::ExpectedColon(_) => String::from_str("time components are separated by colons (HH:MM:SS)"),
            LexError::InvalidYear(_) => String::from_str("year must be a valid integer"),
            LexError::InvalidMonth(_) => String::from_str("month must be 1–12"),
            LexError::InvalidDay(_) => String::from_str("day must be 1–31 and valid for the given month/year"),
            LexError::InvalidDate(_) => String::from_str("this date does not exist in the Gregorian calendar"),
            LexError::InvalidHour(_) => String::from_str("hour must be 0–23"),
            LexError::InvalidMinute(_) => String::from_str("minute must be 0–59"),
            LexError::ExpectedDurationDigits(_) => String::from_str("a duration component starts with digits"),
            LexError::IncompleteDurationFraction(_) => String::from_str("add digits after the '.'"),
            LexError::UnexpectedDurationSuffix(_, _) => String::from_str("end each component with w, d, h, m or s"),
            LexError::MissingDurationSuffix(_) => String::from_str("end each component with w, d, h, m or s"),
            LexError::FractionalNotAllowed(_, _) => String::from_str("only seconds may have a fraction"),
            LexError::DuplicateDurationComponent(_, _) => String::from_str("give each unit at most once"),
            LexError::DurationOverflow(_) => String::from_str("the total must fit in a signed 64-bit number of seconds"),
            LexError::EmptyDuration(_) => String::from_str("write at least one component, such as #1h"),
        }
    }

    /// The span of source text that the error concerns.
    pub fn span(&self) -> (r: Span)
        ensures
            r == err_span(self@),
    {
        match self {
            LexError::UnexpectedChar(_, s) => *s,
            LexError::UnexpectedAmpersand(s) => *s,
            LexError::UnexpectedPipe(s) => *s,
            LexError::UnclosedString(s) => *s,
            LexError::InvalidEscape(_, s) => *s,
            LexError::InvalidUnicodeEscape(_, s) => *s,
            LexError::InvalidUnicodeCodePoint(_, s) => *s,
            LexError::IntOverflow(_, s) => *s,
            LexError::EmptyIntLiteral(_, s) => *s,
            LexError::InvalidFloat(_, s) => *s,
            LexError::InvalidTimeLiteral(s) => *s,
            LexError::ExpectedNow(s) => *s,
            LexError::ExpectedToday(s) => *s,
            LexError::ExpectedUnixPrefix(s) => *s,
            LexError::ExpectedUnixTimestamp(s) => *s,
            LexError::InvalidUnixTimestamp(_, s) => *s,
            LexError::ExpectedDateFormat(s) => *s,
            LexError::ExpectedColon(s) => *s,
            LexError::InvalidYear(s) => *s,
            LexError::InvalidMonth(s) => *s,
            LexError::InvalidDay(s) => *s,
            LexError::InvalidDate(s) => *s,
            LexError::InvalidHour(s) => *s,
            LexError::InvalidMinute(s) => *s,
            LexError::ExpectedDurationDigits(s) => *s,
            LexError::IncompleteDurationFraction(s) => *s,
            LexError::UnexpectedDurationSuffix(_, s) => *s,
            LexError::MissingDurationSuffix(s) => *s,
            LexError::FractionalNotAllowed(_, s) => *s,
            LexError::DuplicateDurationComponent(_, s) => *s,
            LexError::DurationOverflow(s) => *s,
            LexError::EmptyDuration(s) => *s,
        }
    }
}

} // verus!
