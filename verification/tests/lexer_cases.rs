use flowql::lexer::error::LexError;
use flowql::lexer::token::{Span, Token, TokenKind};
use flowql::lexer::Lexer;

fn first(source: &str) -> Result<Token, LexError> {
    Lexer::new(source).next_token()
}

fn first_kind(source: &str) -> TokenKind {
    first(source).unwrap().kind
}

fn first_error(source: &str) -> LexError {
    match first(source) {
        Err(e) => e,
        Ok(t) => panic!("expected an error for {:?}, got {:?}", source, t),
    }
}

#[test]
fn every_error_has_an_input() {
    let sp = |a: usize, b: usize| Span::new(a, b);
    assert_eq!(first_error("$"), LexError::UnexpectedChar('$', sp(0, 1)));
    assert_eq!(first_error("&x"), LexError::UnexpectedAmpersand(sp(0, 1)));
    assert_eq!(first_error("|x"), LexError::UnexpectedPipe(sp(0, 1)));
    assert_eq!(first_error("\"abc"), LexError::UnclosedString(sp(0, 4)));
    assert_eq!(first_error("\"a\nb\""), LexError::UnclosedString(sp(0, 3)));
    assert_eq!(first_error("\"\\q\""), LexError::InvalidEscape('q', sp(1, 3)));
    assert_eq!(
        first_error("\"\\u{}\""),
        LexError::InvalidUnicodeEscape("{".to_string(), Span::new(1, 4))
    );
    assert_eq!(
        first_error("\"\\u{1234567}\""),
        LexError::InvalidUnicodeEscape("{1234567".to_string(), Span::new(1, 11))
    );
    assert_eq!(
        first_error("\"\\uX\""),
        LexError::InvalidUnicodeEscape(String::new(), Span::new(1, 3))
    );
    assert!(matches!(first_error("\"\\u{D800}\""), LexError::InvalidUnicodeCodePoint(0xD800, _)));
    assert!(matches!(first_error("9223372036854775808"), LexError::IntOverflow(_, _)));
    assert!(matches!(first_error("0x"), LexError::EmptyIntLiteral(_, _)));
    assert_eq!(first_error("1e+"), LexError::InvalidFloat("1e+".to_string(), sp(0, 3)));
    assert_eq!(first_error("@x"), LexError::InvalidTimeLiteral(sp(0, 1)));
    assert!(matches!(first_error("@nows"), LexError::ExpectedNow(_)));
    assert!(matches!(first_error("@todayy"), LexError::ExpectedToday(_)));
    assert!(matches!(first_error("@unixx_123"), LexError::ExpectedUnixPrefix(_)));
    assert!(matches!(first_error("@unix_"), LexError::ExpectedUnixTimestamp(_)));
    assert!(matches!(
        first_error("@unix_99999999999999999999"),
        LexError::InvalidUnixTimestamp(_, _)
    ));
    assert!(matches!(first_error("@2026"), LexError::ExpectedDateFormat(_)));
    assert!(matches!(first_error("@today_12"), LexError::ExpectedColon(_)));
    assert!(matches!(first_error("@3000000000-01-01"), LexError::InvalidYear(_)));
    assert!(matches!(first_error("@2026-13-01"), LexError::InvalidMonth(_)));
    assert!(matches!(first_error("@2026-01-32"), LexError::InvalidDay(_)));
    assert!(matches!(first_error("@2023-02-29"), LexError::InvalidDate(_)));
    assert!(matches!(first_error("@today_24:00"), LexError::InvalidHour(_)));
    assert!(matches!(first_error("@today_12:60"), LexError::InvalidMinute(_)));
    assert!(matches!(first_error("#.5s"), LexError::ExpectedDurationDigits(_)));
    assert!(matches!(first_error("#5.s"), LexError::IncompleteDurationFraction(_)));
    assert!(matches!(first_error("#1x"), LexError::UnexpectedDurationSuffix('x', _)));
    assert!(matches!(first_error("#1"), LexError::MissingDurationSuffix(_)));
    assert!(matches!(first_error("#1.5d"), LexError::FractionalNotAllowed('d', _)));
    assert!(matches!(first_error("#1d2d"), LexError::DuplicateDurationComponent('d', _)));
    assert!(matches!(first_error("#9223372036854775807w"), LexError::DurationOverflow(_)));
    assert!(matches!(first_error("#"), LexError::EmptyDuration(_)));
}

#[test]
fn error_span_is_its_span() {
    assert_eq!(first_error("$").span(), Span::new(0, 1));
    assert_eq!(first_error("  &x").span(), Span::new(2, 3));
}

#[test]
fn duration_component_beyond_i64_panics() {
    let lexer = Lexer::new("#99999999999999999999s");
    assert!(lexer.next_token_panics());
    let mut lexer = Lexer::new("#99999999999999999999s");
    assert!(lexer.try_next_token().is_none());
    let lexer = Lexer::new("#9s");
    assert!(!lexer.next_token_panics());
}

#[test]
fn every_read_moves_forward_to_eof() {
    let source = "let x = @unix_-1.2 |> [? y >= #1h30m ] // done\n\"s\" 0x1F 2.5e3 $";
    let mut lexer = Lexer::new(source);
    let mut last_end = 0;
    let mut reads = 0;
    loop {
        reads += 1;
        assert!(reads <= source.chars().count() + 1);
        match lexer.next_token() {
            Ok(t) => {
                assert!(t.span.start >= last_end && t.span.end >= t.span.start);
                last_end = t.span.end;
                if t.kind == TokenKind::Eof {
                    assert_eq!(t.span, Span::new(source.len(), source.len()));
                    break;
                }
                assert!(t.span.end > t.span.start);
            }
            Err(e) => {
                assert!(e.span().start >= last_end);
            }
        }
    }
}

#[test]
fn eof_repeats() {
    let mut lexer = Lexer::new("x /* c */ ");
    assert_eq!(lexer.next_token().unwrap().kind, TokenKind::Ident("x".into()));
    let eof = lexer.next_token().unwrap();
    assert_eq!(eof.kind, TokenKind::Eof);
    assert_eq!(eof.span, Span::new(10, 10));
    assert_eq!(lexer.next_token().unwrap(), eof);
    assert_eq!(lexer.next_token().unwrap(), eof);
}

#[test]
fn unclosed_block_comment_runs_to_the_end() {
    let mut lexer = Lexer::new("a /* b /* c */");
    assert_eq!(lexer.next_token().unwrap().kind, TokenKind::Ident("a".into()));
    let eof = lexer.next_token().unwrap();
    assert_eq!(eof.kind, TokenKind::Eof);
    assert_eq!(eof.span, Span::new(14, 14));
}

#[test]
fn unix_instants_are_normalized() {
    assert_eq!(first_kind("@unix_-0.000000001"), TokenKind::Instant(-1, 999_999_999));
    assert_eq!(first_kind("@unix_-3"), TokenKind::Instant(-3, 0));
    assert_eq!(first_kind("@unix_-3.5"), TokenKind::Instant(-4, 500_000_000));
    assert_eq!(first_kind("@unix_3.5"), TokenKind::Instant(3, 500_000_000));
    assert_eq!(first_kind("@unix_1.1234567891"), TokenKind::Instant(1, 123_456_789));
}

#[test]
fn token_values_are_in_range() {
    assert_eq!(
        first_kind("@today_23:59:59.999999999999"),
        TokenKind::TodayAt(23, 59, 59, 999_999_999)
    );
    assert_eq!(first_kind("@today_07:05"), TokenKind::TodayAt(7, 5, 0, 0));
    assert_eq!(first_kind("@today_07:05:99"), TokenKind::TodayAt(7, 5, 99, 0));
    assert_eq!(first_kind("#1.9999999999s"), TokenKind::Duration(1, 999_999_999));
    assert_eq!(first_kind("#-1h"), TokenKind::Duration(-3600, 0));
}

#[test]
fn dates_go_through_the_calendar() {
    assert_eq!(first_kind("@2026-05-31_14:30:00"), TokenKind::Instant(1_780_237_800, 0));
    assert_eq!(first_kind("@2000-02-29"), TokenKind::Instant(951_782_400, 0));
    assert_eq!(first_kind("@1969-12-31_23:59:59"), TokenKind::Instant(-1, 0));
    assert_eq!(first_kind("@1970-01-01_00:00:00.5"), TokenKind::Instant(0, 500_000_000));
    assert_eq!(first_kind("@0-01-01"), TokenKind::Instant(-62_167_219_200, 0));
}

#[test]
fn unicode_classes_come_from_std() {
    assert_eq!(first_kind("\u{e9}t\u{e9}"), TokenKind::Ident("\u{e9}t\u{e9}".into()));
    assert_eq!(first_kind("x\u{b2}"), TokenKind::Ident("x\u{b2}".into()));
    assert_eq!(first_kind("\u{a0}\u{2003}let"), TokenKind::Let);
    assert_eq!(first_kind("\"\\u{1F600}\""), TokenKind::Str("\u{1F600}".into()));
    assert!(matches!(first_error("\u{b2}"), LexError::UnexpectedChar('\u{b2}', _)));
}

#[test]
fn token_kinds_display() {
    assert_eq!(TokenKind::Let.display(), "let");
    assert_eq!(TokenKind::Ident("abc".into()).display(), "abc");
    assert_eq!(TokenKind::Int(-42).display(), "-42");
    assert_eq!(TokenKind::Int(0).display(), "0");
    assert_eq!(TokenKind::Int(i64::MIN).display(), "-9223372036854775808");
    assert_eq!(TokenKind::Float("1.5".into()).display(), "1.5");
    assert_eq!(TokenKind::Str("a\"b".into()).display(), "\"a\"b\"");
    assert_eq!(
        TokenKind::Instant(1_717_115_400, 123_000_000).display(),
        "@unix_1717115400.123000000"
    );
    assert_eq!(TokenKind::Instant(-2, 800_000_000).display(), "@unix_-2.800000000");
    assert_eq!(TokenKind::Duration(5, 0).display(), "#5.000000000s");
    assert_eq!(TokenKind::Now.display(), "@now");
    assert_eq!(TokenKind::Today.display(), "@today");
    assert_eq!(TokenKind::TodayAt(9, 5, 3, 0).display(), "@today_09:05:03");
    assert_eq!(TokenKind::TodayAt(14, 30, 0, 123).display(), "@today_14:30:00.000000123");
    assert_eq!(TokenKind::TodayAt(7, 5, 123, 0).display(), "@today_07:05:123");
    assert_eq!(TokenKind::DotDotEq.display(), "..=");
    assert_eq!(TokenKind::PipeR.display(), "|>");
    assert_eq!(TokenKind::LBrace.display(), "{");
    assert_eq!(TokenKind::RBrace.display(), "}");
    assert_eq!(TokenKind::Eof.display(), "<eof>");
}

#[test]
fn span_merge_laws() {
    let a = Span::new(3, 7);
    let b = Span::new(5, 12);
    let c = Span::new(1, 2);
    assert_eq!(a.merge(b), Span::new(3, 12));
    assert_eq!(a.merge(b), b.merge(a));
    assert_eq!(a.merge(b).merge(c), a.merge(b.merge(c)));
    assert_eq!(a.merge(a), a);
}

#[test]
fn errors_give_help() {
    let sp = Span::new(0, 1);
    assert_eq!(
        LexError::UnexpectedChar('$', sp).help(),
        "this character '$' is not valid in this position"
    );
    assert_eq!(
        LexError::IntOverflow("99999999999999999999".into(), sp).help(),
        "the literal `99999999999999999999` exceeds the range of a signed 64-bit integer whose range is -9223372036854775808..=9223372036854775807"
    );
    assert_eq!(
        LexError::InvalidUnicodeCodePoint(0xD800, sp).help(),
        "U+D800 is not a valid unicode code point"
    );
    assert_eq!(
        LexError::InvalidUnicodeCodePoint(0x3a, sp).help(),
        "U+003A is not a valid unicode code point"
    );
    assert_eq!(
        LexError::InvalidUnicodeCodePoint(0x110000, sp).help(),
        "U+110000 is not a valid unicode code point"
    );
    assert_eq!(LexError::InvalidMonth(sp).help(), "month must be 1\u{2013}12");
    assert_eq!(
        LexError::InvalidEscape('q', sp).help(),
        "\\q is not an escape; use \\\", \\\\, \\n, \\t, \\r, \\0 or \\u{...}"
    );
    assert_eq!(
        LexError::InvalidFloat("1e".into(), sp).help(),
        "the literal `1e` is not a valid float"
    );
    assert_eq!(
        LexError::InvalidUnixTimestamp("1".into(), sp).help(),
        "`1` is not a valid unix timestamp (whole seconds must fit in a 64-bit signed integer)"
    );
    assert_eq!(
        LexError::InvalidUnicodeEscape("{12".into(), sp).help(),
        "valid escape: \\u followed by four hex digits, got \\u{12"
    );
    assert_eq!(LexError::UnclosedString(sp).help(), "add a closing \" to terminate the string literal");
}

#[test]
fn displayed_kinds_read_back() {
    let kinds = vec![
        TokenKind::Let,
        TokenKind::False,
        TokenKind::Now,
        TokenKind::Today,
        TokenKind::PlusPlus,
        TokenKind::DotDotEq,
        TokenKind::PipeR,
        TokenKind::ColonColon,
        TokenKind::LBrace,
        TokenKind::Ident("caf\u{e9}_2".into()),
        TokenKind::Int(0),
        TokenKind::Int(i64::MAX),
        TokenKind::Str("a b\t\u{e9}".into()),
        TokenKind::Instant(1_717_115_400, 123_000_000),
        TokenKind::Instant(0, 0),
        TokenKind::Duration(-3600, 5),
        TokenKind::Duration(i64::MAX, 999_999_999),
        TokenKind::TodayAt(9, 5, 3, 0),
        TokenKind::TodayAt(23, 59, 61, 1),
    ];
    for kind in kinds {
        let text = kind.display();
        let mut lexer = Lexer::new(&text);
        let token = lexer.next_token().unwrap();
        assert_eq!(token.kind, kind, "text: {:?}", text);
        assert_eq!(token.span, Span::new(0, text.len()));
        let eof = lexer.next_token().unwrap();
        assert_eq!(eof.kind, TokenKind::Eof);
    }
}

#[test]
fn white_space_is_the_unicode_set() {
    for c in ['\t', '\n', '\u{b}', '\u{c}', '\r', ' ', '\u{85}', '\u{a0}', '\u{1680}', '\u{2000}', '\u{200a}', '\u{2028}', '\u{2029}', '\u{202f}', '\u{205f}', '\u{3000}'] {
        let text = format!("{}x", c);
        assert_eq!(first(&text).unwrap().span.start, c.len_utf8());
    }
    assert!(matches!(first_error("\u{200b}x"), LexError::UnexpectedChar('\u{200b}', _)));
}
