use flowql::lexer::token::{Span, TokenKind};
use flowql::lexer::Lexer;
use miette::SourceSpan;

fn lex_all(source: &str) -> Vec<TokenKind> {
    let mut lexer = Lexer::new(source);
    let mut tokens = Vec::new();
    loop {
        let token = lexer.next_token().unwrap();
        let kind = token.kind.clone();
        if kind == TokenKind::Eof {
            break;
        }
        tokens.push(kind);
    }
    tokens
}

fn check_tokens(source: &str, expected: &[TokenKind]) {
    let actual = lex_all(source);
    assert_eq!(actual, expected, "source: {:?}", source);
}

/// A float literal token, by its value.
fn check_float(source: &str, expected: f64) {
    let actual = lex_all(source);
    assert_eq!(actual.len(), 1, "source: {:?}", source);
    match &actual[0] {
        TokenKind::Float(text) => {
            let value: f64 = text.parse().unwrap();
            assert_eq!(value, expected, "source: {:?}", source);
        }
        other => panic!("expected a float for {:?}, got {:?}", source, other),
    }
}

#[test]
fn test_keywords() {
    check_tokens("let", &[TokenKind::Let]);
    check_tokens("table", &[TokenKind::Table]);
    check_tokens("if", &[TokenKind::If]);
    check_tokens("else", &[TokenKind::Else]);
    check_tokens("true", &[TokenKind::True]);
    check_tokens("false", &[TokenKind::False]);
}

#[test]
fn test_identifier() {
    check_tokens("hello", &[TokenKind::Ident("hello".into())]);
    check_tokens("user_name", &[TokenKind::Ident("user_name".into())]);
    check_tokens("_internal", &[TokenKind::Ident("_internal".into())]);
    check_tokens("join", &[TokenKind::Ident("join".into())]);
    check_tokens("Some", &[TokenKind::Ident("Some".into())]);
    check_tokens("None", &[TokenKind::Ident("None".into())]);
}

#[test]
fn test_keyword_not_in_identifier() {
    check_tokens("letter", &[TokenKind::Ident("letter".into())]);
}

#[test]
fn test_integers() {
    check_tokens("42", &[TokenKind::Int(42)]);
    check_tokens("0", &[TokenKind::Int(0)]);
    check_tokens("-5", &[TokenKind::Minus, TokenKind::Int(5)]);
    check_tokens("1_000", &[TokenKind::Int(1000)]);
    check_tokens("0xDEAD", &[TokenKind::Int(0xDEAD)]);
    check_tokens("0o755", &[TokenKind::Int(0o755)]);
    check_tokens("0b1101", &[TokenKind::Int(0b1101)]);
    check_tokens("0b1101_0010", &[TokenKind::Int(0b1101_0010)]);
}

#[test]
fn test_floats() {
    check_float("3.21", 3.21);
    check_float("0.001", 0.001);
    check_float("1e10", 1e10);
    check_float("1.5e-3", 1.5e-3);
    check_float("1.5e+3", 1500.0);
}

#[test]
fn test_strings() {
    check_tokens("\"hello\"", &[TokenKind::Str("hello".into())]);
    check_tokens("\"hello world\"", &[TokenKind::Str("hello world".into())]);
    check_tokens(
        r#""escaped \"quote\"""#,
        &[TokenKind::Str(r#"escaped "quote""#.into())],
    );
}

#[test]
fn test_string_continuation() {
    check_tokens("\"hello\\\nworld\"", &[TokenKind::Str("helloworld".into())]);
}

#[test]
fn test_invalid_escape() {
    let mut lexer = Lexer::new(r#""\z""#);
    assert!(lexer.next_token().is_err());
}

#[test]
fn test_unicode_escape_basic() {
    check_tokens(r#""\u{41}""#, &[TokenKind::Str("A".into())]);
    check_tokens(r#""\u{3A}""#, &[TokenKind::Str(":".into())]);
    check_tokens(r#""\u{1F600}""#, &[TokenKind::Str("\u{1F600}".into())]);
    check_tokens(r#""\u{10FFFF}""#, &[TokenKind::Str("\u{10FFFF}".into())]);
}

#[test]
fn test_unicode_escape_errors() {
    let cases = &[
        r#""\u{}""#,
        r#""\u{1234567}""#,
        r#""\u{110000}""#,
        r#""\uX""#,
    ];
    for &src in cases {
        let mut lexer = Lexer::new(src);
        assert!(lexer.next_token().is_err(), "expected error for: {src}");
    }
}

#[test]
fn test_operators() {
    check_tokens("+", &[TokenKind::Plus]);
    check_tokens("-", &[TokenKind::Minus]);
    check_tokens("*", &[TokenKind::Star]);
    check_tokens("/", &[TokenKind::Slash]);
    check_tokens("%", &[TokenKind::Percent]);
    check_tokens("==", &[TokenKind::EqEq]);
    check_tokens("!=", &[TokenKind::BangEq]);
    check_tokens("<", &[TokenKind::LAngle]);
    check_tokens("<=", &[TokenKind::LAngleEq]);
    check_tokens(">", &[TokenKind::RAngle]);
    check_tokens(">=", &[TokenKind::RAngleEq]);
    check_tokens("&&", &[TokenKind::AmpAmp]);
    check_tokens("||", &[TokenKind::PipePipe]);
    check_tokens("!", &[TokenKind::Bang]);
    check_tokens("++", &[TokenKind::PlusPlus]);
    check_tokens("..", &[TokenKind::DotDot]);
    check_tokens("..=", &[TokenKind::DotDotEq]);
    check_tokens("|>", &[TokenKind::PipeR]);
    check_tokens("::", &[TokenKind::ColonColon]);
    check_tokens("=", &[TokenKind::Eq]);
    check_tokens(".", &[TokenKind::Dot]);
    check_tokens(":", &[TokenKind::Colon]);
}

#[test]
fn test_delimiters() {
    check_tokens("(", &[TokenKind::LParen]);
    check_tokens(")", &[TokenKind::RParen]);
    check_tokens("[", &[TokenKind::LBracket]);
    check_tokens("]", &[TokenKind::RBracket]);
    check_tokens("{", &[TokenKind::LBrace]);
    check_tokens("}", &[TokenKind::RBrace]);
    check_tokens(";", &[TokenKind::Semicolon]);
    check_tokens(",", &[TokenKind::Comma]);
    check_tokens("?", &[TokenKind::Question]);
}

#[test]
fn test_whitespace() {
    check_tokens("let   x", &[TokenKind::Let, TokenKind::Ident("x".into())]);
    check_tokens("let\nx", &[TokenKind::Let, TokenKind::Ident("x".into())]);
    check_tokens("let\tx", &[TokenKind::Let, TokenKind::Ident("x".into())]);
}

#[test]
fn test_line_comment() {
    check_tokens(
        "let // this is a comment\nx",
        &[TokenKind::Let, TokenKind::Ident("x".into())],
    );
}

#[test]
fn test_block_comment() {
    check_tokens(
        "let /* comment */ x",
        &[TokenKind::Let, TokenKind::Ident("x".into())],
    );
}

#[test]
fn test_nested_block_comment() {
    check_tokens(
        "let /* outer /* inner */ still */ x",
        &[TokenKind::Let, TokenKind::Ident("x".into())],
    );
}

#[test]
fn test_pipeline_expression() {
    check_tokens(
        "users |> [ name, age ]",
        &[
            TokenKind::Ident("users".into()),
            TokenKind::PipeR,
            TokenKind::LBracket,
            TokenKind::Ident("name".into()),
            TokenKind::Comma,
            TokenKind::Ident("age".into()),
            TokenKind::RBracket,
        ],
    );
}

#[test]
fn test_filter_syntax() {
    check_tokens(
        "users |> [? age > 18 ]",
        &[
            TokenKind::Ident("users".into()),
            TokenKind::PipeR,
            TokenKind::LBracket,
            TokenKind::Question,
            TokenKind::Ident("age".into()),
            TokenKind::RAngle,
            TokenKind::Int(18),
            TokenKind::RBracket,
        ],
    );
}

#[test]
fn test_join_syntax() {
    check_tokens(
        "users |> join<orders>(id == orders::user_id) {: total = orders::amount }",
        &[
            TokenKind::Ident("users".into()),
            TokenKind::PipeR,
            TokenKind::Ident("join".into()),
            TokenKind::LAngle,
            TokenKind::Ident("orders".into()),
            TokenKind::RAngle,
            TokenKind::LParen,
            TokenKind::Ident("id".into()),
            TokenKind::EqEq,
            TokenKind::Ident("orders".into()),
            TokenKind::ColonColon,
            TokenKind::Ident("user_id".into()),
            TokenKind::RParen,
            TokenKind::LBrace,
            TokenKind::Colon,
            TokenKind::Ident("total".into()),
            TokenKind::Eq,
            TokenKind::Ident("orders".into()),
            TokenKind::ColonColon,
            TokenKind::Ident("amount".into()),
            TokenKind::RBrace,
        ],
    );
}

#[test]
fn test_typographic_operators() {
    let result = Lexer::new("&").next_token();
    assert!(result.is_err());
}

#[test]
fn test_at_now() {
    let tokens = lex_all("@now");
    assert_eq!(tokens, &[TokenKind::Now]);
}

#[test]
fn test_at_now_error_on_extra_chars() {
    let mut lexer = Lexer::new("@nows");
    assert!(lexer.next_token().is_err());
}

#[test]
fn test_at_today() {
    let tokens = lex_all("@today");
    assert_eq!(tokens, &[TokenKind::Today]);
}

#[test]
fn test_at_today_with_time() {
    let tokens = lex_all("@today_14:30:00");
    assert_eq!(tokens, &[TokenKind::TodayAt(14, 30, 0, 0)]);
}

#[test]
fn test_at_today_with_fractional_seconds() {
    let tokens = lex_all("@today_14:30:00.123");
    assert_eq!(tokens, &[TokenKind::TodayAt(14, 30, 0, 123000000)]);
}

#[test]
fn test_at_today_error_on_extra_chars() {
    let mut lexer = Lexer::new("@todayy");
    assert!(lexer.next_token().is_err());
}

#[test]
fn test_at_today_error_on_bare_underscore() {
    let mut lexer = Lexer::new("@today_");
    assert!(lexer.next_token().is_err());
}

#[test]
fn test_at_unix() {
    let tokens = lex_all("@unix_1717115400");
    assert_eq!(tokens, &[TokenKind::Instant(1717115400, 0)]);
}

#[test]
fn test_at_unix_with_fractional() {
    let tokens = lex_all("@unix_1717115400.123");
    assert_eq!(tokens, &[TokenKind::Instant(1717115400, 123000000)]);
}

#[test]
fn test_at_unix_error_empty() {
    let mut lexer = Lexer::new("@unix_");
    assert!(lexer.next_token().is_err());
}

#[test]
fn test_at_unix_error_bad_prefix() {
    let mut lexer = Lexer::new("@unixx_123");
    assert!(lexer.next_token().is_err());
}

#[test]
fn test_at_unix_negative_no_fraction() {
    let tokens = lex_all("@unix_-5");
    assert_eq!(tokens, &[TokenKind::Instant(-5, 0)]);
}

#[test]
fn test_at_unix_positive_sign() {
    let tokens = lex_all("@unix_+7.25");
    assert_eq!(tokens, &[TokenKind::Instant(7, 250000000)]);
}

#[test]
fn test_at_unix_negative_with_fraction() {
    let tokens = lex_all("@unix_-1.2");
    assert_eq!(tokens, &[TokenKind::Instant(-2, 800000000)]);
}

#[test]
fn test_at_unix_negative_zero_whole() {
    let tokens = lex_all("@unix_-0.5");
    assert_eq!(tokens, &[TokenKind::Instant(-1, 500000000)]);
}

#[test]
fn test_instant_literal() {
    let tokens = lex_all("@2026-05-31");
    assert_eq!(tokens.len(), 1);
    assert!(matches!(tokens[0], TokenKind::Instant(_, _)));
}

#[test]
fn test_instant_with_time() {
    let tokens = lex_all("@2026-05-31_14:30:00");
    assert_eq!(tokens.len(), 1);
    assert!(matches!(tokens[0], TokenKind::Instant(_, _)));
}

#[test]
fn test_instant_negative_year() {
    let tokens = lex_all("@-2024-05-31");
    assert_eq!(tokens.len(), 1);
    assert!(matches!(tokens[0], TokenKind::Instant(_, _)));
}

#[test]
fn test_instant_positive_sign_year() {
    let tokens = lex_all("@+2024-05-31");
    assert_eq!(tokens.len(), 1);
    assert!(matches!(tokens[0], TokenKind::Instant(_, _)));
}

#[test]
fn test_instant_negative_year_with_time() {
    let tokens = lex_all("@-2000-01-15_06:30:00");
    assert_eq!(tokens.len(), 1);
    assert!(matches!(tokens[0], TokenKind::Instant(_, _)));
}

#[test]
fn test_instants_epoch_sign() {
    if let TokenKind::Instant(secs, _) = lex_all("@2026-05-31")[0] {
        assert!(secs > 0, "year 2026 should be after 1970");
    }
    if let TokenKind::Instant(secs, _) = lex_all("@-1000-01-01")[0] {
        assert!(secs < 0, "year -1000 should be before 1970");
    }
}

#[test]
fn test_span_tracking() {
    let mut lexer = Lexer::new("let x");
    let t1 = lexer.next_token().unwrap();
    assert_eq!(SourceSpan::from(t1.span.start..t1.span.end), SourceSpan::from(0..3));
    let t2 = lexer.next_token().unwrap();
    assert_eq!(SourceSpan::from(t2.span.start..t2.span.end), SourceSpan::from(4..5));
}

#[test]
fn test_at_not_identifier() {
    let mut lexer = Lexer::new("@not_a_time");
    let result = lexer.next_token();
    assert!(result.is_err());
}

#[test]
fn test_duration_all_components() {
    let tokens = lex_all("#3w4d5h6m7s");
    assert_eq!(tokens, &[TokenKind::Duration(2178367, 0)]);
}

#[test]
fn test_duration_fractional_seconds() {
    let tokens = lex_all("#7.89s");
    assert_eq!(tokens, &[TokenKind::Duration(7, 890000000)]);
}

#[test]
fn test_duration_single_large() {
    let tokens = lex_all("#500000d");
    assert_eq!(tokens, &[TokenKind::Duration(43200000000, 0)]);
}

#[test]
fn test_duration_subset() {
    let tokens = lex_all("#3d4h5m");
    assert_eq!(tokens, &[TokenKind::Duration(273900, 0)]);
}

#[test]
fn test_duration_errors() {
    let cases = &[
        "#", "#1x", "#1d2d", "#1.5d", "#1.5s2s", "#5.s", "#.5s", "#1y", "#1M", "#1H", "#1S",
    ];
    for &src in cases {
        let mut lexer = Lexer::new(src);
        assert!(lexer.next_token().is_err(), "expected error for: {src}");
    }
}

// ---- further cases ----

#[test]
fn spans_are_byte_offsets() {
    let mut lexer = Lexer::new("é x");
    let t1 = lexer.next_token().unwrap();
    assert_eq!(t1.span, Span::new(0, 2));
    let t2 = lexer.next_token().unwrap();
    assert_eq!(t2.span, Span::new(3, 4));
    let eof = lexer.next_token().unwrap();
    assert_eq!(eof.kind, TokenKind::Eof);
    assert_eq!(eof.span, Span::new(4, 4));
}
