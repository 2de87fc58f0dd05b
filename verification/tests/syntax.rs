use flowql::syntax::error::{ParserResult, Span};
use flowql::syntax::lexer::cursor::{Lookahead, SourceReader};
use flowql::syntax::lexer::token::{Token, TokenKind};
use flowql::syntax::lexer::Lexer;

fn lex(input: &str) -> ParserResult<Vec<Token>> {
    let mut lexer = Lexer::new(input);
    let mut tokens = Vec::new();

    loop {
        let tok = lexer.next_token()?;
        if tok.is_eof() {
            break;
        }
        tokens.push(tok);
    }

    Ok(tokens)
}

fn kinds(tokens: &[Token]) -> Vec<TokenKind> {
    tokens.iter().map(|tok| tok.kind.clone()).collect()
}

fn spans(tokens: &[Token]) -> Vec<Span> {
    tokens.iter().map(|tok| tok.span).collect()
}

fn ident(s: &str) -> TokenKind {
    TokenKind::Ident(s.to_string())
}

/// The value of a float literal token.
fn float_value(kind: &TokenKind) -> f64 {
    match kind {
        TokenKind::FloatLit(text) => text.parse().unwrap(),
        other => panic!("expected a float, got {:?}", other),
    }
}

#[test]
fn span() {
    let span1 = Span::new(0, 26);
    let span2 = Span::new(21, 52);
    let span3 = Span::new(1001, 4096);

    assert_eq!(span1.merge(&span2), Span::new(0, 52));
    assert_eq!(span3.merge(&span2), Span::new(21, 4096));
}

#[test]
fn lookahead() {
    let mut iter = Lookahead::new([4, 9, 16].into_iter());

    assert_eq!(iter.peek(), Some(&4));
    assert_eq!(iter.peek_2(), Some(&9));
    assert_eq!(iter.next(), Some(4));

    assert_eq!(iter.peek(), Some(&9));
    assert_eq!(iter.peek_2(), Some(&16));
    assert_eq!(iter.next(), Some(9));

    assert_eq!(iter.peek(), Some(&16));
    assert_eq!(iter.peek_2(), None);
    assert_eq!(iter.next(), Some(16));

    assert_eq!(iter.peek(), None);
    assert_eq!(iter.peek_2(), None);
    assert_eq!(iter.next(), None);
}

#[test]
fn source_reader() {
    let mut reader = SourceReader::new("A🟥ç\n");

    assert_eq!(reader.pos(), 0);
    reader.next();
    assert_eq!(reader.pos(), 1);
    reader.next();
    assert_eq!(reader.pos(), 5);
    reader.next();
    assert_eq!(reader.pos(), 7);
    reader.next();
    assert_eq!(reader.pos(), 8);
    reader.next();
    assert_eq!(reader.pos(), 8);
}

#[test]
fn lexes_ident() {
    let tokens = lex("abc123 _987 if XYZ_").unwrap();

    assert_eq!(
        kinds(&tokens),
        vec![ident("abc123"), ident("_987"), TokenKind::If, ident("XYZ_"),]
    );
    assert_eq!(
        spans(&tokens),
        vec![
            Span::new(0, 6),
            Span::new(7, 11),
            Span::new(12, 14),
            Span::new(15, 19),
        ]
    );
}

#[test]
fn lexes_numeric() {
    let tokens = lex("9876 0x7FFA 0b11101110 1E+3 0.005 00040.550e-256").unwrap();
    let kinds = kinds(&tokens);

    assert_eq!(kinds.len(), 6);
    assert_eq!(
        kinds[..3].to_vec(),
        vec![
            TokenKind::IntLit(9876),
            TokenKind::IntLit(0x7FFA),
            TokenKind::IntLit(0b11101110),
        ]
    );
    assert_eq!(float_value(&kinds[3]), 1e3);
    assert_eq!(float_value(&kinds[4]), 0.005);
    assert_eq!(float_value(&kinds[5]), 40.55e-256);

    assert_eq!(
        self::kinds(&lex("1.").unwrap()),
        vec![TokenKind::IntLit(1), TokenKind::Dot]
    );
    assert_eq!(
        self::kinds(&lex(".02").unwrap()),
        vec![TokenKind::Dot, TokenKind::IntLit(2)]
    );
    assert!(lex("4e").is_err());
    assert!(lex("0xFF.0").is_err());
    assert!(lex("9223372036854775808").is_err());
}

#[test]
fn lexes_string() {
    let tokens = lex(r#""words  🟥 \" " "üéÆç""#).unwrap();

    assert_eq!(
        kinds(&tokens),
        vec![
            TokenKind::StringLit(r#"words  🟥 \" "#.to_string()),
            TokenKind::StringLit("üéÆç".to_string())
        ]
    );

    assert!(lex(r#""unclosed "#).is_err());
}

#[test]
fn lexes_operators() {
    let tokens = lex("+-*/%!&&|||>").unwrap();

    assert_eq!(
        kinds(&tokens),
        vec![
            TokenKind::Plus,
            TokenKind::Minus,
            TokenKind::Star,
            TokenKind::Slash,
            TokenKind::Percent,
            TokenKind::Bang,
            TokenKind::LogicalAnd,
            TokenKind::LogicalOr,
            TokenKind::Pipeline,
        ]
    );

    assert!(lex("|").is_err());
    assert!(lex("&").is_err());
}

#[test]
fn lexes_comparison() {
    let tokens = lex("!!====>>=<=<").unwrap();

    assert_eq!(
        kinds(&tokens),
        vec![
            TokenKind::Bang,
            TokenKind::NotEqual,
            TokenKind::Equal,
            TokenKind::Assign,
            TokenKind::Greater,
            TokenKind::GreaterEqual,
            TokenKind::LessEqual,
            TokenKind::Less,
        ]
    );
    assert_eq!(
        spans(&tokens),
        vec![
            Span::new(0, 1),
            Span::new(1, 3),
            Span::new(3, 5),
            Span::new(5, 6),
            Span::new(6, 7),
            Span::new(7, 9),
            Span::new(9, 11),
            Span::new(11, 12),
        ]
    );
}

#[test]
fn lexes_punctuation() {
    let tokens = lex("::;:,....([{)]}").unwrap();

    assert_eq!(
        kinds(&tokens),
        vec![
            TokenKind::DoubleColon,
            TokenKind::Semicolon,
            TokenKind::Colon,
            TokenKind::Comma,
            TokenKind::TripleDot,
            TokenKind::Dot,
            TokenKind::LParen,
            TokenKind::LBracket,
            TokenKind::LBrace,
            TokenKind::RParen,
            TokenKind::RBracket,
            TokenKind::RBrace,
        ]
    );

    assert!(lex("..").is_err());
}

#[test]
fn lexes_whitespace() {
    assert!(lex(" \t\r\n").unwrap().is_empty());

    let comments = r#"
        // this is a comment
        /* block comment
           /* sub-comment */
        */
        "#;
    assert!(lex(comments).unwrap().is_empty());

    assert!(lex("/* ").is_err());
}

#[test]
fn source_reader_reads_to_the_end() {
    let input = "A🟥ç\n x";
    let mut reader = SourceReader::new(input);
    reader.next();
    let rest = reader.read_to_end();
    assert_eq!(rest, input.chars().skip(1).collect::<Vec<char>>());
    assert_eq!(reader.pos(), input.len());
    assert_eq!(reader.next(), None);
    assert_eq!(reader.pos(), input.len());
}
