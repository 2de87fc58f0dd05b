use flowql::syntax::basic_lexer::{Lexer, LexerError, Span, Token, TokenKind};

fn tok(kind: TokenKind, start: usize, end: usize) -> Result<Token, LexerError> {
    Ok(Token { kind, span: Span::new(start, end) })
}

fn eof() -> Result<Token, LexerError> {
    tok(TokenKind::Eof, 0, 0)
}

#[test]
fn basic_reads_single_characters() {
    let mut lexer = Lexer::new("+ - * / % ; , ( ) [ ] { }");
    let expected = [
        TokenKind::Plus,
        TokenKind::Minus,
        TokenKind::Star,
        TokenKind::Slash,
        TokenKind::Percent,
        TokenKind::Semicolon,
        TokenKind::Comma,
        TokenKind::LParen,
        TokenKind::RParen,
        TokenKind::LBracket,
        TokenKind::RBracket,
        TokenKind::LBrace,
        TokenKind::RBrace,
    ];
    for (n, kind) in expected.into_iter().enumerate() {
        assert_eq!(lexer.next_token(), tok(kind, 2 * n, 2 * n + 1));
    }
    assert_eq!(lexer.next_token(), eof());
    assert_eq!(lexer.next_token(), eof());
}

#[test]
fn basic_two_character_operators_move_one_character() {
    let mut lexer = Lexer::new("!= ==");
    assert_eq!(lexer.next_token(), tok(TokenKind::NotEqual, 0, 1));
    assert_eq!(lexer.next_token(), tok(TokenKind::Assign, 1, 2));
    assert_eq!(lexer.next_token(), tok(TokenKind::Equal, 3, 4));
    assert_eq!(lexer.next_token(), tok(TokenKind::Assign, 4, 5));
    assert_eq!(lexer.next_token(), eof());

    let mut lexer = Lexer::new(":: <= >= |> !");
    assert_eq!(lexer.next_token(), tok(TokenKind::DoubleColon, 0, 1));
    assert_eq!(lexer.next_token(), tok(TokenKind::Colon, 1, 2));
    assert_eq!(lexer.next_token(), tok(TokenKind::LessEqual, 3, 4));
    assert_eq!(lexer.next_token(), tok(TokenKind::Assign, 4, 5));
    assert_eq!(lexer.next_token(), tok(TokenKind::GreaterEqual, 6, 7));
    assert_eq!(lexer.next_token(), tok(TokenKind::Assign, 7, 8));
    assert_eq!(lexer.next_token(), tok(TokenKind::Pipeline, 9, 10));
    assert_eq!(lexer.next_token(), tok(TokenKind::Greater, 10, 11));
    assert_eq!(lexer.next_token(), tok(TokenKind::Bang, 12, 13));
    assert_eq!(lexer.next_token(), eof());
}

#[test]
fn basic_unknown_character_is_not_read() {
    let mut lexer = Lexer::new("||");
    assert_eq!(lexer.next_token(), tok(TokenKind::LogicalOr, 0, 1));
    assert_eq!(lexer.next_token(), Err(LexerError::UnknownCharacter));
    assert_eq!(lexer.next_token(), Err(LexerError::UnknownCharacter));

    let mut lexer = Lexer::new("&& &");
    assert_eq!(lexer.next_token(), tok(TokenKind::LogicalAnd, 0, 1));
    assert_eq!(lexer.next_token(), Err(LexerError::UnknownCharacter));

    let mut lexer = Lexer::new("#");
    assert_eq!(lexer.next_token(), Err(LexerError::UnknownCharacter));
}

#[test]
fn basic_identifier_keeps_its_first_character() {
    let mut lexer = Lexer::new("abc _x9 if");
    assert_eq!(lexer.next_token(), tok(TokenKind::Ident("a".to_string()), 0, 1));
    assert_eq!(lexer.next_token(), tok(TokenKind::Ident("_".to_string()), 4, 5));
    assert_eq!(lexer.next_token(), tok(TokenKind::Ident("i".to_string()), 8, 9));
    assert_eq!(lexer.next_token(), eof());
}

#[test]
fn basic_numbers() {
    let mut lexer = Lexer::new("123 1.25 1.5e10 2e-34 7E5");
    assert_eq!(lexer.next_token(), tok(TokenKind::IntLit(1), 0, 1));
    assert_eq!(lexer.next_token(), tok(TokenKind::FloatLit("1.2".to_string()), 4, 7));
    assert_eq!(lexer.next_token(), tok(TokenKind::FloatLit("1.5e1".to_string()), 9, 14));
    assert_eq!(lexer.next_token(), tok(TokenKind::FloatLit("2e-3".to_string()), 16, 20));
    assert_eq!(lexer.next_token(), tok(TokenKind::FloatLit("7E5".to_string()), 22, 25));
    assert_eq!(lexer.next_token(), eof());
}

#[test]
fn basic_malformed_floats() {
    let mut lexer = Lexer::new("1. x");
    assert_eq!(lexer.next_token(), Err(LexerError::MalformedFloat));
    assert_eq!(lexer.next_token(), tok(TokenKind::Ident("x".to_string()), 3, 4));

    let mut lexer = Lexer::new("1e-x");
    assert_eq!(lexer.next_token(), Err(LexerError::MalformedFloat));
    assert_eq!(lexer.next_token(), tok(TokenKind::Ident("x".to_string()), 3, 4));

    let mut lexer = Lexer::new("4e");
    assert_eq!(lexer.next_token(), Err(LexerError::MalformedFloat));
    assert_eq!(lexer.next_token(), eof());
}

#[test]
fn basic_dots() {
    let mut lexer = Lexer::new("... .. .");
    assert_eq!(lexer.next_token(), tok(TokenKind::TripleDot, 0, 3));
    assert_eq!(lexer.next_token(), Err(LexerError::IncompleteToken));
    assert_eq!(lexer.next_token(), tok(TokenKind::Dot, 7, 8));
    assert_eq!(lexer.next_token(), eof());
}

#[test]
fn basic_quote_is_an_empty_string() {
    let mut lexer = Lexer::new("\"ab\"");
    assert_eq!(lexer.next_token(), tok(TokenKind::StringLit(String::new()), 0, 1));
    assert_eq!(lexer.next_token(), tok(TokenKind::Ident("a".to_string()), 1, 2));
    assert_eq!(lexer.next_token(), tok(TokenKind::StringLit(String::new()), 3, 4));
    assert_eq!(lexer.next_token(), eof());
}

#[test]
fn basic_keywords_and_literals() {
    assert!(TokenKind::If.is_keyword());
    assert!(TokenKind::Let.is_keyword());
    assert!(TokenKind::Store.is_keyword());
    assert!(TokenKind::Drop.is_keyword());
    assert!(!TokenKind::Ident("if".to_string()).is_keyword());
    assert!(TokenKind::IntLit(3).is_literal());
    assert!(TokenKind::FloatLit("1.5".to_string()).is_literal());
    assert!(TokenKind::StringLit(String::new()).is_literal());
    assert!(!TokenKind::Plus.is_literal());
    assert!(!TokenKind::If.is_literal());
}

#[test]
fn basic_spans_are_byte_offsets() {
    let mut lexer = Lexer::new("\u{e9}");
    assert_eq!(lexer.next_token(), Err(LexerError::UnknownCharacter));
    let mut lexer = Lexer::new("\u{a0}+");
    assert_eq!(lexer.next_token(), Err(LexerError::UnknownCharacter));
    let mut lexer = Lexer::new("\t\r\n +");
    assert_eq!(lexer.next_token(), tok(TokenKind::Plus, 4, 5));
}
