use monkey::error::LexerError;
use monkey::lexer::{tokenize, Lexer};
use monkey::token::{Token, TokenKind};

fn scan_all(input: &str) -> Vec<Result<Token, LexerError>> {
    let mut lexer = Lexer::new(input);
    let mut out = Vec::new();
    while let Some(item) = lexer.next() {
        out.push(item);
    }
    out
}

fn ident(s: &str) -> Token {
    Token::Identifier(s.to_string())
}

#[test]
fn test_next_token() {
    let input = r#"
    let five = 5;
    let ten = 10;

    let add = fn(x,y) {
      x + y;
    };

    let result = add(five,ten);
    !-/*5;
    5 < 10 > 5;

    if (5 < 10) {
        return true;
    } else {
        return false;
    }

    10 == 10;
    10 != 9;
    "#;

    let mut lexer = Lexer::new(input);

    let expected_tokens = vec![
        // let five = 5;
        Token::Let,
        ident("five"),
        Token::Assign,
        Token::Int(5),
        Token::Semicolon,
        // let ten = 10;
        Token::Let,
        ident("ten"),
        Token::Assign,
        Token::Int(10),
        Token::Semicolon,
        // let add = fn(x,y) {
        Token::Let,
        ident("add"),
        Token::Assign,
        Token::Function,
        Token::LeftParen,
        ident("x"),
        Token::Comma,
        ident("y"),
        Token::RightParen,
        Token::LeftBrace,
        // x + y;
        ident("x"),
        Token::Plus,
        ident("y"),
        Token::Semicolon,
        // };
        Token::RightBrace,
        Token::Semicolon,
        // let result = add(five,ten);
        Token::Let,
        ident("result"),
        Token::Assign,
        ident("add"),
        Token::LeftParen,
        ident("five"),
        Token::Comma,
        ident("ten"),
        Token::RightParen,
        Token::Semicolon,
        // !-/*5;
        Token::Bang,
        Token::Minus,
        Token::Slash,
        Token::Asterisk,
        Token::Int(5),
        Token::Semicolon,
        // 5 < 10 > 5;
        Token::Int(5),
        Token::LessThan,
        Token::Int(10),
        Token::GreaterThan,
        Token::Int(5),
        Token::Semicolon,
        // if (5 < 10) {
        Token::If,
        Token::LeftParen,
        Token::Int(5),
        Token::LessThan,
        Token::Int(10),
        Token::RightParen,
        Token::LeftBrace,
        // return true;
        Token::Return,
        Token::True,
        Token::Semicolon,
        // } else {
        Token::RightBrace,
        Token::Else,
        Token::LeftBrace,
        // return false;
        Token::Return,
        Token::False,
        Token::Semicolon,
        // }
        Token::RightBrace,
        // 10 == 10;
        Token::Int(10),
        Token::Equal,
        Token::Int(10),
        Token::Semicolon,
        // 10 != 9;
        Token::Int(10),
        Token::NotEqual,
        Token::Int(9),
        Token::Semicolon,
        Token::Eof,
    ];

    for expected in expected_tokens.into_iter() {
        let result = lexer.next_token();
        assert_eq!(result, expected);
    }
}

#[test]
fn eof_repeats_after_end() {
    let mut lexer = Lexer::new("x");
    assert_eq!(lexer.next_token(), ident("x"));
    assert_eq!(lexer.next_token(), Token::Eof);
    assert_eq!(lexer.next_token(), Token::Eof);
    assert!(lexer.next().is_none());
}

#[test]
fn next_token_reports_errors_as_illegal() {
    let mut lexer = Lexer::new("@ 99999999999999999999 \"ab");
    assert_eq!(lexer.next_token(), Token::Illegal);
    assert_eq!(lexer.next_token(), Token::Illegal);
    assert_eq!(lexer.next_token(), Token::Illegal);
    assert_eq!(lexer.next_token(), Token::Eof);
}

#[test]
fn single_symbols_map_one_to_one() {
    let out = scan_all(",;(){}+-*/");
    let expected = vec![
        Token::Comma,
        Token::Semicolon,
        Token::LeftParen,
        Token::RightParen,
        Token::LeftBrace,
        Token::RightBrace,
        Token::Plus,
        Token::Minus,
        Token::Asterisk,
        Token::Slash,
    ];
    assert_eq!(out.len(), expected.len());
    for (got, want) in out.into_iter().zip(expected) {
        assert_eq!(got, Ok(want));
    }
}

#[test]
fn empty_and_whitespace_only_inputs_have_no_tokens() {
    assert!(scan_all("").is_empty());
    assert!(scan_all(" \t\r\n  ").is_empty());
}

#[test]
fn whitespace_does_not_change_tokens() {
    let tight = scan_all("let x=10+5;");
    let loose = scan_all("  let \t x \n=\r\n 10   +  5 ;  ");
    assert_eq!(tight, loose);
    assert_eq!(scan_all("a b"), vec![Ok(ident("a")), Ok(ident("b"))]);
    assert_eq!(scan_all("ab"), vec![Ok(ident("ab"))]);
    assert_eq!(scan_all("= ="), vec![Ok(Token::Assign), Ok(Token::Assign)]);
}

#[test]
fn composite_operators() {
    assert_eq!(scan_all("=="), vec![Ok(Token::Equal)]);
    assert_eq!(scan_all("!="), vec![Ok(Token::NotEqual)]);
    assert_eq!(scan_all(">="), vec![Ok(Token::GreaterThanEqual)]);
    assert_eq!(scan_all("<="), vec![Ok(Token::LessThanEqual)]);
    assert_eq!(scan_all("="), vec![Ok(Token::Assign)]);
    assert_eq!(scan_all("!"), vec![Ok(Token::Bang)]);
    assert_eq!(scan_all(">"), vec![Ok(Token::GreaterThan)]);
    assert_eq!(scan_all("<"), vec![Ok(Token::LessThan)]);
    assert_eq!(scan_all("=a"), vec![Ok(Token::Assign), Ok(ident("a"))]);
    assert_eq!(scan_all("==="), vec![Ok(Token::Equal), Ok(Token::Assign)]);
}

#[test]
fn render_then_rescan_keeps_the_tag() {
    let plain = vec![
        Token::Assign,
        Token::Plus,
        Token::Minus,
        Token::Bang,
        Token::Asterisk,
        Token::Slash,
        Token::LessThan,
        Token::GreaterThan,
        Token::Equal,
        Token::NotEqual,
        Token::LessThanEqual,
        Token::GreaterThanEqual,
        Token::Comma,
        Token::Semicolon,
        Token::LeftParen,
        Token::RightParen,
        Token::LeftBrace,
        Token::RightBrace,
        Token::Function,
        Token::Let,
        Token::If,
        Token::Else,
        Token::True,
        Token::False,
        Token::Return,
    ];
    for t in plain {
        let text = t.render();
        assert_eq!(scan_all(&text), vec![Ok(t)]);
    }
    assert_eq!(Token::If.render(), "if");
    assert_eq!(Token::Equal.render(), "==");
}

#[test]
fn render_literals_by_value() {
    assert_eq!(Token::Int(0).render(), "0");
    assert_eq!(Token::Int(-42).render(), "-42");
    assert_eq!(Token::Int(i64::MAX).render(), "9223372036854775807");
    assert_eq!(Token::Int(i64::MIN).render(), "-9223372036854775808");
    assert_eq!(ident("foo").render(), "foo");
    assert_eq!(Token::String("a b".to_string()).render(), "a b");
    assert_eq!(Token::Eof.render(), "EOF");
    assert_eq!(Token::Illegal.render(), "ILLEGAL");
}

#[test]
fn keywords_and_identifiers() {
    assert_eq!(scan_all("let"), vec![Ok(Token::Let)]);
    assert_eq!(scan_all("fn"), vec![Ok(Token::Function)]);
    assert_eq!(scan_all("true"), vec![Ok(Token::True)]);
    assert_eq!(scan_all("false"), vec![Ok(Token::False)]);
    assert_eq!(scan_all("if"), vec![Ok(Token::If)]);
    assert_eq!(scan_all("else"), vec![Ok(Token::Else)]);
    assert_eq!(scan_all("return"), vec![Ok(Token::Return)]);
    assert_eq!(scan_all("letx"), vec![Ok(ident("letx"))]);
    assert_eq!(scan_all("_let"), vec![Ok(ident("_let"))]);
}

#[test]
fn lookup_identifier_classifies_words() {
    assert_eq!(Token::lookup_identifier("return"), Token::Return);
    assert_eq!(Token::lookup_identifier("fn"), Token::Function);
    assert_eq!(Token::lookup_identifier("returns"), ident("returns"));
    assert_eq!(Token::lookup_identifier("Let"), ident("Let"));
    assert_eq!(Token::lookup_identifier(""), ident(""));
}

#[test]
fn identifiers_stop_at_digits() {
    assert_eq!(scan_all("x1"), vec![Ok(ident("x")), Ok(Token::Int(1))]);
}

#[test]
fn integer_boundary() {
    assert_eq!(scan_all("9223372036854775807"), vec![Ok(Token::Int(i64::MAX))]);
    assert_eq!(
        scan_all("99999999999999999999"),
        vec![Err(LexerError::InvalidNumber(
            "99999999999999999999".to_string(),
            (0, 20)
        ))]
    );
    assert_eq!(
        scan_all("9223372036854775808"),
        vec![Err(LexerError::InvalidNumber(
            "9223372036854775808".to_string(),
            (0, 19)
        ))]
    );
    assert_eq!(scan_all("007"), vec![Ok(Token::Int(7))]);
}

#[test]
fn invalid_number_span_is_in_bytes_and_scanning_goes_on() {
    assert_eq!(
        scan_all("é 99999999999999999999;"),
        vec![
            Err(LexerError::UnexpectedCharacter('é', 0)),
            Err(LexerError::InvalidNumber(
                "99999999999999999999".to_string(),
                (3, 23)
            )),
            Ok(Token::Semicolon),
        ]
    );
}

#[test]
fn unterminated_string() {
    assert_eq!(
        scan_all("\"abc"),
        vec![Err(LexerError::UnterminatedString(4))]
    );
    assert_eq!(scan_all("\""), vec![Err(LexerError::UnterminatedString(1))]);
}

#[test]
fn string_literal_and_trailing_tokens() {
    assert_eq!(
        scan_all("\"abc\""),
        vec![Ok(Token::String("abc".to_string()))]
    );
    assert_eq!(
        scan_all("\"a b\";x"),
        vec![
            Ok(Token::String("a b".to_string())),
            Ok(Token::Semicolon),
            Ok(ident("x")),
        ]
    );
    assert_eq!(scan_all("\"\""), vec![Ok(Token::String(String::new()))]);
}

#[test]
fn unexpected_character_reports_offset_and_continues() {
    assert_eq!(
        scan_all("a @ b#"),
        vec![
            Ok(ident("a")),
            Err(LexerError::UnexpectedCharacter('@', 2)),
            Ok(ident("b")),
            Err(LexerError::UnexpectedCharacter('#', 5)),
        ]
    );
    assert_eq!(
        scan_all("\"é\"€"),
        vec![
            Ok(Token::String("é".to_string())),
            Err(LexerError::UnexpectedCharacter('€', 4)),
        ]
    );
}

#[test]
fn end_to_end_let_statement() {
    assert_eq!(
        scan_all("let x = 10 + 5;"),
        vec![
            Ok(Token::Let),
            Ok(ident("x")),
            Ok(Token::Assign),
            Ok(Token::Int(10)),
            Ok(Token::Plus),
            Ok(Token::Int(5)),
            Ok(Token::Semicolon),
        ]
    );
    let mut lexer = Lexer::new("let x = 10 + 5;");
    for _ in 0..7 {
        assert!(lexer.next().is_some());
    }
    assert!(lexer.next().is_none());
}

#[test]
fn tokenize_stops_at_first_error() {
    assert_eq!(
        tokenize("x = 1;"),
        Ok(vec![ident("x"), Token::Assign, Token::Int(1), Token::Semicolon])
    );
    assert_eq!(
        tokenize("x @ #"),
        Err(LexerError::UnexpectedCharacter('@', 2))
    );
    assert_eq!(tokenize(""), Ok(vec![]));
}

#[test]
fn kind_names() {
    assert_eq!(Token::Identifier("q".to_string()).kind(), TokenKind::Identifier);
    assert_eq!(TokenKind::Identifier.name(), "Identifier");
    assert_eq!(TokenKind::Assign.name(), "Assign");
    assert_eq!(TokenKind::LeftParen.name(), "LeftParen");
}

#[test]
fn debug_text_matches_debug() {
    let samples = vec![
        Token::Assign,
        Token::LeftParen,
        Token::Eof,
        Token::Int(-7),
        Token::Int(i64::MIN),
        ident(""),
        ident("foo"),
        Token::String("a\"b\\c\n\té".to_string()),
    ];
    for t in samples {
        assert_eq!(t.debug_text(), format!("{:?}", t));
    }
    assert_eq!(ident("").debug_text(), "Identifier(\"\")");
    assert_eq!(Token::Int(5).debug_text(), "Int(5)");
}

#[test]
fn whitespace_between_texts_shifts_error_offsets() {
    let a = scan_all("x@");
    let b = scan_all("#y");
    assert_eq!(
        b,
        vec![Err(LexerError::UnexpectedCharacter('#', 0)), Ok(ident("y"))]
    );
    let joined = scan_all("x@  #y");
    let mut expected = a;
    expected.push(Err(LexerError::UnexpectedCharacter('#', 4)));
    expected.push(Ok(ident("y")));
    assert_eq!(joined, expected);
}
