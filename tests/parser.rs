use monkey::ast::{Node, Statement};
use monkey::lexer::Lexer;
use monkey::parser::Parser;
use monkey::repl::Repl;

fn check_parser_errors(parser: &Parser) {
    if parser.errors.is_empty() {
        return;
    }

    println!("parser has {} errors", parser.errors.len());
    for msg in &parser.errors {
        println!("parser error: {}", msg);
    }

    panic!("parser errors encountered");
}

#[test]
fn test_let_statement() {
    let input = r#"
            let x = 5;
            let y = 10;
            let foobar = 838383;
        "#;

    let lexer = Lexer::new(input);
    let mut parser = Parser::new(lexer);
    let program = parser.parse_program();
    check_parser_errors(&parser);

    assert_eq!(
        program.statements.len(),
        3,
        "program.statements does not contain 3 statements. got={}",
        program.statements.len()
    );

    let expected_identifiers = vec!["x", "y", "foobar"];

    for (i, expected_ident) in expected_identifiers.into_iter().enumerate() {
        let statement = &program.statements[i];

        assert_eq!(
            statement.token_literal(),
            "let",
            "statement.token_literal not 'let'. got={}",
            statement.token_literal()
        );

        let let_statement = match statement {
            Statement::Let(l) => l,
        };

        assert_eq!(
            let_statement.name.value, expected_ident,
            "let_statement.name.value not '{}'. got={}",
            expected_ident, let_statement.name.value
        );

        assert_eq!(
            let_statement.name.token_literal(),
            expected_ident,
            "let_statement.name.token_literal not '{}'. got={}",
            expected_ident,
            let_statement.name.token_literal()
        );
    }
}

#[test]
fn let_without_identifier_records_an_error() {
    let mut parser = Parser::new(Lexer::new("let = 5;"));
    let program = parser.parse_program();
    assert!(program.statements.is_empty());
    assert_eq!(
        parser.errors,
        vec!["expected next token to be Identifier(\"\"). got Assign".to_string()]
    );
}

#[test]
fn let_without_assign_records_an_error() {
    let mut parser = Parser::new(Lexer::new("let x 5; let y = 6;"));
    let program = parser.parse_program();
    assert_eq!(program.statements.len(), 1);
    assert_eq!(program.statements[0].token_literal(), "let");
    match &program.statements[0] {
        Statement::Let(l) => assert_eq!(l.name.value, "y"),
    }
    assert_eq!(
        parser.errors,
        vec!["expected next token to be Assign. got Int(5)".to_string()]
    );
}

#[test]
fn parser_holds_the_first_two_tokens() {
    let parser = Parser::new(Lexer::new("let \"q\""));
    assert_eq!(parser.current_token, monkey::token::Token::Let);
    assert_eq!(
        parser.peek_token,
        monkey::token::Token::String("q".to_string())
    );
    assert!(parser.errors.is_empty());
}

#[test]
fn program_literal_is_first_statement() {
    let mut parser = Parser::new(Lexer::new("let a = 1; let b = 2"));
    let program = parser.parse_program();
    assert_eq!(program.statements.len(), 2);
    assert_eq!(program.token_literal(), "let");
    let mut empty = Parser::new(Lexer::new(""));
    assert_eq!(empty.parse_program().token_literal(), "");
    let _ = Repl::new();
}
