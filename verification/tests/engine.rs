use hulk_compiler::lexer::token::{Token, TokenType};
use hulk_compiler::parser::ast::ExprKind;
use hulk_compiler::parser::engine::ParserDriver;
use hulk_compiler::parser::engine::error::ParseErrorKind;
use hulk_compiler::parser::grammar::symbol::Terminal;

fn tok(tt: TokenType, lexeme: &str) -> Token {
    Token::new(tt, lexeme.to_string(), 1, 1, false)
}

#[test]
fn driver_builds_without_panic() {
    let driver = ParserDriver::new();
    assert!(driver.num_states() > 0);
}

#[test]
fn parse_literal_program() {
    let driver = ParserDriver::new();
    let tokens = vec![tok(TokenType::NUMBER, "42"), tok(TokenType::SEMICOLON, ";"), tok(TokenType::EOF, "")];
    let result = driver.parse(tokens);
    assert!(result.is_ok(), "42; should parse: {:?}", result.as_ref().err().map(|e| e.display()));
    let program = result.unwrap();
    assert!(program.declarations.is_empty());
}

#[test]
fn parse_call_program() {
    let driver = ParserDriver::new();
    let tokens = vec![
        tok(TokenType::IDENTIFIER, "print"),
        tok(TokenType::LPAREN, "("),
        tok(TokenType::NUMBER, "42"),
        tok(TokenType::RPAREN, ")"),
        tok(TokenType::SEMICOLON, ";"),
        tok(TokenType::EOF, ""),
    ];
    let result = driver.parse(tokens);
    assert!(result.is_ok(), "print(42); should parse: {:?}", result.as_ref().err().map(|e| e.display()));
    assert!(matches!(result.unwrap().entry.kind, ExprKind::Call(_)));
}

#[test]
fn parse_error_on_empty_input() {
    let driver = ParserDriver::new();
    let result = driver.parse(vec![tok(TokenType::EOF, "")]);
    assert!(result.is_err(), "empty input must be an error");
}

#[test]
fn hulk_table_records_its_known_conflict() {
    // The generator form `[e | x in xs]` makes the grammar not LALR(1) at `|`;
    // the table resolves it and keeps the record.
    let driver = ParserDriver::new();
    assert!(driver.has_conflicts());
    assert!(driver.num_states() > 0);
}

#[test]
fn string_literal_keeps_its_quotes() {
    let driver = ParserDriver::new();
    let tokens = vec![
        tok(TokenType::STRING, "\"hello world\""),
        tok(TokenType::SEMICOLON, ";"),
        tok(TokenType::EOF, ""),
    ];
    let program = driver.parse(tokens).unwrap();
    match program.entry.kind {
        ExprKind::Literal(hulk_compiler::parser::ast::Literal::String { value, .. }) => {
            assert_eq!(value, "\"hello world\"");
        }
        _ => panic!("a string literal was expected"),
    }
}

#[test]
fn refused_token_reports_itself_and_what_the_state_accepts() {
    let driver = ParserDriver::new();
    let tokens = vec![
        tok(TokenType::NUMBER, "1"),
        tok(TokenType::NUMBER, "2"),
        tok(TokenType::SEMICOLON, ";"),
        tok(TokenType::EOF, ""),
    ];
    let err = driver.parse(tokens).expect_err("two numbers in a row must be refused");
    assert!(err.context.is_none());
    match err.kind {
        ParseErrorKind::UnexpectedToken { found, lexeme, expected } => {
            assert_eq!(found, Terminal::Number);
            assert_eq!(lexeme, "2");
            assert!(!expected.is_empty());
            assert!(!expected.contains(&Terminal::Number));
            assert!(expected.contains(&Terminal::Semicolon));
        }
        other => panic!("expected an unexpected token, got {:?}", other),
    }
}

#[test]
fn refused_end_of_input_lists_what_would_start_a_program() {
    let driver = ParserDriver::new();
    let err = driver.parse(vec![tok(TokenType::EOF, "")]).expect_err("empty input is refused");
    match err.kind {
        ParseErrorKind::UnexpectedEof { expected } => {
            assert!(expected.contains(&Terminal::Number));
            assert!(!expected.contains(&Terminal::Eof));
        }
        other => panic!("expected an unexpected end of input, got {:?}", other),
    }
}
