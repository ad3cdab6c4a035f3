use expr_parser::eval::eval_node;
use expr_parser::lexer::Lexer;
use expr_parser::parser::{Parser, Precedence};

#[test]
fn mod_it_correctly_parses_tokens_simple() {
    let mut parser = Parser::new(Lexer::new("5 * 5"));

    let expr = parser.parse_expression(&Precedence::Lowest).unwrap();

    assert_eq!(eval_node(&expr), Ok(25));
}

#[test]
fn parser_reports_the_unmatched_parenthesis() {
    let mut parser = Parser::new(Lexer::new("(5 + 3"));
    let result = parser.parse_expression(&Precedence::Lowest);
    assert!(result.is_err());
}

#[test]
fn expect_end_rejects_trailing_tokens() {
    let mut parser = Parser::new(Lexer::new("5 5"));
    let expr = parser.parse_expression(&Precedence::Lowest);
    assert!(expr.is_ok());
    assert!(parser.expect_end().is_err());

    let mut done = Parser::new(Lexer::new("5 + 5"));
    let expr = done.parse_expression(&Precedence::Lowest);
    assert!(expr.is_ok());
    assert!(done.expect_end().is_ok());
}
