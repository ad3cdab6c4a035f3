use expr_parser::evaluate;
use expr_parser::token::{EvalError, Token};

#[test]
fn subtraction_is_left_associative() {
    assert_eq!(evaluate("10 - 3 - 2"), Ok(5));
    assert_ne!(evaluate("10 - 3 - 2"), Ok(9));
}

#[test]
fn multiplication_binds_tighter_than_addition() {
    assert_eq!(evaluate("2 + 3 * 4"), Ok(14));
    assert_eq!(evaluate("(2 + 3) * 4"), Ok(20));
}

#[test]
fn comparisons_and_equalities_yield_one_or_zero() {
    assert_eq!(evaluate("5 == 5"), Ok(1));
    assert_eq!(evaluate("5 != 5"), Ok(0));
    assert_eq!(evaluate("1 < 2"), Ok(1));
    assert_eq!(evaluate("2 < 1"), Ok(0));
    assert_eq!(evaluate("5 > 2"), Ok(1));
    assert_eq!(evaluate("2 > 5"), Ok(0));
    assert_eq!(evaluate("5 * 5 - 2 == 23"), Ok(1));
    assert_eq!(evaluate("5 * 12332 - 2 != 22"), Ok(1));
}

#[test]
fn division_by_zero_is_an_arithmetic_error() {
    assert_eq!(evaluate("5 / 0"), Err(EvalError::ArithmeticError));
}

#[test]
fn unmatched_parenthesis_is_a_syntax_error() {
    assert_eq!(evaluate("(5 + 3"), Err(EvalError::SyntaxError(Token::EOF)));
}

#[test]
fn unknown_character_is_a_lexical_error() {
    assert_eq!(evaluate("5 @ 3"), Err(EvalError::LexicalError));
    assert_eq!(evaluate("="), Err(EvalError::LexicalError));
    assert_eq!(evaluate("!"), Err(EvalError::LexicalError));
}

#[test]
fn empty_or_operator_only_input_is_a_syntax_error() {
    assert_eq!(evaluate(""), Err(EvalError::SyntaxError(Token::EOF)));
    assert_eq!(evaluate("   "), Err(EvalError::SyntaxError(Token::EOF)));
    assert_eq!(evaluate("+"), Err(EvalError::SyntaxError(Token::Plus)));
    assert_eq!(evaluate("!="), Err(EvalError::SyntaxError(Token::NotEq)));
    assert_eq!(evaluate(")"), Err(EvalError::SyntaxError(Token::RParen)));
    assert_eq!(evaluate("- 5"), Err(EvalError::SyntaxError(Token::Minus)));
}

#[test]
fn trailing_tokens_are_a_syntax_error() {
    assert_eq!(evaluate("5 5"), Err(EvalError::SyntaxError(Token::Int(5))));
    assert_eq!(evaluate("(1) 2"), Err(EvalError::SyntaxError(Token::Int(2))));
}

#[test]
fn oversized_literal_is_an_overflow_error() {
    // more digits than any usize literal can hold
    assert_eq!(
        evaluate("99999999999999999999999"),
        Err(EvalError::OverflowError)
    );
    // fits in usize but not in the evaluator's i64 range
    assert_eq!(evaluate("9223372036854775808"), Err(EvalError::OverflowError));
    assert_eq!(evaluate("9223372036854775807"), Ok(i64::MAX));
}

#[test]
fn arithmetic_overflow_is_an_overflow_error() {
    assert_eq!(
        evaluate("9223372036854775807 + 1"),
        Err(EvalError::OverflowError)
    );
    assert_eq!(
        evaluate("9223372036854775807 * 2"),
        Err(EvalError::OverflowError)
    );
}

#[test]
fn subtraction_can_go_negative_and_division_truncates_toward_zero() {
    assert_eq!(evaluate("3 - 10"), Ok(-7));
    assert_eq!(evaluate("7 / 2"), Ok(3));
    assert_eq!(evaluate("(3 - 10) / 2"), Ok(-3));
}

#[test]
fn whitespace_does_not_change_the_value() {
    assert_eq!(evaluate("3+9/4"), evaluate("3 + 9 / 4"));
    assert_eq!(evaluate("3+9/4"), Ok(5));
}

#[test]
fn nested_grouping_evaluates_inside_out() {
    assert_eq!(evaluate("((12 * 3242) + 5)"), Ok(38909));
    assert_eq!(evaluate("(86915 / 2)"), Ok(43457));
}
