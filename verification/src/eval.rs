use vstd::prelude::*;
use crate::parser::Node;
use crate::token::{EvalError, Token};

verus! {

/// Result of applying one infix operator to two evaluated operands.
/// Arithmetic is `i64` arithmetic: a result outside the range is an overflow
/// error, division by zero an arithmetic error, and division truncates toward
/// zero (so only `i64::MIN / -1` can overflow). Comparisons and equalities
/// yield `1` for true and `0` for false. A token that is not one of the eight
/// operators cannot head an infix node and is a syntax error.
pub open spec fn spec_apply(op: Token, a: i64, b: i64) -> Result<i64, EvalError> {
    match op {
        Token::Plus => match a.checked_add(b) {
            Some(v) => Ok(v),
            None => Err(EvalError::OverflowError),
        },
        Token::Minus => match a.checked_sub(b) {
            Some(v) => Ok(v),
            None => Err(EvalError::OverflowError),
        },
        Token::Asterisk => match a.checked_mul(b) {
            Some(v) => Ok(v),
            None => Err(EvalError::OverflowError),
        },
        Token::Slash => if b == 0 {
            Err(EvalError::ArithmeticError)
        } else {
            match a.checked_div(b) {
                Some(v) => Ok(v),
                None => Err(EvalError::OverflowError),
            }
        },
        Token::LT => Ok(
            if a < b {
                1
            } else {
                0
            },
        ),
        Token::GT => Ok(
            if a > b {
                1
            } else {
                0
            },
        ),
        Token::Eq => Ok(
            if a == b {
                1
            } else {
                0
            },
        ),
        Token::NotEq => Ok(
            if a != b {
                1
            } else {
                0
            },
        ),
        _ => Err(EvalError::SyntaxError(op)),
    }
}

/// Value of a finished syntax tree: a leaf literal is its stored value (an
/// overflow error if it does not fit in `i64`), an infix node evaluates its
/// left child, then its right child, then applies its operator; the first
/// failure wins. A leaf wrapping anything but an integer literal is
/// structurally invalid and fails fast as a syntax error.
pub open spec fn spec_eval_node(n: Node) -> Result<i64, EvalError>
    decreases n,
{
    match n {
        Node::TokenNode(t) => match t {
            Token::Int(v) => if v <= i64::MAX {
                Ok(v as i64)
            } else {
                Err(EvalError::OverflowError)
            },
            _ => Err(EvalError::SyntaxError(t)),
        },
        Node::InfixNode { value, left, right } => match spec_eval_node(*left) {
            Err(e) => Err(e),
            Ok(a) => match spec_eval_node(*right) {
                Err(e) => Err(e),
                Ok(b) => spec_apply(value, a, b),
            },
        },
    }
}

/// Apply one infix operator to two evaluated operands.
pub fn apply_infix(op: Token, a: i64, b: i64) -> (r: Result<i64, EvalError>)
    ensures
        r == spec_apply(op, a, b),
{
    match op {
        Token::Plus => match a.checked_add(b) {
            Some(v) => Ok(v),
            None => Err(EvalError::OverflowError),
        },
        Token::Minus => match a.checked_sub(b) {
            Some(v) => Ok(v),
            None => Err(EvalError::OverflowError),
        },
        Token::Asterisk => match a.checked_mul(b) {
            Some(v) => Ok(v),
            None => Err(EvalError::OverflowError),
        },
        Token::Slash => if b == 0 {
            Err(EvalError::ArithmeticError)
        } else {
            match a.checked_div(b) {
                Some(v) => Ok(v),
                None => Err(EvalError::OverflowError),
            }
        },
        Token::LT => Ok(
            if a < b {
                1
            } else {
                0
            },
        ),
        Token::GT => Ok(
            if a > b {
                1
            } else {
                0
            },
        ),
        Token::Eq => Ok(
            if a == b {
                1
            } else {
                0
            },
        ),
        Token::NotEq => Ok(
            if a != b {
                1
            } else {
                0
            },
        ),
        _ => Err(EvalError::SyntaxError(op)),
    }
}

/// Walk a finished syntax tree and reduce it to a single integer, or fail
/// with the first error its evaluation meets.
pub fn eval_node(n: &Node) -> (r: Result<i64, EvalError>)
    ensures
        r == spec_eval_node(*n),
    decreases *n,
{
    match n {
        Node::TokenNode(t) => match t {
            Token::Int(v) => if (*v as u64) <= (i64::MAX as u64) {
                Ok(*v as i64)
            } else {
                Err(EvalError::OverflowError)
            },
            _ => Err(EvalError::SyntaxError(*t)),
        },
        Node::InfixNode { value, left, right } => {
            let a = match eval_node(left) {
                Ok(a) => a,
                Err(e) => {
                    return Err(e);
                },
            };
            let b = match eval_node(right) {
                Ok(b) => b,
                Err(e) => {
                    return Err(e);
                },
            };
            apply_infix(*value, a, b)
        },
    }
}

} // verus!
