//! A verified core for a line-oriented arithmetic calculator: a scanner that
//! turns a line of text into tokens, a precedence-climbing parser that builds
//! a syntax tree from them, and an evaluator that reduces the tree to a single
//! signed integer or reports why it cannot.

use vstd::prelude::*;

pub mod eval;
pub mod laws;
pub mod lexer;
pub mod parser;
pub mod token;

use crate::eval::{eval_node, spec_eval_node};
use crate::lexer::{spec_overflows, spec_tokens, Lexer};
use crate::parser::{spec_parse_expr, unexpected_error, Parser, Precedence};
use crate::token::EvalError;

verus! {

/// The value of one line of input, as the whole pipeline defines it: scan the
/// line into tokens, parse them as a complete expression at the lowest
/// precedence, reject any trailing token, and evaluate the resulting tree.
pub open spec fn spec_evaluate(s: Seq<char>) -> Result<i64, EvalError> {
    let toks = spec_tokens(s);
    let ovf = spec_overflows(s);
    match spec_parse_expr(toks, ovf, 0, Precedence::Lowest) {
        Err(e) => Err(e),
        Ok((n, j)) => if j < toks.len() {
            Err(unexpected_error(toks, ovf, j))
        } else {
            spec_eval_node(n)
        },
    }
}

/// Evaluate one line of input: the single entry point the surrounding driver
/// calls per line. A pure function of the text; every failure of the scanner,
/// the parser or the evaluator is reported, never swallowed.
pub fn evaluate(input: &str) -> (r: Result<i64, EvalError>)
    ensures
        r == spec_evaluate(input@),
{
    let lexer = Lexer::new(input);
    let mut parser = Parser::new(lexer);
    let node = match parser.parse_expression(&Precedence::Lowest) {
        Ok(n) => n,
        Err(e) => {
            return Err(e);
        },
    };
    match parser.expect_end() {
        Ok(u) => u,
        Err(e) => {
            return Err(e);
        },
    };
    eval_node(&node)
}

} // verus!
