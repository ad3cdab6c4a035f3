use vstd::prelude::*;

verus! {

/// One lexical unit of an arithmetic expression.
///
/// Tokens are immutable and copied by value; a token has no identity beyond
/// its tag and, for `Int`, its value. `EOF` is the sentinel that the scanner
/// keeps returning once the input is exhausted, and `Illegal` stands for a
/// character (or a lone `=` or `!`) that no token matches, as well as for an
/// integer literal too large for `usize`.
#[derive(Copy, Clone, Debug, PartialEq, Eq, Structural)]
pub enum Token {
    Illegal,
    EOF,
    Int(usize),
    Plus,
    Minus,
    Bang,
    Asterisk,
    Slash,
    LT,
    GT,
    Eq,
    NotEq,
    LParen,
    RParen,
}

/// Why evaluating one input line failed. Every failure is terminal for that
/// line; no error is swallowed.
#[derive(Copy, Clone, Debug, PartialEq, Eq, Structural)]
pub enum EvalError {
    /// The scanner produced an `Illegal` token in a position that required a
    /// valid one: an unrecognized character, or a malformed two-character
    /// operator attempt.
    LexicalError,
    /// The carried token appeared where the grammar forbids it (missing
    /// operand, unmatched parenthesis, or trailing input; `EOF` marks a
    /// premature end of input).
    SyntaxError(Token),
    /// Division by zero.
    ArithmeticError,
    /// An integer literal or an intermediate result exceeds the representable
    /// range.
    OverflowError,
}

} // verus!
