use vstd::prelude::*;
use crate::lexer::{spec_overflows, spec_tokens, Lexer};
use crate::token::{EvalError, Token};

verus! {

/// Binding strength of an infix operator, strictly ordered
/// `Lowest < Comparison < Sum < Product`. Used only for numeric-strength
/// comparison while parsing.
#[derive(Copy, Clone, Debug, PartialEq, Eq, Structural)]
pub enum Precedence {
    Lowest,
    Comparison,
    Sum,
    Product,
}

/// Numeric strength of a precedence level.
pub open spec fn prec_rank(p: Precedence) -> nat {
    match p {
        Precedence::Lowest => 0,
        Precedence::Comparison => 1,
        Precedence::Sum => 2,
        Precedence::Product => 3,
    }
}

/// The fixed precedence table: `+ -` bind at `Sum`, `* /` at `Product`, the
/// comparisons and equalities at `Comparison`; every other token (including
/// `EOF` and `)`) sits at `Lowest` and therefore stops the parsing loop.
pub open spec fn spec_token_precedence(t: Token) -> Precedence {
    match t {
        Token::LT | Token::GT | Token::Eq | Token::NotEq => Precedence::Comparison,
        Token::Plus | Token::Minus => Precedence::Sum,
        Token::Slash | Token::Asterisk => Precedence::Product,
        _ => Precedence::Lowest,
    }
}

/// A node of the expression syntax tree: either a leaf wrapping a literal
/// token, or an infix node owning an operator token and its two operands
/// outright. Built bottom-up, never mutated after construction.
pub enum Node {
    TokenNode(Token),
    InfixNode { value: Token, left: Box<Node>, right: Box<Node> },
}

/// The token at position `i` of a finite stream, `EOF` past its end.
pub open spec fn tok_at(toks: Seq<Token>, i: int) -> Token {
    if 0 <= i < toks.len() {
        toks[i]
    } else {
        Token::EOF
    }
}

/// The error an `Illegal` token at position `i` turns into: overflow of a
/// literal where the scanner flagged one, otherwise a lexical error.
pub open spec fn illegal_error(ovf: Seq<bool>, i: int) -> EvalError {
    if 0 <= i < ovf.len() && ovf[i] {
        EvalError::OverflowError
    } else {
        EvalError::LexicalError
    }
}

/// The error for a token that appears where the grammar needs something
/// else: `Illegal` becomes a lexical (or overflow) error the moment it is
/// met, anything else a syntax error carrying the offending token.
pub open spec fn unexpected_error(toks: Seq<Token>, ovf: Seq<bool>, i: int) -> EvalError {
    if tok_at(toks, i) == Token::Illegal {
        illegal_error(ovf, i)
    } else {
        EvalError::SyntaxError(tok_at(toks, i))
    }
}

/// Tokens left from position `i` on; clipped so it can serve as a
/// termination measure for any `i`.
pub open spec fn remaining(toks: Seq<Token>, i: int) -> int {
    if i <= toks.len() {
        toks.len() - i
    } else {
        0
    }
}

/// One primary unit at position `i`: an integer literal becomes a leaf, a
/// left parenthesis a full sub-expression at `Lowest` that must be closed by
/// `)`, and any other token is an error. Returns the node and the position
/// one past what was consumed.
pub open spec fn spec_parse_primary(toks: Seq<Token>, ovf: Seq<bool>, i: int) -> Result<
    (Node, int),
    EvalError,
>
    decreases remaining(toks, i), 0int,
{
    match tok_at(toks, i) {
        Token::Int(v) => Ok((Node::TokenNode(Token::Int(v)), i + 1)),
        Token::LParen => match spec_parse_expr(toks, ovf, i + 1, Precedence::Lowest) {
            Err(e) => Err(e),
            Ok((n, j)) => if tok_at(toks, j) == Token::RParen {
                Ok((n, j + 1))
            } else {
                Err(unexpected_error(toks, ovf, j))
            },
        },
        _ => Err(unexpected_error(toks, ovf, i)),
    }
}

/// Precedence climbing from position `i`: parse a primary, then fold infix
/// operators onto it while their precedence is strictly above `min_prec`.
pub open spec fn spec_parse_expr(
    toks: Seq<Token>,
    ovf: Seq<bool>,
    i: int,
    min_prec: Precedence,
) -> Result<(Node, int), EvalError>
    decreases remaining(toks, i), 1int,
{
    match spec_parse_primary(toks, ovf, i) {
        Err(e) => Err(e),
        Ok((left, j)) => if i < j <= toks.len() {
            spec_parse_loop(toks, ovf, j, min_prec, left)
        } else {
            // parsing a primary always advances, so this branch is never taken
            Err(EvalError::SyntaxError(Token::EOF))
        },
    }
}

/// The climbing loop: while the token at `j` binds strictly tighter than
/// `min_prec`, consume it, parse its right operand at its own precedence
/// (which makes equal-precedence operators group to the left), and fold the
/// pieces into a new infix node.
pub open spec fn spec_parse_loop(
    toks: Seq<Token>,
    ovf: Seq<bool>,
    j: int,
    min_prec: Precedence,
    left: Node,
) -> Result<(Node, int), EvalError>
    decreases remaining(toks, j), 2int,
{
    let op = tok_at(toks, j);
    if prec_rank(spec_token_precedence(op)) > prec_rank(min_prec) {
        match spec_parse_expr(toks, ovf, j + 1, spec_token_precedence(op)) {
            Err(e) => Err(e),
            Ok((right, k)) => if j + 1 < k <= toks.len() {
                spec_parse_loop(
                    toks,
                    ovf,
                    k,
                    min_prec,
                    Node::InfixNode { value: op, left: Box::new(left), right: Box::new(right) },
                )
            } else {
                // parsing the right operand always advances past the operator
                Err(EvalError::SyntaxError(Token::EOF))
            },
        }
    } else {
        Ok((left, j))
    }
}

/// The expression parser. It drains the scanner once when constructed and
/// then walks the finished token stream with a single position; alongside
/// each token it remembers whether the scanner flagged it as an overflowed
/// literal, so the right error kind can be reported.
pub struct Parser {
    tokens: Vec<Token>,
    overflows: Vec<bool>,
    index: usize,
}

impl Parser {
    /// The token stream being parsed.
    pub closed spec fn toks(&self) -> Seq<Token> {
        self.tokens@
    }

    /// For each token, whether it is an integer literal that overflowed.
    pub closed spec fn ovfs(&self) -> Seq<bool> {
        self.overflows@
    }

    /// Position of the next unconsumed token.
    pub closed spec fn pos(&self) -> int {
        self.index as int
    }

    /// The overflow marks run parallel to the tokens and the position never
    /// leaves the stream.
    pub closed spec fn wf(&self) -> bool {
        &&& self.overflows@.len() == self.tokens@.len()
        &&& self.index <= self.tokens@.len()
    }

    /// Pull every token out of `lexer` up to (and not including) `EOF`,
    /// so the parser starts at the front of the full token stream.
    pub fn new(lexer: Lexer) -> (r: Parser)
        requires
            lexer.wf(),
        ensures
            r.wf(),
            r.pos() == 0,
            r.toks() == spec_tokens(lexer@),
            r.ovfs() == spec_overflows(lexer@),
    {
        let mut lexer = lexer;
        let ghost s0 = lexer@;
        let mut tokens: Vec<Token> = Vec::new();
        let mut overflows: Vec<bool> = Vec::new();
        proof {
            assert(tokens@ + spec_tokens(lexer@) =~= spec_tokens(s0));
            assert(overflows@ + spec_overflows(lexer@) =~= spec_overflows(s0));
        }
        loop
            invariant
                lexer.wf(),
                tokens@.len() == overflows@.len(),
                spec_tokens(s0) == tokens@ + spec_tokens(lexer@),
                spec_overflows(s0) == overflows@ + spec_overflows(lexer@),
            ensures
                tokens@.len() == overflows@.len(),
                tokens@ == spec_tokens(s0),
                overflows@ == spec_overflows(s0),
            decreases lexer@.len(),
        {
            let ghost pre = lexer@;
            let t = lexer.next_token();
            if t == Token::EOF {
                proof {
                    assert(spec_tokens(pre) =~= Seq::<Token>::empty());
                    assert(spec_overflows(pre) =~= Seq::<bool>::empty());
                    assert(tokens@ =~= tokens@ + spec_tokens(pre));
                    assert(overflows@ =~= overflows@ + spec_overflows(pre));
                }
                break ;
            }
            proof {
                crate::lexer::lemma_token_rest_shorter(pre);
                assert(spec_tokens(pre) == seq![t] + spec_tokens(lexer@));
                assert(spec_overflows(pre) == seq![crate::lexer::token_overflow(pre)]
                    + spec_overflows(lexer@));
            }
            tokens.push(t);
            overflows.push(lexer.last_overflow());
            proof {
                assert(tokens@ + spec_tokens(lexer@) =~= spec_tokens(s0));
                assert(overflows@ + spec_overflows(lexer@) =~= spec_overflows(s0));
            }
        }
        Parser { tokens, overflows, index: 0 }
    }

    /// Advance past the current token.
    fn next_token(&mut self)
        requires
            old(self).wf(),
            old(self).pos() < old(self).toks().len(),
        ensures
            final(self).wf(),
            final(self).toks() == old(self).toks(),
            final(self).ovfs() == old(self).ovfs(),
            final(self).pos() == old(self).pos() + 1,
    {
        let n = self.tokens.len();
        assert(self.index < n);
        self.index = self.index + 1;
    }

    /// The next unconsumed token, `EOF` once the stream is exhausted.
    fn current_token(&self) -> (t: Token)
        requires
            self.wf(),
        ensures
            t == tok_at(self.toks(), self.pos()),
    {
        if self.index < self.tokens.len() {
            self.tokens[self.index]
        } else {
            Token::EOF
        }
    }

    /// The error for meeting the current token where the grammar forbids it.
    fn unexpected_here(&self) -> (e: EvalError)
        requires
            self.wf(),
        ensures
            e == unexpected_error(self.toks(), self.ovfs(), self.pos()),
    {
        if self.index < self.tokens.len() {
            let t = self.tokens[self.index];
            if t == Token::Illegal {
                if self.overflows[self.index] {
                    EvalError::OverflowError
                } else {
                    EvalError::LexicalError
                }
            } else {
                EvalError::SyntaxError(t)
            }
        } else {
            EvalError::SyntaxError(Token::EOF)
        }
    }

    /// The precedence table as executable code.
    fn get_token_precedence(&self, token: &Token) -> (p: Precedence)
        ensures
            p == spec_token_precedence(*token),
    {
        match token {
            Token::LT | Token::GT | Token::Eq | Token::NotEq => Precedence::Comparison,
            Token::Plus | Token::Minus => Precedence::Sum,
            Token::Slash | Token::Asterisk => Precedence::Product,
            _ => Precedence::Lowest,
        }
    }

    /// Numeric strength of a precedence level, for comparisons.
    fn rank_of(p: Precedence) -> (r: u8)
        ensures
            r as nat == prec_rank(p),
    {
        match p {
            Precedence::Lowest => 0,
            Precedence::Comparison => 1,
            Precedence::Sum => 2,
            Precedence::Product => 3,
        }
    }

    /// Parse one primary unit at the current position.
    fn parse_tree_node(&mut self) -> (r: Result<Node, EvalError>)
        requires
            old(self).wf(),
        ensures
            final(self).wf(),
            final(self).toks() == old(self).toks(),
            final(self).ovfs() == old(self).ovfs(),
            (match spec_parse_primary(old(self).toks(), old(self).ovfs(), old(self).pos()) {
                Ok((n, j)) => r == Ok::<Node, EvalError>(n) && final(self).pos() == j && old(
                    self,
                ).pos() < j <= old(self).toks().len(),
                Err(e) => r == Err::<Node, EvalError>(e),
            }),
        decreases remaining(old(self).toks(), old(self).pos()), 0int,
    {
        let t = self.current_token();
        match t {
            Token::Int(_) => {
                self.next_token();
                Ok(Node::TokenNode(t))
            },
            Token::LParen => {
                self.next_token();
                let inner = match self.parse_expression(&Precedence::Lowest) {
                    Ok(n) => n,
                    Err(e) => {
                        return Err(e);
                    },
                };
                let t2 = self.current_token();
                if t2 == Token::RParen {
                    self.next_token();
                    Ok(inner)
                } else {
                    Err(self.unexpected_here())
                }
            },
            _ => Err(self.unexpected_here()),
        }
    }

    /// Fold one infix operator onto `left`: consume the operator at the
    /// current position and parse its right operand at the operator's own
    /// precedence.
    fn parse_infix_expression(&mut self, left: Node) -> (r: Result<Node, EvalError>)
        requires
            old(self).wf(),
            prec_rank(spec_token_precedence(tok_at(old(self).toks(), old(self).pos()))) > 0,
        ensures
            final(self).wf(),
            final(self).toks() == old(self).toks(),
            final(self).ovfs() == old(self).ovfs(),
            (match spec_parse_expr(
                old(self).toks(),
                old(self).ovfs(),
                old(self).pos() + 1,
                spec_token_precedence(tok_at(old(self).toks(), old(self).pos())),
            ) {
                Ok((rn, k)) => r == Ok::<Node, EvalError>(
                    (Node::InfixNode {
                        value: tok_at(old(self).toks(), old(self).pos()),
                        left: Box::new(left),
                        right: Box::new(rn),
                    }),
                ) && final(self).pos() == k && old(self).pos() + 1 < k <= old(self).toks().len(),
                Err(e) => r == Err::<Node, EvalError>(e),
            }),
        decreases remaining(old(self).toks(), old(self).pos()), 0int,
    {
        let op = self.current_token();
        let op_precedence = self.get_token_precedence(&op);
        self.next_token();
        let right = match self.parse_expression(&op_precedence) {
            Ok(n) => n,
            Err(e) => {
                return Err(e);
            },
        };
        Ok(Node::InfixNode { value: op, left: Box::new(left), right: Box::new(right) })
    }

    /// Parse everything at or above `precedence` starting at the current
    /// token, returning its syntax tree; equal-precedence operators group
    /// left to right. Fails with the error of the first token that cannot
    /// play the role the grammar requires of it.
    pub fn parse_expression(&mut self, precedence: &Precedence) -> (r: Result<Node, EvalError>)
        requires
            old(self).wf(),
        ensures
            final(self).wf(),
            final(self).toks() == old(self).toks(),
            final(self).ovfs() == old(self).ovfs(),
            (match spec_parse_expr(
                old(self).toks(),
                old(self).ovfs(),
                old(self).pos(),
                *precedence,
            ) {
                Ok((n, j)) => r == Ok::<Node, EvalError>(n) && final(self).pos() == j && old(
                    self,
                ).pos() < j <= old(self).toks().len(),
                Err(e) => r == Err::<Node, EvalError>(e),
            }),
        decreases remaining(old(self).toks(), old(self).pos()), 1int,
    {
        let mut left = match self.parse_tree_node() {
            Ok(n) => n,
            Err(e) => {
                return Err(e);
            },
        };
        while Self::rank_of(self.get_token_precedence(&self.current_token())) > Self::rank_of(
            *precedence,
        )
            invariant
                self.wf(),
                self.toks() == old(self).toks(),
                self.ovfs() == old(self).ovfs(),
                old(self).pos() < self.pos() <= self.toks().len(),
                spec_parse_expr(old(self).toks(), old(self).ovfs(), old(self).pos(), *precedence)
                    == spec_parse_loop(self.toks(), self.ovfs(), self.pos(), *precedence, left),
            decreases self.toks().len() - self.pos(),
        {
            left = match self.parse_infix_expression(left) {
                Ok(n) => n,
                Err(e) => {
                    return Err(e);
                },
            };
        }
        Ok(left)
    }

    /// Succeeds exactly when the whole token stream has been consumed;
    /// otherwise reports the first leftover token as the error it causes.
    pub fn expect_end(&self) -> (r: Result<(), EvalError>)
        requires
            self.wf(),
        ensures
            r == if self.pos() < self.toks().len() {
                Err::<(), EvalError>(unexpected_error(self.toks(), self.ovfs(), self.pos()))
            } else {
                Ok::<(), EvalError>(())
            },
    {
        if self.index < self.tokens.len() {
            Err(self.unexpected_here())
        } else {
            Ok(())
        }
    }
}

} // verus!
