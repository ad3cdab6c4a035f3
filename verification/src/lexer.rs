use vstd::prelude::*;
use vstd::string::StrSliceExecFns;
use crate::token::Token;

verus! {

// ----- character classes and decimal digits -----

/// `c` is one of the ten ASCII decimal digits. Only these trigger the number
/// path of the scanner; any other character that is not an operator,
/// parenthesis or space yields `Illegal`.
pub open spec fn is_digit(c: char) -> bool {
    '0' as u32 <= c as u32 && c as u32 <= '9' as u32
}

/// Numeric value of one digit character.
pub open spec fn digit_val(c: char) -> nat {
    (c as u32 - '0' as u32) as nat
}

/// Digit character for a value below ten.
pub open spec fn digit_char(d: nat) -> char {
    (('0' as u32 + d) as u8) as char
}

/// Value of a run of digit characters, most significant first.
pub open spec fn digits_value(d: Seq<char>) -> nat
    decreases d.len(),
{
    if d.len() == 0 {
        0
    } else {
        digits_value(d.drop_last()) * 10 + digit_val(d.last())
    }
}

/// Decimal digit string of `v`, most significant first, without leading
/// zeros (`0` itself renders as the single digit `0`).
pub open spec fn digits_of(v: nat) -> Seq<char>
    decreases v,
{
    if v < 10 {
        seq![digit_char(v)]
    } else {
        digits_of(v / 10).push(digit_char(v % 10))
    }
}

/// Number of leading digit characters of `s`.
pub open spec fn digit_run(s: Seq<char>) -> nat
    decreases s.len(),
{
    if s.len() > 0 && is_digit(s[0]) {
        1 + digit_run(s.skip(1))
    } else {
        0
    }
}

// ----- the mathematical scanner -----
//
// The scanner is specified on the suffix of the input that is still
// unconsumed: `token_at` is the next token of that suffix, `token_rest` the
// suffix left after it, and `spec_tokens` the whole remaining token stream.

/// `s` with its leading spaces removed. The space character is the only
/// whitespace this scanner knows.
pub open spec fn skip_spaces(s: Seq<char>) -> Seq<char>
    decreases s.len(),
{
    if s.len() > 0 && s[0] == ' ' {
        skip_spaces(s.skip(1))
    } else {
        s
    }
}

/// The next token of the suffix `s`: skip spaces, then decide by the first
/// character, with one character of lookahead for `==` and `!=`. A digit
/// starts a maximal run of digits; a run whose value does not fit in `usize`
/// scans as `Illegal`.
pub open spec fn token_at(s: Seq<char>) -> Token {
    let t = skip_spaces(s);
    if t.len() == 0 {
        Token::EOF
    } else if t[0] == '=' {
        if t.len() > 1 && t[1] == '=' {
            Token::Eq
        } else {
            Token::Illegal
        }
    } else if t[0] == '!' {
        if t.len() > 1 && t[1] == '=' {
            Token::NotEq
        } else {
            Token::Illegal
        }
    } else if t[0] == '+' {
        Token::Plus
    } else if t[0] == '-' {
        Token::Minus
    } else if t[0] == '/' {
        Token::Slash
    } else if t[0] == '*' {
        Token::Asterisk
    } else if t[0] == '<' {
        Token::LT
    } else if t[0] == '>' {
        Token::GT
    } else if t[0] == '(' {
        Token::LParen
    } else if t[0] == ')' {
        Token::RParen
    } else if is_digit(t[0]) {
        let v = digits_value(t.take(digit_run(t) as int));
        if v <= usize::MAX {
            Token::Int(v as usize)
        } else {
            Token::Illegal
        }
    } else {
        Token::Illegal
    }
}

/// The suffix left after scanning one token from `s`.
pub open spec fn token_rest(s: Seq<char>) -> Seq<char> {
    let t = skip_spaces(s);
    if t.len() == 0 {
        t
    } else if (t[0] == '=' || t[0] == '!') && t.len() > 1 && t[1] == '=' {
        t.skip(2)
    } else if is_digit(t[0]) {
        t.skip(digit_run(t) as int)
    } else {
        t.skip(1)
    }
}

/// The next token of `s` is an integer literal whose value does not fit in
/// `usize`. Such a literal scans as `Illegal`, and this predicate is what
/// tells that case apart from an unrecognized character.
pub open spec fn token_overflow(s: Seq<char>) -> bool {
    let t = skip_spaces(s);
    t.len() > 0 && is_digit(t[0]) && digits_value(t.take(digit_run(t) as int)) > usize::MAX
}

/// Scanning one non-`EOF` token consumes at least one character.
pub proof fn lemma_token_rest_shorter(s: Seq<char>)
    requires
        token_at(s) != Token::EOF,
    ensures
        token_rest(s).len() < s.len(),
        skip_spaces(s).len() > 0,
{
    lemma_skip_spaces_len(s);
    let t = skip_spaces(s);
    lemma_digit_run_le(t);
    if t.len() > 0 && is_digit(t[0]) {
        assert(digit_run(t) == 1 + digit_run(t.skip(1)));
    }
}

/// A run of digits never extends past the end of the suffix.
pub proof fn lemma_digit_run_le(s: Seq<char>)
    ensures
        digit_run(s) <= s.len(),
    decreases s.len(),
{
    if s.len() > 0 && is_digit(s[0]) {
        lemma_digit_run_le(s.skip(1));
    }
}

/// `skip_spaces` never lengthens a suffix.
pub proof fn lemma_skip_spaces_len(s: Seq<char>)
    ensures
        skip_spaces(s).len() <= s.len(),
    decreases s.len(),
{
    if s.len() > 0 && s[0] == ' ' {
        lemma_skip_spaces_len(s.skip(1));
    }
}

/// The whole token stream of the suffix `s`, ending before the first `EOF`.
pub open spec fn spec_tokens(s: Seq<char>) -> Seq<Token>
    decreases s.len(),
{
    if token_at(s) == Token::EOF {
        Seq::empty()
    } else if token_rest(s).len() < s.len() {
        seq![token_at(s)] + spec_tokens(token_rest(s))
    } else {
        seq![token_at(s)]
    }
}

/// For each token of `spec_tokens(s)`, whether it is an integer literal that
/// overflowed `usize`.
pub open spec fn spec_overflows(s: Seq<char>) -> Seq<bool>
    decreases s.len(),
{
    if token_at(s) == Token::EOF {
        Seq::empty()
    } else if token_rest(s).len() < s.len() {
        seq![token_overflow(s)] + spec_overflows(token_rest(s))
    } else {
        seq![token_overflow(s)]
    }
}

// ----- the executable scanner -----

/// The lexical scanner. It owns the input as a sequence of characters and
/// reads it left to right with one character of lookahead; its view is the
/// suffix of the input it has not consumed yet.
pub struct Lexer {
    input: Vec<char>,
    current_index: usize,
    peek_index: usize,
    ch: Option<char>,
    last_illegal_was_overflow: bool,
}

impl View for Lexer {
    type V = Seq<char>;

    closed spec fn view(&self) -> Seq<char> {
        self.input@.skip(self.current_index as int)
    }
}

impl Lexer {
    /// The position counters sit inside the input (saturating at its end once
    /// it is exhausted), the lookahead index is one past the current one, and
    /// the cached character is the current one, or absent at the end. Reading
    /// past the end never substitutes a default character.
    pub closed spec fn wf(&self) -> bool {
        &&& self.current_index <= self.input@.len()
        &&& self.peek_index == if self.current_index < self.input@.len() {
            self.current_index + 1
        } else {
            self.input@.len() as int
        }
        &&& self.ch == if self.current_index < self.input@.len() {
            Some(self.input@[self.current_index as int])
        } else {
            None::<char>
        }
    }

    /// Whether the token `next_token` returned last was an integer literal
    /// too large for `usize` (it returns `Illegal` for such a literal).
    pub closed spec fn overflow_flag(&self) -> bool {
        self.last_illegal_was_overflow
    }

    pub fn new(input: &str) -> (r: Lexer)
        ensures
            r.wf(),
            r@ == input@,
            !r.overflow_flag(),
    {
        let n = input.unicode_len();
        let mut chars: Vec<char> = Vec::new();
        let mut i: usize = 0;
        while i < n
            invariant
                i <= n,
                n == input@.len(),
                chars@ == input@.take(i as int),
            decreases n - i,
        {
            chars.push(input.get_char(i));
            assert(chars@ =~= input@.take(i + 1 as int));
            i = i + 1;
        }
        assert(chars@ =~= input@);
        let ch = if chars.len() > 0 {
            Some(chars[0])
        } else {
            None
        };
        let peek: usize = if chars.len() > 0 {
            1
        } else {
            0
        };
        let lexer = Lexer {
            input: chars,
            current_index: 0,
            peek_index: peek,
            ch,
            last_illegal_was_overflow: false,
        };
        assert(lexer@ =~= lexer.input@);
        lexer
    }

    /// Exposes the overflow flag to callers that pull tokens.
    pub fn last_overflow(&self) -> (r: bool)
        ensures
            r == self.overflow_flag(),
    {
        self.last_illegal_was_overflow
    }

    /// Advance by one character; at the end of the input this is a no-op
    /// apart from keeping the cached character absent.
    fn read_char(&mut self)
        requires
            old(self).wf(),
        ensures
            final(self).wf(),
            final(self)@ == if old(self)@.len() > 0 {
                old(self)@.skip(1)
            } else {
                old(self)@
            },
            final(self).overflow_flag() == old(self).overflow_flag(),
    {
        let ghost c = self.current_index as int;
        if self.peek_index < self.input.len() {
            self.ch = Some(self.input[self.peek_index]);
            self.current_index = self.peek_index;
            self.peek_index = self.peek_index + 1;
        } else {
            self.ch = None;
            self.current_index = self.input.len();
            self.peek_index = self.input.len();
        }
        proof {
            if c < self.input@.len() {
                assert(self.input@.skip(c).skip(1) =~= self.input@.skip(c + 1));
            }
        }
    }

    /// The lookahead character, if any.
    fn peek_index(&self) -> (r: Option<char>)
        requires
            self.wf(),
        ensures
            r == if self@.len() > 1 {
                Some(self@[1])
            } else {
                None::<char>
            },
    {
        if self.peek_index >= self.input.len() {
            None
        } else {
            Some(self.input[self.peek_index])
        }
    }

    /// The current character is a space.
    fn at_space(&self) -> (r: bool)
        requires
            self.wf(),
        ensures
            r == (self@.len() > 0 && self@[0] == ' '),
    {
        match self.ch {
            Some(c) => c == ' ',
            None => false,
        }
    }

    /// The current character is a decimal digit.
    fn at_digit(&self) -> (r: bool)
        requires
            self.wf(),
        ensures
            r == (self@.len() > 0 && is_digit(self@[0])),
    {
        match self.ch {
            Some(c) => '0' as u32 <= c as u32 && c as u32 <= '9' as u32,
            None => false,
        }
    }

    fn skip_whitespace(&mut self)
        requires
            old(self).wf(),
        ensures
            final(self).wf(),
            final(self)@ == skip_spaces(old(self)@),
            final(self).overflow_flag() == old(self).overflow_flag(),
    {
        while self.at_space()
            invariant
                self.wf(),
                skip_spaces(self@) == skip_spaces(old(self)@),
                self.overflow_flag() == old(self).overflow_flag(),
            decreases self@.len(),
        {
            self.read_char();
        }
    }

    /// Consume the maximal run of digits at the current position and return
    /// its value, or `None` if the value does not fit in `usize`. The run is
    /// consumed either way.
    fn read_number(&mut self) -> (r: Option<usize>)
        requires
            old(self).wf(),
            old(self)@.len() > 0,
            is_digit(old(self)@[0]),
        ensures
            final(self).wf(),
            final(self)@ == old(self)@.skip(digit_run(old(self)@) as int),
            final(self).overflow_flag() == old(self).overflow_flag(),
            ({
                let v = digits_value(old(self)@.take(digit_run(old(self)@) as int));
                r == if v <= usize::MAX {
                    Some(v as usize)
                } else {
                    None::<usize>
                }
            }),
    {
        let ghost s0 = self@;
        let ghost n = digit_run(s0) as int;
        let mut val: usize = 0;
        let mut overflowed = false;
        let ghost mut k: int = 0;
        proof {
            assert(s0.take(0) =~= Seq::<char>::empty());
            lemma_digit_run_le(s0);
            assert(s0.skip(0) =~= s0);
        }
        while self.at_digit()
            invariant
                self.wf(),
                0 <= k <= n,
                n == digit_run(s0),
                n <= s0.len(),
                self@ == s0.skip(k),
                digit_run(self@) == n - k,
                self.overflow_flag() == old(self).overflow_flag(),
                !overflowed ==> val == digits_value(s0.take(k)),
                overflowed ==> digits_value(s0.take(k)) > usize::MAX,
            decreases self@.len(),
        {
            let c = match self.ch {
                Some(c) => c,
                None => vstd::pervasive::unreached(),
            };
            assert(c == s0[k]);
            let d = c as u32 - '0' as u32;
            proof {
                assert(s0.take(k + 1).drop_last() =~= s0.take(k));
                assert(s0.take(k + 1).last() == s0[k]);
                assert(digits_value(s0.take(k + 1)) == digits_value(s0.take(k)) * 10 + digit_val(
                    s0[k],
                ));
            }
            if !overflowed {
                match val.checked_mul(10) {
                    Some(v10) => match v10.checked_add(d as usize) {
                        Some(v) => {
                            val = v;
                        },
                        None => {
                            overflowed = true;
                        },
                    },
                    None => {
                        overflowed = true;
                    },
                }
            } else {
                proof {
                    assert(digits_value(s0.take(k + 1)) >= digits_value(s0.take(k)));
                }
            }
            self.read_char();
            proof {
                assert(s0.skip(k).skip(1) =~= s0.skip(k + 1));
                assert(digit_run(s0.skip(k)) == 1 + digit_run(s0.skip(k).skip(1)));
                k = k + 1;
            }
        }
        proof {
            assert(k == n);
        }
        if overflowed {
            None
        } else {
            Some(val)
        }
    }

    /// Scan one token and advance past everything it consumed: skip spaces,
    /// then decide by the current character with one character of lookahead.
    /// Callable repeatedly; after exhaustion it keeps returning `EOF`.
    pub fn next_token(&mut self) -> (t: Token)
        requires
            old(self).wf(),
        ensures
            final(self).wf(),
            t == token_at(old(self)@),
            final(self)@ == token_rest(old(self)@),
            final(self).overflow_flag() == token_overflow(old(self)@),
    {
        self.skip_whitespace();
        self.last_illegal_was_overflow = false;
        let c = match self.ch {
            Some(c) => c,
            None => {
                self.read_char();
                return Token::EOF;
            },
        };
        if c == '=' {
            let two = match self.peek_index() {
                Some(p) => p == '=',
                None => false,
            };
            self.read_char();
            if two {
                self.read_char();
                assert(final(self)@ =~= token_rest(old(self)@));
                Token::Eq
            } else {
                Token::Illegal
            }
        } else if c == '!' {
            let two = match self.peek_index() {
                Some(p) => p == '=',
                None => false,
            };
            self.read_char();
            if two {
                self.read_char();
                assert(final(self)@ =~= token_rest(old(self)@));
                Token::NotEq
            } else {
                Token::Illegal
            }
        } else if c == '+' {
            self.read_char();
            Token::Plus
        } else if c == '-' {
            self.read_char();
            Token::Minus
        } else if c == '/' {
            self.read_char();
            Token::Slash
        } else if c == '*' {
            self.read_char();
            Token::Asterisk
        } else if c == '<' {
            self.read_char();
            Token::LT
        } else if c == '>' {
            self.read_char();
            Token::GT
        } else if c == '(' {
            self.read_char();
            Token::LParen
        } else if c == ')' {
            self.read_char();
            Token::RParen
        } else if '0' as u32 <= c as u32 && c as u32 <= '9' as u32 {
            match self.read_number() {
                Some(v) => Token::Int(v),
                None => {
                    self.last_illegal_was_overflow = true;
                    Token::Illegal
                },
            }
        } else {
            self.read_char();
            Token::Illegal
        }
    }

    /// Render `v` back to its decimal digit characters, most significant
    /// first: the inverse of the scanner's number path.
    pub fn render_int(v: usize) -> (r: Vec<char>)
        ensures
            r@ == digits_of(v as nat),
    {
        let mut rev: Vec<char> = Vec::new();
        let mut x = v;
        while x >= 10
            invariant
                digits_of(v as nat) == digits_of(x as nat) + rev@.reverse(),
            decreases x,
        {
            let d = x % 10;
            proof {
                assert(digits_of(x as nat) == digits_of((x as nat) / 10).push(
                    digit_char((x as nat) % 10),
                ));
                assert((digits_of((x / 10) as nat) + rev@.push(
                    digit_char((x % 10) as nat),
                ).reverse()) =~= digits_of((x as nat) / 10).push(digit_char((x as nat) % 10))
                    + rev@.reverse());
            }
            rev.push(((48 + d) as u8) as char);
            x = x / 10;
        }
        proof {
            assert(digits_of(x as nat) =~= seq![digit_char(x as nat)]);
        }
        let ghost rev0 = rev@;
        rev.push(((48 + x) as u8) as char);
        proof {
            assert(rev@.reverse() =~= seq![digit_char(x as nat)] + rev0.reverse());
            assert(digits_of(v as nat) == rev@.reverse());
        }
        let mut r: Vec<char> = Vec::new();
        let mut i = rev.len();
        while i > 0
            invariant
                i <= rev.len(),
                r@ =~= rev@.skip(i as int).reverse(),
            decreases i,
        {
            i = i - 1;
            r.push(rev[i]);
            proof {
                assert(r@ =~= rev@.skip(i as int).reverse());
            }
        }
        proof {
            assert(rev@.skip(0) =~= rev@);
        }
        r
    }
}

} // verus!
