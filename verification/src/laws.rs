use vstd::prelude::*;
use vstd::arithmetic::div_mod::{lemma_fundamental_div_mod, lemma_fundamental_div_mod_converse};
use crate::lexer::{
    digit_char, digit_run, digit_val, digits_of, digits_value, is_digit, lemma_token_rest_shorter,
    skip_spaces, spec_tokens, token_at, token_rest,
};
use crate::token::Token;

verus! {

/// Repeated scanning after exhaustion always yields `EOF` again, from the
/// same (exhausted) state: the end of input is idempotent.
pub proof fn lemma_end_of_input_idempotent(s: Seq<char>)
    requires
        token_at(s) == Token::EOF,
    ensures
        token_rest(s) == skip_spaces(s),
        token_at(token_rest(s)) == Token::EOF,
        token_rest(token_rest(s)) == token_rest(s),
{
    assert(skip_spaces(s).len() == 0);
    assert(skip_spaces(skip_spaces(s)) == skip_spaces(s));
}

/// Two characters are the same exactly when their scalar values are.
pub proof fn lemma_char_by_value(a: char, b: char)
    ensures
        (a == b) <==> (a as u32 == b as u32),
{
    if a as u32 == b as u32 {
        vstd::utf8::char_u32_cast(a, a as u32);
        vstd::utf8::char_u32_cast(b, b as u32);
    }
}

/// Every character of `d` is a decimal digit.
pub open spec fn all_digits(d: Seq<char>) -> bool {
    forall|i: int| 0 <= i < d.len() ==> is_digit(#[trigger] d[i])
}

/// The decimal rendering of a value is a nonempty digit string without a
/// leading zero (unless the value is zero itself) whose value is the one
/// rendered.
pub proof fn lemma_digits_of_facts(v: nat)
    ensures
        digits_of(v).len() >= 1,
        all_digits(digits_of(v)),
        digits_value(digits_of(v)) == v,
        v > 0 ==> digits_of(v)[0] != '0',
    decreases v,
{
    if v < 10 {
        let c = digit_char(v);
        assert(is_digit(c));
        assert(seq![c].drop_last() =~= Seq::<char>::empty());
        assert(seq![c].last() == c);
        assert(digits_value(Seq::<char>::empty()) == 0);
        assert(digits_value(seq![c]) == digit_val(c));
        assert(digit_val(c) == v);
    } else {
        lemma_digits_of_facts(v / 10);
        let d = digits_of(v / 10);
        let c = digit_char(v % 10);
        assert(digits_of(v) == d.push(c));
        assert(d.push(c).drop_last() =~= d);
        assert(d.push(c).last() == c);
        assert(digits_value(d.push(c)) == digits_value(d) * 10 + digit_val(c));
        assert(digit_val(c) == v % 10);
        lemma_fundamental_div_mod(v as int, 10);
        assert(is_digit(c));
        assert forall|i: int| 0 <= i < d.push(c).len() implies is_digit(#[trigger] d.push(c)[i]) by {
            if i < d.len() {
                assert(d.push(c)[i] == d[i]);
            }
        }
        assert(digits_of(v)[0] == d[0]);
    }
}

/// A digit string whose leading digit is not zero has a positive value, and
/// at least ten once it is two digits long.
pub proof fn lemma_digits_value_positive(d: Seq<char>)
    requires
        d.len() >= 1,
        all_digits(d),
        d[0] != '0',
    ensures
        digits_value(d) >= 1,
        d.len() >= 2 ==> digits_value(d) >= 10,
    decreases d.len(),
{
    if d.len() == 1 {
        assert(d.drop_last() =~= Seq::<char>::empty());
        assert(digits_value(Seq::<char>::empty()) == 0);
        assert(d.last() == d[0]);
        assert(digits_value(d) == digit_val(d[0]));
        assert(is_digit(d[0]));
        lemma_char_by_value(d[0], '0');
        assert(d[0] as u32 != '0' as u32);
        assert(digit_val(d[0]) >= 1);
    } else {
        assert(d.drop_last()[0] == d[0]);
        assert(all_digits(d.drop_last()));
        lemma_digits_value_positive(d.drop_last());
        assert(digits_value(d) == digits_value(d.drop_last()) * 10 + digit_val(d.last()));
    }
}

/// The run of digits at the front of `d + tail` is exactly `d` when `d` is
/// all digits and `tail` does not start with one.
pub proof fn lemma_digit_run_concat(d: Seq<char>, tail: Seq<char>)
    requires
        all_digits(d),
        tail.len() == 0 || !is_digit(tail[0]),
    ensures
        digit_run(d + tail) == d.len(),
    decreases d.len(),
{
    if d.len() == 0 {
        assert(d + tail =~= tail);
    } else {
        assert((d + tail)[0] == d[0]);
        assert((d + tail).skip(1) =~= d.skip(1) + tail);
        assert(all_digits(d.skip(1)));
        lemma_digit_run_concat(d.skip(1), tail);
        assert(digit_run(d + tail) == 1 + digit_run((d + tail).skip(1)));
    }
}

/// Numeric round trip: scanning a well-formed decimal literal (nonempty, all
/// digits, no leading zero, within range of `usize`) yields the integer token
/// of its value, and rendering that value back to text yields the original
/// digits.
pub proof fn lemma_literal_round_trip(d: Seq<char>)
    requires
        d.len() >= 1,
        all_digits(d),
        d.len() >= 2 ==> d[0] != '0',
        digits_value(d) <= usize::MAX,
    ensures
        token_at(d) == Token::Int(digits_value(d) as usize),
        digits_of(digits_value(d)) == d,
    decreases d.len(),
{
    assert(is_digit(d[0]));
    assert(d[0] != ' ');
    assert(skip_spaces(d) == d);
    lemma_digit_run_concat(d, Seq::<char>::empty());
    assert(d + Seq::<char>::empty() =~= d);
    assert(digit_run(d) == d.len());
    assert(d.take(d.len() as int) =~= d);
    assert(token_at(d) == Token::Int(digits_value(d) as usize));
    // rendering direction, by induction on the digit string
    if d.len() == 1 {
        let c = d[0];
        assert(d.drop_last() =~= Seq::<char>::empty());
        assert(digits_value(Seq::<char>::empty()) == 0);
        assert(d.last() == c);
        assert(digits_value(d) == digit_val(c));
        assert(digit_val(c) < 10);
        assert(digits_of(digits_value(d)) == seq![digit_char(digit_val(c))]);
        lemma_digit_char_of_val(c);
        assert(seq![c] =~= d);
    } else {
        let dd = d.drop_last();
        let c = d.last();
        let v = digits_value(d);
        assert(dd[0] == d[0]);
        assert(all_digits(dd));
        assert(is_digit(c));
        lemma_digits_value_positive(dd);
        assert(v == digits_value(dd) * 10 + digit_val(c));
        lemma_fundamental_div_mod_converse(
            v as int,
            10,
            digits_value(dd) as int,
            digit_val(c) as int,
        );
        assert(v / 10 == digits_value(dd));
        assert(v % 10 == digit_val(c));
        assert(v >= 10);
        lemma_literal_round_trip(dd);
        assert(digits_of(v) == digits_of(digits_value(dd)).push(digit_char(digit_val(c))));
        lemma_digit_char_of_val(c);
        assert(dd.push(c) =~= d);
    }
}

/// Rendering the value of a digit character gives that character back.
pub proof fn lemma_digit_char_of_val(c: char)
    requires
        is_digit(c),
    ensures
        digit_char(digit_val(c)) == c,
{
    let u: u32 = c as u32;
    assert(48 <= u <= 57);
    assert(('0' as u32 + digit_val(c)) == u);
    assert((u as u8) as u32 == u);
    vstd::utf8::char_u32_cast(c, u);
    assert(digit_char(digit_val(c)) == (u as u8) as char);
}

// ----- whitespace insensitivity -----

/// Tokens the scanner can actually produce from text: everything except the
/// sentinels (`Illegal` never renders, `EOF` marks exhaustion, and `Bang` is
/// present in the token model but never emitted, since a lone `!` scans as
/// `Illegal`).
pub open spec fn scannable(t: Token) -> bool {
    match t {
        Token::Illegal | Token::EOF | Token::Bang => false,
        _ => true,
    }
}

/// The canonical text of one token.
pub open spec fn token_text(t: Token) -> Seq<char> {
    match t {
        Token::Int(v) => digits_of(v as nat),
        Token::Plus => seq!['+'],
        Token::Minus => seq!['-'],
        Token::Asterisk => seq!['*'],
        Token::Slash => seq!['/'],
        Token::LT => seq!['<'],
        Token::GT => seq!['>'],
        Token::LParen => seq!['('],
        Token::RParen => seq![')'],
        Token::Eq => seq!['=', '='],
        Token::NotEq => seq!['!', '='],
        _ => Seq::empty(),
    }
}

/// `n` space characters.
pub open spec fn spaces(n: nat) -> Seq<char>
    decreases n,
{
    if n == 0 {
        Seq::empty()
    } else {
        seq![' '] + spaces((n - 1) as nat)
    }
}

/// A token stream rendered back to text, with `gaps[k]` spaces between token
/// `k` and token `k + 1` and no surrounding whitespace.
pub open spec fn render_tokens(ts: Seq<Token>, gaps: Seq<nat>) -> Seq<char>
    decreases ts.len(),
{
    if ts.len() == 0 {
        Seq::empty()
    } else if ts.len() == 1 {
        token_text(ts[0])
    } else {
        token_text(ts[0]) + (spaces(gaps[0]) + render_tokens(ts.skip(1), gaps.skip(1)))
    }
}

/// Number of interior gaps a rendering of `ts` has.
pub open spec fn gap_count(ts: Seq<Token>) -> int {
    if ts.len() == 0 {
        0
    } else {
        ts.len() - 1
    }
}

pub proof fn lemma_spaces_facts(n: nat)
    ensures
        spaces(n).len() == n,
        forall|i: int| 0 <= i < n ==> spaces(n)[i] == ' ',
    decreases n,
{
    if n > 0 {
        lemma_spaces_facts((n - 1) as nat);
    }
}

/// Leading spaces do not change what `skip_spaces` leaves over.
pub proof fn lemma_skip_spaces_concat(g: nat, u: Seq<char>)
    ensures
        skip_spaces(spaces(g) + u) == skip_spaces(u),
    decreases g,
{
    lemma_spaces_facts(g);
    if g == 0 {
        assert(spaces(g) + u =~= u);
    } else {
        assert((spaces(g) + u)[0] == ' ');
        assert((spaces(g) + u).skip(1) =~= spaces((g - 1) as nat) + u);
        lemma_skip_spaces_concat((g - 1) as nat, u);
        assert(skip_spaces(spaces(g) + u) == skip_spaces((spaces(g) + u).skip(1)));
    }
}

/// Scanning one rendered token followed by a space (or the end of input)
/// recovers exactly that token and leaves exactly the tail.
pub proof fn lemma_scan_one_token(t: Token, tail: Seq<char>)
    requires
        scannable(t),
        tail.len() == 0 || tail[0] == ' ',
    ensures
        token_text(t).len() >= 1,
        token_at(token_text(t) + tail) == t,
        token_rest(token_text(t) + tail) == tail,
{
    let s = token_text(t) + tail;
    match t {
        Token::Int(v) => {
            lemma_digits_of_facts(v as nat);
            let d = digits_of(v as nat);
            assert(s[0] == d[0]);
            assert(is_digit(s[0]));
            assert(s[0] != ' ');
            assert(skip_spaces(s) == s);
            lemma_digit_run_concat(d, tail);
            assert(digit_run(s) == d.len());
            assert(s.take(d.len() as int) =~= d);
            assert(digits_value(s.take(digit_run(s) as int)) == v as nat);
            assert(token_at(s) == Token::Int(v));
            assert(s.skip(d.len() as int) =~= tail);
        },
        Token::Eq => {
            assert(s[0] == '=' && s.len() > 1 && s[1] == '=');
            assert(skip_spaces(s) == s);
            assert(token_at(s) == Token::Eq);
            assert(s.skip(2) =~= tail);
        },
        Token::NotEq => {
            assert(s[0] == '!' && s.len() > 1 && s[1] == '=');
            assert(skip_spaces(s) == s);
            assert(token_at(s) == Token::NotEq);
            assert(s.skip(2) =~= tail);
        },
        _ => {
            assert(token_text(t).len() == 1);
            assert(s[0] == token_text(t)[0]);
            assert(s[0] != ' ');
            assert(skip_spaces(s) == s);
            if s.len() > 1 {
                assert(s[1] == tail[0]);
                assert(s[1] == ' ');
            }
            assert(token_at(s) == t);
            assert(s.skip(1) =~= tail);
        },
    }
}

/// Leading spaces do not change the token stream.
pub proof fn lemma_tokens_after_spaces(g: nat, u: Seq<char>)
    ensures
        spec_tokens(spaces(g) + u) == spec_tokens(u),
    decreases u.len(),
{
    lemma_skip_spaces_concat(g, u);
    let s = spaces(g) + u;
    assert(token_at(s) == token_at(u));
    assert(token_rest(s) == token_rest(u));
    if token_at(u) != Token::EOF {
        lemma_token_rest_shorter(s);
        lemma_token_rest_shorter(u);
    }
}

/// Scanning a rendering of a token stream, whatever its interior spacing,
/// recovers exactly that stream.
pub proof fn lemma_scan_render(ts: Seq<Token>, gaps: Seq<nat>)
    requires
        forall|k: int| 0 <= k < ts.len() ==> scannable(#[trigger] ts[k]),
        gaps.len() == gap_count(ts),
        forall|k: int| 0 <= k < gaps.len() ==> #[trigger] gaps[k] >= 1,
    ensures
        spec_tokens(render_tokens(ts, gaps)) == ts,
    decreases ts.len(),
{
    if ts.len() == 0 {
        assert(skip_spaces(Seq::<char>::empty()).len() == 0);
        assert(spec_tokens(render_tokens(ts, gaps)) =~= ts);
    } else if ts.len() == 1 {
        let t = ts[0];
        lemma_scan_one_token(t, Seq::<char>::empty());
        assert(token_text(t) + Seq::<char>::empty() =~= token_text(t));
        let s = render_tokens(ts, gaps);
        assert(token_at(s) == t && token_rest(s) =~= Seq::<char>::empty());
        lemma_token_rest_shorter(s);
        assert(skip_spaces(Seq::<char>::empty()).len() == 0);
        assert(spec_tokens(token_rest(s)) =~= Seq::<Token>::empty());
        assert(spec_tokens(s) =~= seq![t]);
        assert(seq![t] =~= ts);
    } else {
        let t = ts[0];
        let tail = spaces(gaps[0]) + render_tokens(ts.skip(1), gaps.skip(1));
        let s = render_tokens(ts, gaps);
        assert(s == token_text(t) + tail);
        lemma_spaces_facts(gaps[0]);
        assert(tail[0] == ' ');
        lemma_scan_one_token(t, tail);
        lemma_token_rest_shorter(s);
        lemma_tokens_after_spaces(gaps[0], render_tokens(ts.skip(1), gaps.skip(1)));
        assert(forall|k: int|
            0 <= k < ts.skip(1).len() ==> scannable(#[trigger] ts.skip(1)[k]));
        assert(gaps.skip(1).len() == gap_count(ts.skip(1)));
        assert(forall|k: int| 0 <= k < gaps.skip(1).len() ==> #[trigger] gaps.skip(1)[k] >= 1);
        lemma_scan_render(ts.skip(1), gaps.skip(1));
        assert(spec_tokens(s) == seq![t] + spec_tokens(tail));
        assert(seq![t] + ts.skip(1) =~= ts);
    }
}

/// Whitespace insensitivity: scanning recovers the identical token sequence
/// from any two renderings of the same tokens, regardless of how many
/// interior spaces (at least one, so adjacent literals stay apart) separate
/// them.
pub proof fn lemma_whitespace_insensitive(ts: Seq<Token>, gaps1: Seq<nat>, gaps2: Seq<nat>)
    requires
        forall|k: int| 0 <= k < ts.len() ==> scannable(#[trigger] ts[k]),
        gaps1.len() == gap_count(ts),
        gaps2.len() == gap_count(ts),
        forall|k: int| 0 <= k < gaps1.len() ==> #[trigger] gaps1[k] >= 1,
        forall|k: int| 0 <= k < gaps2.len() ==> #[trigger] gaps2[k] >= 1,
    ensures
        spec_tokens(render_tokens(ts, gaps1)) == ts,
        spec_tokens(render_tokens(ts, gaps1)) == spec_tokens(render_tokens(ts, gaps2)),
{
    lemma_scan_render(ts, gaps1);
    lemma_scan_render(ts, gaps2);
}

} // verus!
