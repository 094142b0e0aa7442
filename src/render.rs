use vstd::prelude::*;
use crate::token::Token;
use crate::tokenize::{
    digit_run, digit_value, digits_number, followed_by_eq, is_digit, lex, lex_after_digits,
    literal_value, single_char_token, tokens_of,
};

verus! {

/// The character of a decimal digit `d < 10`.
pub open spec fn digit_char(d: nat) -> char {
    if d == 0 {
        '0'
    } else if d == 1 {
        '1'
    } else if d == 2 {
        '2'
    } else if d == 3 {
        '3'
    } else if d == 4 {
        '4'
    } else if d == 5 {
        '5'
    } else if d == 6 {
        '6'
    } else if d == 7 {
        '7'
    } else if d == 8 {
        '8'
    } else {
        '9'
    }
}

/// The decimal digits of `n`, without leading zeros.
pub open spec fn decimal(n: nat) -> Seq<char>
    decreases n,
{
    if n < 10 {
        seq![digit_char(n)]
    } else {
        decimal(n / 10).push(digit_char(n % 10))
    }
}

/// The canonical text of one token; a literal is written in decimal.
pub open spec fn render_token(t: Token) -> Seq<char> {
    match t {
        Token::Int(x) => decimal(x as nat),
        Token::Plus => seq!['+'],
        Token::Minus => seq!['-'],
        Token::Mul => seq!['*'],
        Token::Div => seq!['/'],
        Token::Eq => seq!['=', '='],
        Token::Lte => seq!['<', '='],
        Token::Lt => seq!['<'],
        Token::Gte => seq!['>', '='],
        Token::Gt => seq!['>'],
        Token::Not => seq!['!'],
        Token::LeftParen => seq!['('],
        Token::RightParen => seq![')'],
        Token::EndOfStmt => seq![';'],
    }
}

/// The canonical text of a token sequence: each token followed by a space.
pub open spec fn render(ts: Seq<Token>) -> Seq<char>
    decreases ts.len(),
{
    if ts.len() == 0 {
        seq![]
    } else {
        render_token(ts[0]) + seq![' '] + render(ts.drop_first())
    }
}

/// A token that has a canonical text: literals are never negative.
pub open spec fn renderable(t: Token) -> bool {
    t matches Token::Int(x) ==> x >= 0
}

proof fn lemma_shift_digit_run(a: Seq<char>, q: Seq<char>, j: int)
    requires
        0 <= j,
    ensures
        digit_run(a + q, a.len() + j) == digit_run(q, j),
    decreases q.len() - j,
{
    if j < q.len() {
        assert((a + q)[a.len() + j] == q[j]);
        lemma_shift_digit_run(a, q, j + 1);
    }
}

proof fn lemma_shift_digits_number(a: Seq<char>, q: Seq<char>, i: int, k: int)
    requires
        0 <= i <= k <= q.len(),
    ensures
        digits_number(a + q, a.len() + i, a.len() + k) == digits_number(q, i, k),
    decreases k - i,
{
    if i < k {
        assert((a + q)[a.len() + k - 1] == q[k - 1]);
        lemma_shift_digits_number(a, q, i, k - 1);
    }
}

proof fn lemma_shift_lex(a: Seq<char>, q: Seq<char>, j: int)
    requires
        0 <= j,
    ensures
        lex(a + q, a.len() + j) == lex(q, j),
    decreases q.len() - j, 0int,
{
    let cs = a + q;
    let i = a.len() + j;
    if j < q.len() {
        assert(cs[i] == q[j]);
        if j + 1 < q.len() {
            assert(cs[i + 1] == q[j + 1]);
        }
        assert(followed_by_eq(cs, i) == followed_by_eq(q, j));
        let c = q[j];
        if is_digit(c) {
            lemma_shift_digit_run(a, q, j + 1);
            lemma_digit_run_bound(q, j + 1);
            lemma_shift_digits_number(a, q, j, j + 1 + digit_run(q, j + 1));
            lemma_shift_after(a, q, j + 1);
        } else if followed_by_eq(q, j) && (c == '<' || c == '>' || c == '=') {
            lemma_shift_lex(a, q, j + 2);
            assert(a.len() + (j + 2) == i + 2);
        } else {
            lemma_shift_lex(a, q, j + 1);
            assert(a.len() + (j + 1) == i + 1);
        }
    }
}

proof fn lemma_shift_after(a: Seq<char>, q: Seq<char>, j: int)
    requires
        0 <= j,
    ensures
        lex_after_digits(a + q, a.len() + j) == lex_after_digits(q, j),
    decreases q.len() - j, 1int,
{
    if j < q.len() {
        assert((a + q)[a.len() + j] == q[j]);
        if is_digit(q[j]) {
            lemma_shift_after(a, q, j + 1);
            assert(a.len() + (j + 1) == a.len() + j + 1);
        } else {
            lemma_shift_lex(a, q, j);
        }
    } else {
        lemma_shift_lex(a, q, j);
    }
}

proof fn lemma_digit_run_bound(q: Seq<char>, j: int)
    requires
        0 <= j,
    ensures
        j + digit_run(q, j) <= if j <= q.len() { q.len() as int } else { j },
    decreases q.len() - j,
{
    if j < q.len() && is_digit(q[j]) {
        lemma_digit_run_bound(q, j + 1);
    }
}

proof fn lemma_digit_char(d: nat)
    requires
        d < 10,
    ensures
        is_digit(digit_char(d)),
        digit_value(digit_char(d)) == d,
{
}

proof fn lemma_decimal_digits(n: nat)
    ensures
        decimal(n).len() >= 1,
        forall|k: int| 0 <= k < decimal(n).len() ==> is_digit(#[trigger] decimal(n)[k]),
    decreases n,
{
    if n < 10 {
        lemma_digit_char(n);
    } else {
        lemma_decimal_digits(n / 10);
        lemma_digit_char(n % 10);
    }
}

proof fn lemma_decimal_value(n: nat, rest: Seq<char>)
    ensures
        digits_number(decimal(n) + rest, 0, decimal(n).len() as int) == n,
    decreases n,
{
    let cs = decimal(n) + rest;
    if n < 10 {
        lemma_digit_char(n);
        assert(cs[0] == digit_char(n));
        assert(digits_number(cs, 0, 0) == 0);
    } else {
        let d = decimal(n / 10);
        let c = digit_char(n % 10);
        let rest2 = seq![c] + rest;
        assert(cs =~= d + rest2);
        lemma_decimal_value(n / 10, rest2);
        lemma_digit_char(n % 10);
        assert(cs[d.len() as int] == c);
    }
}

proof fn lemma_after_run(cs: Seq<char>, e: int, k: int)
    requires
        1 <= k <= e <= cs.len(),
        forall|m: int| 0 <= m < e ==> is_digit(#[trigger] cs[m]),
        e < cs.len() ==> !is_digit(cs[e]),
    ensures
        lex_after_digits(cs, k) == lex(cs, e),
        digit_run(cs, k) == e - k,
    decreases e - k,
{
    if k < e {
        lemma_after_run(cs, e, k + 1);
    }
}

proof fn lemma_token_step(t: Token, tail: Seq<char>)
    requires
        renderable(t),
    ensures
        lex(render_token(t) + seq![' '] + tail, 0) == seq![t] + lex(
            render_token(t) + seq![' '] + tail,
            render_token(t).len() + 1int,
        ),
{
    let r = render_token(t);
    let cs = r + seq![' '] + tail;
    assert(cs[r.len() as int] == ' ');
    assert(lex(cs, r.len() as int) == lex(cs, r.len() + 1int));
    match t {
        Token::Int(x) => {
            let n = x as nat;
            lemma_decimal_digits(n);
            let e = r.len() as int;
            assert forall|m: int| 0 <= m < e implies is_digit(#[trigger] cs[m]) by {
                assert(cs[m] == r[m]);
            }
            lemma_after_run(cs, e, 1);
            assert(cs =~= decimal(n) + (seq![' '] + tail));
            lemma_decimal_value(n, seq![' '] + tail);
            assert(literal_value(n) == x);
            assert(cs[0] == r[0]);
        },
        _ => {
            assert(cs[0] == r[0]);
            if r.len() == 2 {
                assert(cs[1] == r[1]);
            }
        },
    }
}

/// Writing tokens out in their canonical text (each followed by a space) and
/// scanning that text again gives back the same tokens.
pub proof fn law_rendered_tokens_scan_back(ts: Seq<Token>)
    requires
        forall|k: int| 0 <= k < ts.len() ==> renderable(#[trigger] ts[k]),
    ensures
        tokens_of(render(ts)) == ts,
    decreases ts.len(),
{
    if ts.len() > 0 {
        let rest = ts.drop_first();
        assert forall|k: int| 0 <= k < rest.len() implies renderable(#[trigger] rest[k]) by {
            assert(rest[k] == ts[k + 1]);
        }
        law_rendered_tokens_scan_back(rest);
        let a = render_token(ts[0]) + seq![' '];
        lemma_token_step(ts[0], render(rest));
        lemma_shift_lex(a, render(rest), 0);
        assert(a.len() + 0 == render_token(ts[0]).len() + 1);
        assert(seq![ts[0]] + rest =~= ts);
    } else {
        assert(lex(render(ts), 0) =~= ts);
    }
}

} // verus!
