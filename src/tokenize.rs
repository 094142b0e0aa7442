use vstd::prelude::*;
use vstd::arithmetic::div_mod::{lemma_add_mod_noop, lemma_mul_mod_noop_left};
use vstd::std_specs::iter::IteratorSpec;
use crate::token::{Error, Token};

verus! {

broadcast use vstd::string::next_postcondition, vstd::string::axiom_spec_iter;

pub open spec fn is_digit(c: char) -> bool {
    '0' <= c && c <= '9'
}

pub open spec fn digit_value(c: char) -> nat {
    (c as nat - '0' as nat) as nat
}

/// Length of the run of decimal digits that starts at `i`.
pub open spec fn digit_run(cs: Seq<char>, i: int) -> nat
    decreases cs.len() - i,
{
    if 0 <= i < cs.len() && is_digit(cs[i]) {
        1 + digit_run(cs, i + 1)
    } else {
        0
    }
}

/// The number written by the digits `cs[i..j]`.
pub open spec fn digits_number(cs: Seq<char>, i: int, j: int) -> nat
    decreases j - i,
{
    if j <= i {
        0
    } else {
        digits_number(cs, i, j - 1) * 10 + digit_value(cs[j - 1])
    }
}

/// The `i32` a literal denotes: its value modulo 2^32, read as two's complement.
pub open spec fn literal_value(n: nat) -> i32 {
    let r = n % 0x1_0000_0000;
    if r < 0x8000_0000 {
        r as i32
    } else {
        (r - 0x1_0000_0000) as i32
    }
}

/// True when the character after position `i` is `=`.
pub open spec fn followed_by_eq(cs: Seq<char>, i: int) -> bool {
    i + 1 < cs.len() && cs[i + 1] == '='
}

/// The tokens of `cs[i..]`, scanning left to right; unknown characters are dropped.
pub open spec fn lex(cs: Seq<char>, i: int) -> Seq<Token>
    decreases cs.len() - i, 0int,
{
    if i < 0 || i >= cs.len() {
        seq![]
    } else {
        let c = cs[i];
        if is_digit(c) {
            let j = i + 1 + digit_run(cs, i + 1);
            seq![Token::Int(literal_value(digits_number(cs, i, j)))] + lex_after_digits(cs, i + 1)
        } else if c == '<' || c == '>' || c == '=' {
            if followed_by_eq(cs, i) {
                let t = if c == '<' {
                    Token::Lte
                } else if c == '>' {
                    Token::Gte
                } else {
                    Token::Eq
                };
                seq![t] + lex(cs, i + 2)
            } else if c == '<' {
                seq![Token::Lt] + lex(cs, i + 1)
            } else if c == '>' {
                seq![Token::Gt] + lex(cs, i + 1)
            } else {
                lex(cs, i + 1)
            }
        } else {
            match single_char_token(c) {
                Some(t) => seq![t] + lex(cs, i + 1),
                None => lex(cs, i + 1),
            }
        }
    }
}

/// The tokens after the digit run that goes on at `k`.
pub open spec fn lex_after_digits(cs: Seq<char>, k: int) -> Seq<Token>
    decreases cs.len() - k, 1int,
{
    if 0 <= k < cs.len() && is_digit(cs[k]) {
        lex_after_digits(cs, k + 1)
    } else {
        lex(cs, k)
    }
}

/// The token of a character that forms one on its own.
pub open spec fn single_char_token(c: char) -> Option<Token> {
    if c == '+' {
        Some(Token::Plus)
    } else if c == '-' {
        Some(Token::Minus)
    } else if c == '*' {
        Some(Token::Mul)
    } else if c == '/' {
        Some(Token::Div)
    } else if c == '!' {
        Some(Token::Not)
    } else if c == '(' {
        Some(Token::LeftParen)
    } else if c == ')' {
        Some(Token::RightParen)
    } else if c == ';' {
        Some(Token::EndOfStmt)
    } else {
        None
    }
}

/// The tokens of a whole source text.
pub open spec fn tokens_of(src: Seq<char>) -> Seq<Token> {
    lex(src, 0)
}

fn chars_of(src: &str) -> (r: Vec<char>)
    ensures
        r@ == src@,
{
    let mut it = src.chars();
    let mut r: Vec<char> = Vec::new();
    loop
        invariant
            r@ + it.remaining() == src@,
            it.obeys_prophetic_iter_laws(),
            it.decrease() is Some,
        ensures
            r@ == src@,
        decreases it.decrease()->0,
    {
        match it.next() {
            Some(c) => {
                r.push(c);
            },
            None => {
                assert(r@ + it.remaining() =~= r@);
                break;
            },
        }
    }
    r
}

} // verus!

verus! {

/// The `i32` whose two's complement bits are `v`.
fn to_literal(v: u32) -> (r: i32)
    ensures
        r == literal_value(v as nat),
{
    if v < 0x8000_0000 {
        v as i32
    } else {
        let low: u32 = v - 0x8000_0000;
        (low as i32) - 0x7fff_ffff - 1
    }
}

/// Splits source text into tokens.
///
/// A run of decimal digits becomes one `Int` (a run too long for `i32` wraps
/// modulo 2^32); `<=`, `>=` and `==` take two characters, `<` and `>` one; `+ - * / ! ( ) ;`
/// map to their tokens; anything else, including whitespace and a lone `=`, is dropped.
/// Scanning never fails.
pub fn tokenize(src: &str) -> (r: Result<Vec<Token>, Error>)
    ensures
        r matches Ok(v) && v@ == tokens_of(src@),
{
    let cs = chars_of(src);
    let n = cs.len();
    let mut tokens: Vec<Token> = Vec::new();
    let mut i: usize = 0;
    while i < n
        invariant
            n == cs@.len(),
            cs@ == src@,
            i <= n,
            tokens@ + lex(cs@, i as int) == tokens_of(src@),
        decreases n - i,
    {
        let c = cs[i];
        if '0' <= c && c <= '9' {
            let mut acc: u32 = (c as u32) - ('0' as u32);
            let mut k: usize = i + 1;
            assert(digits_number(cs@, i as int, k as int) == digit_value(c)) by {
                assert(digits_number(cs@, i as int, i as int) == 0);
            }
            while k < n && '0' <= cs[k] && cs[k] <= '9'
                invariant
                    n == cs@.len(),
                    i < k <= n,
                    is_digit(cs@[i as int]),
                    lex_after_digits(cs@, i + 1) == lex_after_digits(cs@, k as int),
                    digit_run(cs@, i + 1) == (k - i - 1) + digit_run(cs@, k as int),
                    acc as nat == digits_number(cs@, i as int, k as int) % 0x1_0000_0000,
                decreases n - k,
            {
                let d: u32 = (cs[k] as u32) - ('0' as u32);
                proof {
                    let prev = digits_number(cs@, i as int, k as int);
                    lemma_mul_mod_noop_left(prev as int, 10, 0x1_0000_0000);
                    lemma_add_mod_noop(prev as int * 10, d as int, 0x1_0000_0000);
                    assert(d < 10);
                }
                acc = acc.wrapping_mul(10).wrapping_add(d);
                k = k + 1;
            }
            let value = to_literal(acc);
            proof {
                vstd::arithmetic::div_mod::lemma_mod_twice(
                    digits_number(cs@, i as int, k as int) as int,
                    0x1_0000_0000,
                );
            }
            assert(lex(cs@, i as int) == seq![Token::Int(value)] + lex(cs@, k as int));
            tokens.push(Token::Int(value));
            assert(tokens@ + lex(cs@, k as int) =~= tokens@.drop_last() + lex(cs@, i as int));
            i = k;
        } else {
            let paired = i + 1 < n && cs[i + 1] == '=';
            let mut next: usize = i + 1;
            let tok: Option<Token> = if c == '<' {
                if paired {
                    next = i + 2;
                    Some(Token::Lte)
                } else {
                    Some(Token::Lt)
                }
            } else if c == '>' {
                if paired {
                    next = i + 2;
                    Some(Token::Gte)
                } else {
                    Some(Token::Gt)
                }
            } else if c == '=' {
                if paired {
                    next = i + 2;
                    Some(Token::Eq)
                } else {
                    None
                }
            } else if c == '+' {
                Some(Token::Plus)
            } else if c == '-' {
                Some(Token::Minus)
            } else if c == '*' {
                Some(Token::Mul)
            } else if c == '/' {
                Some(Token::Div)
            } else if c == '!' {
                Some(Token::Not)
            } else if c == '(' {
                Some(Token::LeftParen)
            } else if c == ')' {
                Some(Token::RightParen)
            } else if c == ';' {
                Some(Token::EndOfStmt)
            } else {
                None
            };
            match tok {
                Some(t) => {
                    assert(lex(cs@, i as int) == seq![t] + lex(cs@, next as int));
                    tokens.push(t);
                    assert(tokens@ + lex(cs@, next as int) =~= tokens@.drop_last() + lex(
                        cs@,
                        i as int,
                    ));
                },
                None => {
                    assert(lex(cs@, i as int) == lex(cs@, next as int));
                },
            }
            i = next;
        }
    }
    assert(tokens@ + lex(cs@, i as int) =~= tokens@);
    Ok(tokens)
}

} // verus!
