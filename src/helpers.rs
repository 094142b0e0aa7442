use vstd::prelude::*;
use crate::token::Token;

verus! {

/// How much a single token changes the nesting depth.
pub open spec fn paren_step(t: Token) -> int {
    match t {
        Token::LeftParen => 1,
        Token::RightParen => -1,
        _ => 0,
    }
}

/// Number of open groups minus number of closed groups in `s`.
pub open spec fn depth(s: Seq<Token>) -> int
    decreases s.len(),
{
    if s.len() == 0 {
        0
    } else {
        depth(s.drop_last()) + paren_step(s.last())
    }
}

/// Every `)` closes an earlier open `(`, and every `(` is closed.
pub open spec fn balanced(s: Seq<Token>) -> bool {
    &&& forall|k: int| 0 <= k <= s.len() ==> depth(#[trigger] s.take(k)) >= 0
    &&& depth(s) == 0
}

/// Checks that the parentheses in `tok` are properly matched; other tokens are ignored.
pub fn valid_paren(tok: &[Token]) -> (r: bool)
    ensures
        r == balanced(tok@),
{
    let mut open: usize = 0;
    let mut i: usize = 0;
    while i < tok.len()
        invariant
            i <= tok.len(),
            open <= i,
            open == depth(tok@.take(i as int)),
            forall|k: int| 0 <= k <= i ==> depth(#[trigger] tok@.take(k)) >= 0,
        decreases tok.len() - i,
    {
        assert(tok@.take(i + 1).drop_last() =~= tok@.take(i as int));
        match tok[i] {
            Token::LeftParen => {
                open = open + 1;
            },
            Token::RightParen => {
                if open == 0 {
                    assert(depth(tok@.take(i + 1)) < 0);
                    return false;
                }
                open = open - 1;
            },
            _ => {},
        }
        i = i + 1;
    }
    assert(tok@.take(i as int) =~= tok@);
    open == 0
}

} // verus!
