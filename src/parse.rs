use vstd::prelude::*;
use crate::ast::{bin, Ast};
use crate::helpers::{balanced, valid_paren};
use crate::token::{Error, Token};

verus! {

/// The first `)` at or after `k` and before `hi`, or `hi` when there is none.
pub open spec fn close_from(s: Seq<Token>, k: int, hi: int) -> int
    decreases hi - k,
{
    if k < 0 || k >= hi {
        hi
    } else if s[k] == Token::RightParen {
        k
    } else {
        close_from(s, k + 1, hi)
    }
}

/// Checks the group that opens at `i`: it runs up to the first `)` after it
/// (an inner `(` is not looked for), must be balanced and must not be empty.
/// Gives the position of that `)`.
pub open spec fn extract(s: Seq<Token>, i: int, hi: int) -> Result<int, Error> {
    let j = close_from(s, i + 1, hi);
    if !(i < j < hi) {
        Err(Error::NoMatchingClosingParen)
    } else if !balanced(s.subrange(i, j + 1)) {
        Err(Error::InvalidParen)
    } else if j == i + 1 {
        Err(Error::EmptyParen)
    } else {
        Ok(j)
    }
}

/// The group that opens at `i`, parsed, and the position after its `)`.
pub open spec fn group(s: Seq<Token>, i: int, hi: int) -> Result<(Ast, int), Error>
    decreases hi - i, 0int,
{
    match extract(s, i, hi) {
        Err(e) => Err(e),
        Ok(j) => if i < j < hi {
            match scan(s, i + 1, j, None) {
                Err(e) => Err(e),
                Ok(None) => Err(Error::EmptyParen),
                Ok(Some(t)) => Ok((t, j + 1)),
            }
        } else {
            Err(Error::NoMatchingClosingParen)
        },
    }
}

/// A right-hand operand's first piece: a literal or a group.
pub open spec fn atom(s: Seq<Token>, i: int, hi: int) -> Result<(Ast, int), Error>
    decreases hi - i, 1int,
{
    if i < 0 || i >= hi {
        Err(Error::MissingRhs)
    } else {
        match s[i] {
            Token::Int(x) => Ok((Ast::Int(x), i + 1)),
            Token::LeftParen => group(s, i, hi),
            t => Err(Error::InvalidRhs(t)),
        }
    }
}

/// A chain of operands joined by `*` and `/`, grouped to the right.
pub open spec fn term(s: Seq<Token>, i: int, hi: int) -> Result<(Ast, int), Error>
    decreases hi - i, 2int,
{
    match atom(s, i, hi) {
        Err(e) => Err(e),
        Ok((a, k)) => if i < k < hi && s[k].is_multiplicative() {
            match term(s, k + 1, hi) {
                Err(e) => Err(e),
                Ok((b, m)) => Ok((bin(a, s[k], b), m)),
            }
        } else {
            Ok((a, k))
        },
    }
}

/// A chain of terms joined by `+` and `-`, grouped to the right.
pub open spec fn expr(s: Seq<Token>, i: int, hi: int) -> Result<(Ast, int), Error>
    decreases hi - i, 3int,
{
    match term(s, i, hi) {
        Err(e) => Err(e),
        Ok((a, k)) => if i < k < hi && s[k].is_additive() {
            match expr(s, k + 1, hi) {
                Err(e) => Err(e),
                Ok((b, m)) => Ok((bin(a, s[k], b), m)),
            }
        } else {
            Ok((a, k))
        },
    }
}

/// The main scan over `s[i..hi]` with the tree built so far in `acc`.
///
/// A literal starts the tree; a group starts it too, or is checked and skipped
/// once a tree exists; `+`/`-` join the tree with the expression to its right,
/// `*`/`/` with the term to its right.
pub open spec fn scan(s: Seq<Token>, i: int, hi: int, acc: Option<Ast>) -> Result<Option<Ast>, Error>
    decreases hi - i, 4int,
{
    if i < 0 || i >= hi {
        Ok(acc)
    } else {
        match s[i] {
            Token::RightParen => Err(Error::UnexpectedClosingParen),
            Token::LeftParen => match acc {
                None => match group(s, i, hi) {
                    Err(e) => Err(e),
                    Ok((t, k)) => if i < k <= hi {
                        scan(s, k, hi, Some(t))
                    } else {
                        Ok(Some(t))
                    },
                },
                Some(_) => match extract(s, i, hi) {
                    Err(e) => Err(e),
                    Ok(j) => if i < j < hi {
                        scan(s, j + 1, hi, acc)
                    } else {
                        Ok(acc)
                    },
                },
            },
            Token::Int(x) => match acc {
                None => scan(s, i + 1, hi, Some(Ast::Int(x))),
                Some(_) => Err(Error::UnmatchedInt),
            },
            Token::Plus | Token::Minus | Token::Mul | Token::Div => match acc {
                None => Err(Error::MissingLhs),
                Some(a) => {
                    let op = s[i];
                    let rhs = if op.is_additive() {
                        expr(s, i + 1, hi)
                    } else {
                        term(s, i + 1, hi)
                    };
                    match rhs {
                        Err(e) => Err(e),
                        Ok((b, k)) => if i < k <= hi {
                            scan(s, k, hi, Some(bin(a, op, b)))
                        } else {
                            Ok(Some(bin(a, op, b)))
                        },
                    }
                },
            },
            t => Err(Error::Unsupported(t)),
        }
    }
}

/// The tree of a whole token sequence.
pub open spec fn parse_tokens(s: Seq<Token>) -> Result<Option<Ast>, Error> {
    scan(s, 0, s.len() as int, None)
}

/// Once a tree exists the scan never loses it.
proof fn lemma_scan_keeps_tree(s: Seq<Token>, i: int, hi: int, a: Ast)
    ensures
        scan(s, i, hi, Some(a)) != Ok::<Option<Ast>, Error>(None),
    decreases hi - i,
{
    if 0 <= i < hi {
        match s[i] {
            Token::LeftParen => {
                match extract(s, i, hi) {
                    Ok(j) => if i < j < hi {
                        lemma_scan_keeps_tree(s, j + 1, hi, a);
                    },
                    Err(_) => {},
                }
            },
            Token::Plus | Token::Minus | Token::Mul | Token::Div => {
                let op = s[i];
                let rhs = if op.is_additive() {
                    expr(s, i + 1, hi)
                } else {
                    term(s, i + 1, hi)
                };
                match rhs {
                    Ok((b, k)) => if i < k <= hi {
                        lemma_scan_keeps_tree(s, k, hi, bin(a, op, b));
                    },
                    Err(_) => {},
                }
            },
            _ => {},
        }
    }
}

/// A scan from nothing over a non-empty range gives a tree or an error.
proof fn lemma_scan_nonempty(s: Seq<Token>, i: int, hi: int)
    requires
        0 <= i < hi,
    ensures
        scan(s, i, hi, None) != Ok::<Option<Ast>, Error>(None),
{
    match s[i] {
        Token::LeftParen => {
            match group(s, i, hi) {
                Ok((t, k)) => if i < k <= hi {
                    lemma_scan_keeps_tree(s, k, hi, t);
                },
                Err(_) => {},
            }
        },
        Token::Int(x) => {
            lemma_scan_keeps_tree(s, i + 1, hi, Ast::Int(x));
        },
        _ => {},
    }
}

/// An operand result of the executable parser agrees with the model.
pub open spec fn agrees(r: Result<(Ast, usize), Error>, sp: Result<(Ast, int), Error>) -> bool {
    match r {
        Ok((t, k)) => sp == Ok::<(Ast, int), Error>((t, k as int)),
        Err(e) => sp == Err::<(Ast, int), Error>(e),
    }
}

/// A successful operand parse consumed at least one token and stayed in range.
pub open spec fn advances(r: Result<(Ast, usize), Error>, i: int, hi: int) -> bool {
    r matches Ok((_, k)) ==> i < k <= hi
}

} // verus!

verus! {

fn close_index(tokens: &[Token], start: usize, hi: usize) -> (j: usize)
    requires
        start <= hi <= tokens@.len(),
    ensures
        j as int == close_from(tokens@, start as int, hi as int),
        start <= j <= hi,
{
    let mut k: usize = start;
    while k < hi && tokens[k] != Token::RightParen
        invariant
            start <= k <= hi <= tokens@.len(),
            close_from(tokens@, k as int, hi as int) == close_from(tokens@, start as int, hi as int),
        decreases hi - k,
    {
        k = k + 1;
    }
    k
}

fn extract_group(tokens: &[Token], i: usize, hi: usize) -> (r: Result<usize, Error>)
    requires
        i < hi <= tokens@.len(),
    ensures
        match r {
            Ok(j) => extract(tokens@, i as int, hi as int) == Ok::<int, Error>(j as int) && i < j < hi,
            Err(e) => extract(tokens@, i as int, hi as int) == Err::<int, Error>(e),
        },
{
    let j = close_index(tokens, i + 1, hi);
    if j >= hi {
        return Err(Error::NoMatchingClosingParen);
    }
    let mut run: Vec<Token> = Vec::new();
    let mut k: usize = i;
    while k <= j
        invariant
            i <= k <= j + 1,
            j < hi <= tokens@.len(),
            run@ == tokens@.subrange(i as int, k as int),
        decreases j + 1 - k,
    {
        run.push(tokens[k]);
        assert(run@ =~= tokens@.subrange(i as int, k + 1));
        k = k + 1;
    }
    if !valid_paren(run.as_slice()) {
        return Err(Error::InvalidParen);
    }
    if j == i + 1 {
        return Err(Error::EmptyParen);
    }
    Ok(j)
}

fn parse_group(tokens: &[Token], i: usize, hi: usize) -> (r: Result<(Ast, usize), Error>)
    requires
        i < hi <= tokens@.len(),
    ensures
        agrees(r, group(tokens@, i as int, hi as int)),
        advances(r, i as int, hi as int),
    decreases hi - i, 0int,
{
    let j = match extract_group(tokens, i, hi) {
        Ok(j) => j,
        Err(e) => {
            return Err(e);
        },
    };
    match scan_range(tokens, i + 1, j, None) {
        Ok(Some(t)) => Ok((t, j + 1)),
        Ok(None) => Err(Error::EmptyParen),
        Err(e) => Err(e),
    }
}

fn parse_atom(tokens: &[Token], i: usize, hi: usize) -> (r: Result<(Ast, usize), Error>)
    requires
        i <= hi <= tokens@.len(),
    ensures
        agrees(r, atom(tokens@, i as int, hi as int)),
        advances(r, i as int, hi as int),
    decreases hi - i, 1int,
{
    if i >= hi {
        return Err(Error::MissingRhs);
    }
    match tokens[i] {
        Token::Int(x) => Ok((Ast::Int(x), i + 1)),
        Token::LeftParen => parse_group(tokens, i, hi),
        t => Err(Error::InvalidRhs(t)),
    }
}

fn parse_term(tokens: &[Token], i: usize, hi: usize) -> (r: Result<(Ast, usize), Error>)
    requires
        i <= hi <= tokens@.len(),
    ensures
        agrees(r, term(tokens@, i as int, hi as int)),
        advances(r, i as int, hi as int),
    decreases hi - i, 2int,
{
    let (a, k) = match parse_atom(tokens, i, hi) {
        Ok(p) => p,
        Err(e) => {
            return Err(e);
        },
    };
    if k < hi && (tokens[k] == Token::Mul || tokens[k] == Token::Div) {
        let op = tokens[k];
        match parse_term(tokens, k + 1, hi) {
            Ok((b, m)) => Ok((Ast::BinOp { lhs: Box::new(a), op, rhs: Box::new(b) }, m)),
            Err(e) => Err(e),
        }
    } else {
        Ok((a, k))
    }
}

fn parse_expr(tokens: &[Token], i: usize, hi: usize) -> (r: Result<(Ast, usize), Error>)
    requires
        i <= hi <= tokens@.len(),
    ensures
        agrees(r, expr(tokens@, i as int, hi as int)),
        advances(r, i as int, hi as int),
    decreases hi - i, 3int,
{
    let (a, k) = match parse_term(tokens, i, hi) {
        Ok(p) => p,
        Err(e) => {
            return Err(e);
        },
    };
    if k < hi && (tokens[k] == Token::Plus || tokens[k] == Token::Minus) {
        let op = tokens[k];
        match parse_expr(tokens, k + 1, hi) {
            Ok((b, m)) => Ok((Ast::BinOp { lhs: Box::new(a), op, rhs: Box::new(b) }, m)),
            Err(e) => Err(e),
        }
    } else {
        Ok((a, k))
    }
}

fn scan_range(tokens: &[Token], lo: usize, hi: usize, start: Option<Ast>) -> (r: Result<
    Option<Ast>,
    Error,
>)
    requires
        lo <= hi <= tokens@.len(),
    ensures
        r == scan(tokens@, lo as int, hi as int, start),
    decreases hi - lo, 4int,
{
    let mut acc = start;
    let mut i: usize = lo;
    while i < hi
        invariant
            lo <= i <= hi <= tokens@.len(),
            scan(tokens@, i as int, hi as int, acc) == scan(tokens@, lo as int, hi as int, start),
        decreases hi - i,
    {
        let tok = tokens[i];
        match tok {
            Token::RightParen => {
                return Err(Error::UnexpectedClosingParen);
            },
            Token::LeftParen => {
                match acc {
                    None => {
                        match parse_group(tokens, i, hi) {
                            Ok((t, k)) => {
                                acc = Some(t);
                                i = k;
                            },
                            Err(e) => {
                                return Err(e);
                            },
                        }
                    },
                    Some(a) => {
                        match extract_group(tokens, i, hi) {
                            Ok(j) => {
                                acc = Some(a);
                                i = j + 1;
                            },
                            Err(e) => {
                                return Err(e);
                            },
                        }
                    },
                }
            },
            Token::Int(x) => {
                if acc.is_some() {
                    return Err(Error::UnmatchedInt);
                }
                acc = Some(Ast::Int(x));
                i = i + 1;
            },
            Token::Plus | Token::Minus | Token::Mul | Token::Div => {
                match acc {
                    None => {
                        return Err(Error::MissingLhs);
                    },
                    Some(a) => {
                        let rhs = if tok == Token::Plus || tok == Token::Minus {
                            parse_expr(tokens, i + 1, hi)
                        } else {
                            parse_term(tokens, i + 1, hi)
                        };
                        match rhs {
                            Ok((b, k)) => {
                                acc = Some(Ast::BinOp { lhs: Box::new(a), op: tok, rhs: Box::new(b) });
                                i = k;
                            },
                            Err(e) => {
                                return Err(e);
                            },
                        }
                    },
                }
            },
            _ => {
                return Err(Error::Unsupported(tok));
            },
        }
    }
    Ok(acc)
}

/// Builds the expression tree of a token sequence.
///
/// Gives `Ok(None)` for an empty sequence. A group `( ... )` reaches to the
/// first `)`; `*` and `/` bind tighter than `+` and `-`; a chain of operators of
/// the same strength groups to the right (`10 - 2 - 3` is `10 - (2 - 3)`).
/// Comparisons, `!` and `;` are not parsed and give `Unsupported`.
pub fn parse(tokens: &[Token]) -> (r: Result<Option<Ast>, Error>)
    ensures
        r == parse_tokens(tokens@),
        r == Ok::<Option<Ast>, Error>(None) <==> tokens@.len() == 0,
{
    if tokens.len() > 0 {
        proof {
            lemma_scan_nonempty(tokens@, 0, tokens@.len() as int);
        }
    }
    scan_range(tokens, 0, tokens.len(), None)
}

} // verus!
