use vstd::prelude::*;
use crate::ast::{bin, Ast};
use crate::parse::{atom, expr, parse_tokens, scan, term};
use crate::token::{Error, Token};
use crate::render::{law_rendered_tokens_scan_back, render, renderable};
use crate::tokenize::tokens_of;

verus! {

/// Literals at the even positions, arithmetic operators at the odd ones,
/// a literal at each end: an expression without parentheses.
pub open spec fn is_flat(s: Seq<Token>) -> bool {
    &&& s.len() % 2 == 1
    &&& forall|k: int| 0 <= k < s.len() && k % 2 == 0 ==> (#[trigger] s[k]) is Int
    &&& forall|k: int| 0 <= k < s.len() && k % 2 == 1 ==> (#[trigger] s[k]).is_arithmetic()
}

/// The leaf of a literal token.
pub open spec fn leaf(t: Token) -> Ast {
    match t {
        Token::Int(x) => Ast::Int(x),
        _ => Ast::Int(0),
    }
}

/// The first `+` or `-` at or after `i` and before `hi`, or `hi`.
pub open spec fn first_additive(s: Seq<Token>, i: int, hi: int) -> int
    decreases hi - i,
{
    if i < 0 || i >= hi {
        hi
    } else if s[i].is_additive() {
        i
    } else {
        first_additive(s, i + 1, hi)
    }
}

/// The product `s[i] op s[i+2] op ... ` that ends before `k`, grouped to the right.
pub open spec fn product_tree(s: Seq<Token>, i: int, k: int) -> Ast
    decreases k - i,
{
    if i + 1 >= k {
        leaf(s[i])
    } else {
        bin(leaf(s[i]), s[i + 1], product_tree(s, i + 2, k))
    }
}

/// The usual reading of a flat expression: products bind tighter than sums,
/// and both kinds of chain group to the right.
pub open spec fn sum_tree(s: Seq<Token>, i: int, hi: int) -> Ast
    decreases hi - i,
{
    let k = first_additive(s, i, hi);
    if i <= k < hi {
        bin(product_tree(s, i, k), s[k], sum_tree(s, k + 1, hi))
    } else {
        product_tree(s, i, hi)
    }
}

proof fn lemma_first_additive_range(s: Seq<Token>, i: int, hi: int)
    requires
        0 <= i <= hi,
    ensures
        i <= first_additive(s, i, hi) <= hi,
        first_additive(s, i, hi) < hi ==> s[first_additive(s, i, hi)].is_additive(),
    decreases hi - i,
{
    if i < hi && !s[i].is_additive() {
        lemma_first_additive_range(s, i + 1, hi);
    }
}

proof fn lemma_term_flat(s: Seq<Token>, i: int)
    requires
        is_flat(s),
        0 <= i < s.len(),
        i % 2 == 0,
    ensures
        term(s, i, s.len() as int) == Ok::<(Ast, int), Error>(
            (product_tree(s, i, first_additive(s, i, s.len() as int)), first_additive(s, i, s.len() as int)),
        ),
        first_additive(s, i, s.len() as int) % 2 == 1 || first_additive(s, i, s.len() as int) == s.len(),
    decreases s.len() - i,
{
    let hi = s.len() as int;
    assert(s[i] is Int);
    assert(atom(s, i, hi) == Ok::<(Ast, int), Error>((leaf(s[i]), i + 1)));
    assert(first_additive(s, i, hi) == first_additive(s, i + 1, hi));
    if i + 1 < hi {
        assert(s[i + 1].is_arithmetic());
    }
    if i + 1 < hi && s[i + 1].is_multiplicative() {
        assert(s[i + 2] is Int);
        lemma_term_flat(s, i + 2);
        assert(first_additive(s, i + 1, hi) == first_additive(s, i + 2, hi));
        lemma_first_additive_range(s, i + 2, hi);
        let k = first_additive(s, i + 2, hi);
        assert(term(s, i + 2, hi) == Ok::<(Ast, int), Error>((product_tree(s, i + 2, k), k)));
        assert(product_tree(s, i, k) == bin(leaf(s[i]), s[i + 1], product_tree(s, i + 2, k)));
    } else if i + 1 < hi {
        assert(s[i + 1].is_additive());
        assert(first_additive(s, i + 1, hi) == i + 1);
        assert(product_tree(s, i, i + 1) == leaf(s[i]));
    } else {
        assert(first_additive(s, i + 1, hi) == hi);
        assert(product_tree(s, i, hi) == leaf(s[i]));
    }
}

proof fn lemma_expr_flat(s: Seq<Token>, i: int)
    requires
        is_flat(s),
        0 <= i < s.len(),
        i % 2 == 0,
    ensures
        expr(s, i, s.len() as int) == Ok::<(Ast, int), Error>((sum_tree(s, i, s.len() as int), s.len() as int)),
    decreases s.len() - i,
{
    let hi = s.len() as int;
    lemma_term_flat(s, i);
    lemma_first_additive_range(s, i, hi);
    let k = first_additive(s, i, hi);
    assert(term(s, i, hi) == Ok::<(Ast, int), Error>((product_tree(s, i, k), k)));
    if k < hi {
        assert(k + 1 < hi);
        lemma_expr_flat(s, k + 1);
        assert(expr(s, k + 1, hi) == Ok::<(Ast, int), Error>((sum_tree(s, k + 1, hi), hi)));
        assert(sum_tree(s, i, hi) == bin(product_tree(s, i, k), s[k], sum_tree(s, k + 1, hi)));
    } else {
        assert(sum_tree(s, i, hi) == product_tree(s, i, hi));
    }
}

/// Without parentheses, `*` and `/` bind tighter than `+` and `-`, and a chain
/// of operators of the same strength groups to the right: the parser builds
/// exactly that tree for every literal/operator alternation.
pub proof fn law_flat_expressions_group_by_strength(s: Seq<Token>)
    requires
        is_flat(s),
    ensures
        parse_tokens(s) == Ok::<Option<Ast>, Error>(Some(sum_tree(s, 0, s.len() as int))),
{
    let hi = s.len() as int;
    assert(s[0] is Int);
    let a = leaf(s[0]);
    assert(scan(s, 0, hi, None) == scan(s, 1, hi, Some(a)));
    lemma_first_additive_range(s, 0, hi);
    if hi == 1 {
        assert(sum_tree(s, 0, hi) == a);
    } else {
        let op = s[1];
        assert(op.is_arithmetic());
        assert(first_additive(s, 0, hi) == first_additive(s, 1, hi));
        assert(s[2] is Int);
        if op.is_additive() {
            lemma_expr_flat(s, 2);
            let rest = sum_tree(s, 2, hi);
            assert(scan(s, hi, hi, Some(bin(a, op, rest))) == Ok::<Option<Ast>, Error>(
                Some(bin(a, op, rest)),
            ));
            assert(scan(s, 1, hi, Some(a)) == scan(s, hi, hi, Some(bin(a, op, rest))));
            assert(first_additive(s, 1, hi) == 1);
            assert(sum_tree(s, 0, hi) == bin(product_tree(s, 0, 1), op, rest));
        } else {
            lemma_term_flat(s, 2);
            lemma_first_additive_range(s, 2, hi);
            let k = first_additive(s, 2, hi);
            assert(first_additive(s, 1, hi) == k);
            let p = bin(a, op, product_tree(s, 2, k));
            assert(scan(s, 1, hi, Some(a)) == scan(s, k, hi, Some(p)));
            assert(product_tree(s, 0, k) == p);
            if k < hi {
                assert(k + 1 < hi);
                lemma_expr_flat(s, k + 1);
                let rest = sum_tree(s, k + 1, hi);
                assert(scan(s, k, hi, Some(p)) == scan(s, hi, hi, Some(bin(p, s[k], rest))));
                assert(scan(s, hi, hi, Some(bin(p, s[k], rest))) == Ok::<Option<Ast>, Error>(
                    Some(bin(p, s[k], rest)),
                ));
                assert(sum_tree(s, 0, hi) == bin(p, s[k], rest));
            } else {
                assert(sum_tree(s, 0, hi) == p);
            }
        }
    }
}

/// Empty source text gives no tree and no error.
pub proof fn law_empty_source_gives_no_tree()
    ensures
        parse_tokens(tokens_of(Seq::<char>::empty())) == Ok::<Option<Ast>, Error>(None),
{
}

/// The same holds from source text: the canonical text of a flat expression
/// scans and parses to the tree in which products bind tighter than sums and
/// chains group to the right.
pub proof fn law_flat_source_groups_by_strength(ts: Seq<Token>)
    requires
        is_flat(ts),
        forall|k: int| 0 <= k < ts.len() ==> renderable(#[trigger] ts[k]),
    ensures
        parse_tokens(tokens_of(render(ts))) == Ok::<Option<Ast>, Error>(
            Some(sum_tree(ts, 0, ts.len() as int)),
        ),
{
    law_rendered_tokens_scan_back(ts);
    law_flat_expressions_group_by_strength(ts);
}

} // verus!
