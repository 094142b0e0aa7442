use compiler::ast::Ast;
use compiler::compile::compile;
use compiler::helpers::valid_paren;
use compiler::parse::parse;
use compiler::token::{Error, Token};
use compiler::tokenize::tokenize;

fn tree(src: &str) -> Result<Option<Ast>, Error> {
    parse(&tokenize(src).unwrap())
}

fn compute(src: &str) -> Result<i32, Error> {
    compile(&tree(src)?.unwrap())
}

fn lit(v: i32) -> Box<Ast> {
    Box::new(Ast::Int(v))
}

fn node(lhs: Box<Ast>, op: Token, rhs: Box<Ast>) -> Box<Ast> {
    Box::new(Ast::BinOp { lhs, op, rhs })
}

#[test]
fn tokenize_long_literals() {
    assert_eq!(
        tokenize("3121254 + 1451252").unwrap(),
        vec![Token::Int(3121254), Token::Plus, Token::Int(1451252)]
    );
}

#[test]
fn tokenize_mixed_operators() {
    assert_eq!(
        tokenize("3 + 2 * 6").unwrap(),
        vec![Token::Int(3), Token::Plus, Token::Int(2), Token::Mul, Token::Int(6)]
    );
}

#[test]
fn tokenize_parentheses_and_whitespace() {
    let expected = vec![
        Token::LeftParen,
        Token::Int(3),
        Token::Plus,
        Token::Int(2),
        Token::RightParen,
        Token::Mul,
        Token::Int(6),
    ];
    assert_eq!(tokenize("(3 + 2) * 6").unwrap(), expected);
    assert_eq!(tokenize("\n\t  (  3 + 2\t) \n* \t   6   ").unwrap(), expected);
}

#[test]
fn tokenize_comparisons_and_markers() {
    assert_eq!(
        tokenize("<= < >= > == ! ;").unwrap(),
        vec![
            Token::Lte,
            Token::Lt,
            Token::Gte,
            Token::Gt,
            Token::Eq,
            Token::Not,
            Token::EndOfStmt
        ]
    );
    assert_eq!(tokenize("<=<").unwrap(), vec![Token::Lte, Token::Lt]);
}

#[test]
fn tokenize_drops_unknown_characters() {
    assert_eq!(tokenize("a = 1 # x").unwrap(), vec![Token::Int(1)]);
    assert_eq!(tokenize("").unwrap(), vec![]);
    assert_eq!(tokenize("-5").unwrap(), vec![Token::Minus, Token::Int(5)]);
}

#[test]
fn tokenize_wraps_oversized_literals() {
    assert_eq!(tokenize("2147483647").unwrap(), vec![Token::Int(i32::MAX)]);
    assert_eq!(tokenize("2147483648").unwrap(), vec![Token::Int(i32::MIN)]);
    assert_eq!(tokenize("4294967297").unwrap(), vec![Token::Int(1)]);
    assert_eq!(tokenize("007").unwrap(), vec![Token::Int(7)]);
}

#[test]
fn tokenize_rendered_tokens_again() {
    let tokens = tokenize("(12+3)*4<=5;!6==7>8>=9<10-11/0").unwrap();
    let rendered = "( 12 + 3 ) * 4 <= 5 ; ! 6 == 7 > 8 >= 9 < 10 - 11 / 0 ";
    assert_eq!(tokenize(rendered).unwrap(), tokens);
}

#[test]
fn valid_paren_matches_pairs() {
    let (l, r) = (Token::LeftParen, Token::RightParen);
    let one = Token::Int(1);
    assert!(valid_paren(&[]));
    assert!(valid_paren(&[l, one, r]));
    assert!(valid_paren(&[l, l, r, r, l, r]));
    assert!(!valid_paren(&[l]));
    assert!(!valid_paren(&[r]));
    assert!(!valid_paren(&[r, l]));
    assert!(!valid_paren(&[l, r, r, l]));
}

#[test]
fn parse_precedence_tree() {
    assert_eq!(
        tree("3 + 2 * 6").unwrap().unwrap(),
        *node(lit(3), Token::Plus, node(lit(2), Token::Mul, lit(6)))
    );
}

#[test]
fn parse_group_tree() {
    assert_eq!(
        tree("(3 + 2) * 6").unwrap().unwrap(),
        *node(node(lit(3), Token::Plus, lit(2)), Token::Mul, lit(6))
    );
}

#[test]
fn parse_empty_source_is_none() {
    assert_eq!(tree(""), Ok(None));
    assert_eq!(tree("   "), Ok(None));
}

#[test]
fn parse_unmatched_open_fails() {
    assert_eq!(tree("(3 + 2"), Err(Error::NoMatchingClosingParen));
}

#[test]
fn parse_unmatched_close_fails() {
    assert_eq!(tree(")"), Err(Error::UnexpectedClosingParen));
}

#[test]
fn parse_empty_group_fails() {
    assert_eq!(tree("()"), Err(Error::EmptyParen));
}

#[test]
fn parse_nested_group_is_invalid() {
    assert_eq!(tree("(4 + (2 * 3)) * 6"), Err(Error::InvalidParen));
}

#[test]
fn parse_operand_errors() {
    assert_eq!(tree("3 4"), Err(Error::UnmatchedInt));
    assert_eq!(tree("+ 3"), Err(Error::MissingLhs));
    assert_eq!(tree("3 +"), Err(Error::MissingRhs));
    assert_eq!(tree("3 * 2 *"), Err(Error::MissingRhs));
    assert_eq!(tree("3 + )"), Err(Error::InvalidRhs(Token::RightParen)));
    assert_eq!(tree("3 + -"), Err(Error::InvalidRhs(Token::Minus)));
}

#[test]
fn parse_comparison_is_unsupported() {
    assert_eq!(
        tokenize("5 <= 5").unwrap(),
        vec![Token::Int(5), Token::Lte, Token::Int(5)]
    );
    assert_eq!(tree("5 <= 5"), Err(Error::Unsupported(Token::Lte)));
    assert_eq!(tree("!"), Err(Error::Unsupported(Token::Not)));
    assert_eq!(tree("1;"), Err(Error::Unsupported(Token::EndOfStmt)));
}

#[test]
fn parse_group_after_tree_is_skipped() {
    assert_eq!(tree("3 (4)").unwrap().unwrap(), Ast::Int(3));
    assert_eq!(tree("3 ()"), Err(Error::EmptyParen));
}

#[test]
fn compute_precedence() {
    assert_eq!(compute("3 + 2 * 6"), Ok(15));
}

#[test]
fn compute_group() {
    assert_eq!(compute("(3 + 2) * 6"), Ok(30));
    assert_eq!(compute("2 * (3 + 4)"), Ok(14));
    assert_eq!(compute("1 + (2) * 3"), Ok(7));
}

#[test]
fn compute_subtraction_chain_groups_right() {
    assert_eq!(compute("10 - 2 - 3"), Ok(11));
}

#[test]
fn compute_division_chain_groups_right() {
    assert_eq!(compute("8 / 4 / 2"), Ok(4));
    assert_eq!(compute("2 * 3 + 4 * 5 - 1"), Ok(25));
}

#[test]
fn compute_division_by_zero() {
    assert_eq!(compute("4 / 0"), Err(Error::DivisionByZero));
    assert_eq!(compute("(1 / 0) + 2"), Err(Error::DivisionByZero));
}

#[test]
fn compute_division_truncates() {
    assert_eq!(compute("7 / 2"), Ok(3));
    assert_eq!(compute("0 - 7 / 2"), Ok(-3));
    let neg = Ast::BinOp { lhs: lit(-7), op: Token::Div, rhs: lit(2) };
    assert_eq!(compile(&neg), Ok(-3));
    let both = Ast::BinOp { lhs: lit(-7), op: Token::Div, rhs: lit(-2) };
    assert_eq!(compile(&both), Ok(3));
    let edge = Ast::BinOp { lhs: lit(i32::MIN), op: Token::Div, rhs: lit(-1) };
    assert_eq!(compile(&edge), Ok(i32::MIN));
}

#[test]
fn compute_wraps_on_overflow() {
    assert_eq!(compute("2147483647 + 1"), Ok(i32::MIN));
    assert_eq!(compute("0 - 2147483647 - 2"), Ok(-2147483645));
    assert_eq!(compute("(0 - 2147483647) - 2"), Ok(i32::MAX));
    assert_eq!(compute("65536 * 65536"), Ok(0));
}

#[test]
fn compile_comparisons() {
    let cmp = |l: i32, op: Token, r: i32| compile(&Ast::BinOp { lhs: lit(l), op, rhs: lit(r) });
    assert_eq!(cmp(5, Token::Lte, 5), Ok(1));
    assert_eq!(cmp(5, Token::Gte, 5), Ok(1));
    assert_eq!(cmp(3, Token::Lte, 5), Ok(0));
    assert_eq!(cmp(3, Token::Gte, 5), Ok(0));
    assert_eq!(cmp(3, Token::Lt, 5), Ok(1));
    assert_eq!(cmp(3, Token::Gt, 5), Ok(0));
    assert_eq!(cmp(3, Token::Eq, 3), Ok(1));
    assert_eq!(cmp(3, Token::Eq, 4), Ok(0));
}

#[test]
fn compile_rejects_non_operator_node() {
    let bad = Ast::BinOp { lhs: lit(1), op: Token::LeftParen, rhs: lit(2) };
    assert_eq!(compile(&bad), Err(Error::InvalidOperator(Token::LeftParen)));
    let bad_rhs = Ast::BinOp { lhs: lit(1), op: Token::Plus, rhs: Box::new(bad) };
    assert_eq!(compile(&bad_rhs), Err(Error::InvalidOperator(Token::LeftParen)));
}

#[test]
fn clone_copies_the_tree() {
    let t = tree("(3 + 2) * 6 - 1").unwrap().unwrap();
    let c = t.clone();
    assert_eq!(c, t);
    assert_eq!(compile(&c), Ok(29));
}
