use vstd::prelude::*;

verus! {

/// A lexical unit of the expression language.
#[derive(Debug, Clone, Copy, PartialEq, Eq, PartialOrd, Ord, Structural)]
pub enum Token {
    /// An integer literal.
    Int(i32),
    /// `+`
    Plus,
    /// `-`
    Minus,
    /// `*`
    Mul,
    /// `/`
    Div,
    /// `==`
    Eq,
    /// `<=`
    Lte,
    /// `<`
    Lt,
    /// `>=`
    Gte,
    /// `>`
    Gt,
    /// `!`
    Not,
    /// `(`
    LeftParen,
    /// `)`
    RightParen,
    /// `;`
    EndOfStmt,
}

/// Everything that can go wrong between source text and a value.
#[derive(Debug, Clone, Copy, PartialEq, Eq, Structural)]
pub enum Error {
    /// A `)` with no open group before it.
    UnexpectedClosingParen,
    /// A `(` with no `)` after it.
    NoMatchingClosingParen,
    /// The tokens from a `(` up to the first `)` are not balanced.
    InvalidParen,
    /// `()`
    EmptyParen,
    /// A literal right after a complete left-hand operand.
    UnmatchedInt,
    /// An arithmetic operator with nothing on its left.
    MissingLhs,
    /// An arithmetic operator with nothing on its right.
    MissingRhs,
    /// A token that cannot start a right-hand operand.
    InvalidRhs(Token),
    /// A token the parser does not handle (comparisons, `!`, `;`).
    Unsupported(Token),
    /// Division by zero during evaluation.
    DivisionByZero,
    /// A tree node whose operator is not an arithmetic or comparison token.
    InvalidOperator(Token),
}

impl Token {
    pub open spec fn is_additive(self) -> bool {
        self == Token::Plus || self == Token::Minus
    }

    pub open spec fn is_multiplicative(self) -> bool {
        self == Token::Mul || self == Token::Div
    }

    pub open spec fn is_arithmetic(self) -> bool {
        self.is_additive() || self.is_multiplicative()
    }
}

} // verus!
