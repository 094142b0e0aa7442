use vstd::prelude::*;
use crate::token::Token;

verus! {

/// A binary expression tree; each node owns its children.
#[derive(Debug, PartialEq, Eq, PartialOrd, Ord)]
pub enum Ast {
    Int(i32),
    BinOp { lhs: Box<Ast>, op: Token, rhs: Box<Ast> },
}

impl Clone for Ast {
    fn clone(&self) -> (r: Self)
        ensures
            r == *self,
        decreases self,
    {
        match self {
            Ast::Int(v) => Ast::Int(*v),
            Ast::BinOp { lhs, op, rhs } => {
                let l: &Ast = lhs;
                let r: &Ast = rhs;
                Ast::BinOp { lhs: Box::new(l.clone()), op: *op, rhs: Box::new(r.clone()) }
            },
        }
    }
}

/// The tree `lhs op rhs`.
pub open spec fn bin(lhs: Ast, op: Token, rhs: Ast) -> Ast {
    Ast::BinOp { lhs: Box::new(lhs), op, rhs: Box::new(rhs) }
}

} // verus!
