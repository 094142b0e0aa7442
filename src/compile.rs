use vstd::prelude::*;
use vstd::arithmetic::div_mod::lemma_div_basics;
use crate::ast::Ast;
use crate::token::{Error, Token};

verus! {

/// `|x|`
pub open spec fn abs(x: int) -> nat {
    if x < 0 {
        (-x) as nat
    } else {
        x as nat
    }
}

/// Division rounding toward zero, on mathematical integers.
pub open spec fn quotient_toward_zero(l: int, r: int) -> int {
    let q: int = (abs(l) / abs(r)) as int;
    if (l < 0) == (r < 0) {
        q
    } else {
        -q
    }
}

/// `l / r` on `i32`, truncating; the one overflowing case, `i32::MIN / -1`, wraps to `i32::MIN`.
pub open spec fn div_i32(l: i32, r: i32) -> i32 {
    let q = quotient_toward_zero(l as int, r as int);
    if q > i32::MAX {
        i32::MIN
    } else {
        q as i32
    }
}

/// `1` for true, `0` for false.
pub open spec fn flag(b: bool) -> i32 {
    if b {
        1
    } else {
        0
    }
}

/// What operator `op` makes of the values `l` and `r`.
///
/// `+ - *` wrap on overflow. `Lte` yields the same as `Gte` (`l >= r`): this
/// is the language's defined behaviour and is kept as it is.
pub open spec fn apply(op: Token, l: i32, r: i32) -> Result<i32, Error> {
    match op {
        Token::Plus => Ok(l.wrapping_add(r)),
        Token::Minus => Ok(l.wrapping_sub(r)),
        Token::Mul => Ok(l.wrapping_mul(r)),
        Token::Div => if r == 0 {
            Err(Error::DivisionByZero)
        } else {
            Ok(div_i32(l, r))
        },
        Token::Lte => Ok(flag(l >= r)),
        Token::Lt => Ok(flag(l < r)),
        Token::Gte => Ok(flag(l >= r)),
        Token::Gt => Ok(flag(l > r)),
        Token::Eq => Ok(flag(l == r)),
        _ => Err(Error::InvalidOperator(op)),
    }
}

/// The value of a tree: the left child first, then the right, then the operator.
pub open spec fn eval(ast: Ast) -> Result<i32, Error>
    decreases ast,
{
    match ast {
        Ast::Int(v) => Ok(v),
        Ast::BinOp { lhs, op, rhs } => match eval(*lhs) {
            Err(e) => Err(e),
            Ok(l) => match eval(*rhs) {
                Err(e) => Err(e),
                Ok(r) => apply(op, l, r),
            },
        },
    }
}

fn divide(l: i32, r: i32) -> (q: i32)
    requires
        r != 0,
    ensures
        q == div_i32(l, r),
{
    if r == -1 {
        proof {
            lemma_div_basics(abs(l as int) as int);
        }
        if l == i32::MIN {
            i32::MIN
        } else {
            -l
        }
    } else {
        let a: u32 = if l < 0 { (-(l as i64)) as u32 } else { l as u32 };
        let b: u32 = if r < 0 { (-(r as i64)) as u32 } else { r as u32 };
        let m: u32 = a / b;
        assert(a as nat == abs(l as int) && b as nat == abs(r as int));
        if b == 1 {
            proof {
                lemma_div_basics(a as int);
            }
        } else {
            assert(m <= a / 2) by (nonlinear_arith)
                requires
                    b >= 2,
                    m == a / b,
            ;
        }
        if (l < 0) == (r < 0) {
            m as i32
        } else {
            -(m as i64) as i32
        }
    }
}

fn operate(op: Token, l: i32, r: i32) -> (v: Result<i32, Error>)
    ensures
        v == apply(op, l, r),
{
    match op {
        Token::Plus => Ok(l.wrapping_add(r)),
        Token::Minus => Ok(l.wrapping_sub(r)),
        Token::Mul => Ok(l.wrapping_mul(r)),
        Token::Div => if r == 0 {
            Err(Error::DivisionByZero)
        } else {
            Ok(divide(l, r))
        },
        Token::Lte => Ok(if l >= r { 1 } else { 0 }),
        Token::Lt => Ok(if l < r { 1 } else { 0 }),
        Token::Gte => Ok(if l >= r { 1 } else { 0 }),
        Token::Gt => Ok(if l > r { 1 } else { 0 }),
        Token::Eq => Ok(if l == r { 1 } else { 0 }),
        _ => Err(Error::InvalidOperator(op)),
    }
}

/// Evaluates a tree to an `i32`.
///
/// Arithmetic wraps on overflow, division truncates toward zero and fails on a zero
/// divisor, comparisons give `1` or `0` (with `Lte` computed as `>=`). The first
/// error met, left child before right, is the result.
pub fn compile(ast: &Ast) -> (r: Result<i32, Error>)
    ensures
        r == eval(*ast),
    decreases ast,
{
    match ast {
        Ast::Int(val) => Ok(*val),
        Ast::BinOp { lhs, op, rhs } => {
            let l = match compile(lhs) {
                Ok(v) => v,
                Err(e) => {
                    return Err(e);
                },
            };
            let r = match compile(rhs) {
                Ok(v) => v,
                Err(e) => {
                    return Err(e);
                },
            };
            operate(*op, l, r)
        },
    }
}

} // verus!
