//! The binary operations on already-evaluated operands: overflow-checked
//! integer arithmetic, comparisons yielding Integer32 0 or 1, and string
//! equality. Every case is specified against `spec_eval_binop`.

use vstd::prelude::*;
use crate::ast::{BinaryOperator, Expression, expr_view, SpecExpr};
use crate::semantics::{abs_int, div_trunc, spec_eval_binop};
use crate::strutil::str_eq;

verus! {

/// How an executable result corresponds to a value or error of the model.
pub open spec fn expr_result_matches(r: Result<Expression, String>, s: Result<
    SpecExpr,
    Seq<char>,
>) -> bool {
    match (r, s) {
        (Ok(e), Ok(v)) => expr_view(e) == v,
        (Err(m), Err(sm)) => m@ == sm,
        _ => false,
    }
}

/// Performs a binary operation on two evaluated operands.
///
/// Integer arithmetic matches native checked arithmetic: an out-of-range sum,
/// difference, product or quotient is an error naming the operation, and a
/// zero divisor is its own error. Comparisons yield Integer32 1 or 0. Two
/// strings may be compared with `==` only; every other combination of
/// operands is an error.
pub fn evaluate_binary_op(op: &BinaryOperator, left: &Expression, right: &Expression) -> (r:
    Result<Expression, String>)
    ensures
        expr_result_matches(r, spec_eval_binop(*op, expr_view(*left), expr_view(*right))),
{
    match (left, right) {
        (Expression::IntegerLiteral(l), Expression::IntegerLiteral(r)) => int_binary_op(
            op,
            *l,
            *r,
        ),
        (Expression::StringLiteral(l), Expression::StringLiteral(r)) => match op {
            BinaryOperator::Equal => Ok(
                Expression::IntegerLiteral(
                    if str_eq(l.as_str(), r.as_str()) {
                        1
                    } else {
                        0
                    },
                ),
            ),
            _ => Err(String::from_str("Binary operations require compatible types")),
        },
        _ => Err(String::from_str("Binary operations require compatible types")),
    }
}

fn int_binary_op(op: &BinaryOperator, l: i32, r: i32) -> (res: Result<Expression, String>)
    ensures
        expr_result_matches(res, spec_eval_binop(*op, SpecExpr::Int(l), SpecExpr::Int(r))),
{
    match op {
        BinaryOperator::Add => {
            let wide = (l as i64) + (r as i64);
            if wide < (i32::MIN as i64) || wide > (i32::MAX as i64) {
                Err(String::from_str("Integer overflow on addition"))
            } else {
                Ok(Expression::IntegerLiteral(wide as i32))
            }
        },
        BinaryOperator::Subtract => {
            let wide = (l as i64) - (r as i64);
            if wide < (i32::MIN as i64) || wide > (i32::MAX as i64) {
                Err(String::from_str("Integer overflow on subtraction"))
            } else {
                Ok(Expression::IntegerLiteral(wide as i32))
            }
        },
        BinaryOperator::Multiply => {
            proof {
                assert((-0x8000_0000_0000_0000 <= (l as int) * (r as int)
                    && (l as int) * (r as int) < 0x8000_0000_0000_0000) && ((l as i64) as int) * ((
                r as i64) as int) == (l as int) * (r as int)) by (nonlinear_arith)
                    requires
                        -0x8000_0000 <= l as int <= 0x7fff_ffff,
                        -0x8000_0000 <= r as int <= 0x7fff_ffff,
                ;
            }
            let wide = (l as i64) * (r as i64);
            if wide < (i32::MIN as i64) || wide > (i32::MAX as i64) {
                Err(String::from_str("Integer overflow on multiplication"))
            } else {
                Ok(Expression::IntegerLiteral(wide as i32))
            }
        },
        BinaryOperator::Divide => {
            if r == 0 {
                Err(String::from_str("Division by zero"))
            } else if l == i32::MIN && r == -1 {
                proof {
                    assert(div_trunc(l as int, r as int) == 0x8000_0000);
                }
                Err(String::from_str("Integer overflow on division"))
            } else {
                let la: u64 = if l >= 0 {
                    l as u64
                } else {
                    (-(l as i64)) as u64
                };
                let rb: u64 = if r >= 0 {
                    r as u64
                } else {
                    (-(r as i64)) as u64
                };
                let q: u64 = la / rb;
                proof {
                    assert(la == abs_int(l as int));
                    assert(rb == abs_int(r as int));
                    assert(q <= la) by (nonlinear_arith)
                        requires
                            rb >= 1,
                            q == la / rb,
                            la >= 0,
                    ;
                    if l == i32::MIN && r < 0 {
                        assert(rb >= 2);
                        assert(q < la) by (nonlinear_arith)
                            requires
                                rb >= 2,
                                q == la / rb,
                                la >= 1,
                        ;
                    }
                }
                let signed: i64 = if (l < 0) != (r < 0) {
                    -(q as i64)
                } else {
                    q as i64
                };
                Ok(Expression::IntegerLiteral(signed as i32))
            }
        },
        BinaryOperator::GreaterThan => Ok(
            Expression::IntegerLiteral(
                if l > r {
                    1
                } else {
                    0
                },
            ),
        ),
        BinaryOperator::LessThan => Ok(
            Expression::IntegerLiteral(
                if l < r {
                    1
                } else {
                    0
                },
            ),
        ),
        BinaryOperator::Equal => Ok(
            Expression::IntegerLiteral(
                if l == r {
                    1
                } else {
                    0
                },
            ),
        ),
    }
}

/// Performs the specified binary operation on two expressions: the same
/// operation table as `evaluate_binary_op`, under the name the library's
/// callers use for it.
pub fn binary_op(op: &BinaryOperator, left: &Expression, right: &Expression) -> (r: Result<
    Expression,
    String,
>)
    ensures
        expr_result_matches(r, spec_eval_binop(*op, expr_view(*left), expr_view(*right))),
{
    evaluate_binary_op(op, left, right)
}

} // verus!
