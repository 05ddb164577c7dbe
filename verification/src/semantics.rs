//! The mathematical model of evaluation: a fuel-bounded, big-step semantics
//! over the ghost mirrors of the AST. The executable evaluator is specified
//! to return exactly what these functions return.
//!
//! Values are the literal mirrors `SpecExpr::Int` and `SpecExpr::Str`; a
//! frame's variable state is a map from name to value; errors are the
//! descriptive texts that evaluation reports. Fuel bounds the depth of
//! user-function calls and decreases only there: within one call frame the
//! recursion follows the structure of the tree.

use vstd::prelude::*;
use crate::ast::{
    BinaryOperator, SpecExpr, SpecFun, SpecStmt, Type, spec_expr_height, spec_exprs_height,
    spec_stmt_height, spec_stmts_height,
};
use crate::environment::spec_fun_lookup;
use crate::strutil::{spec_dec_digits, spec_int_dec};

verus! {

/// A frame's variable bindings, as the evaluator's contracts see them.
pub type SpecVars = Map<Seq<char>, SpecExpr>;

/// Truncated division, as the hardware divides: the quotient is rounded
/// toward zero.
pub open spec fn div_trunc(a: int, b: int) -> int {
    let q = abs_int(a) / abs_int(b);
    if (a < 0) != (b < 0) {
        -q
    } else {
        q
    }
}

pub open spec fn abs_int(a: int) -> int {
    if a < 0 {
        -a
    } else {
        a
    }
}

/// What a binary operator yields on two already-evaluated operands: checked
/// arithmetic on two integers, comparisons yielding 0 or 1, string equality,
/// and an error for every other combination.
pub open spec fn spec_eval_binop(op: BinaryOperator, l: SpecExpr, r: SpecExpr) -> Result<
    SpecExpr,
    Seq<char>,
> {
    match (l, r) {
        (SpecExpr::Int(a), SpecExpr::Int(b)) => match op {
            BinaryOperator::Add => if i32::MIN <= a + b <= i32::MAX {
                Ok(SpecExpr::Int((a + b) as i32))
            } else {
                Err("Integer overflow on addition"@)
            },
            BinaryOperator::Subtract => if i32::MIN <= a - b <= i32::MAX {
                Ok(SpecExpr::Int((a - b) as i32))
            } else {
                Err("Integer overflow on subtraction"@)
            },
            BinaryOperator::Multiply => if i32::MIN <= a * b <= i32::MAX {
                Ok(SpecExpr::Int((a * b) as i32))
            } else {
                Err("Integer overflow on multiplication"@)
            },
            BinaryOperator::Divide => if b == 0 {
                Err("Division by zero"@)
            } else if i32::MIN <= div_trunc(a as int, b as int) <= i32::MAX {
                Ok(SpecExpr::Int(div_trunc(a as int, b as int) as i32))
            } else {
                Err("Integer overflow on division"@)
            },
            BinaryOperator::GreaterThan => Ok(SpecExpr::Int(if a > b { 1 } else { 0 })),
            BinaryOperator::LessThan => Ok(SpecExpr::Int(if a < b { 1 } else { 0 })),
            BinaryOperator::Equal => Ok(SpecExpr::Int(if a == b { 1 } else { 0 })),
        },
        (SpecExpr::Str(x), SpecExpr::Str(y)) => match op {
            BinaryOperator::Equal => Ok(SpecExpr::Int(if x == y { 1 } else { 0 })),
            _ => Err("Binary operations require compatible types"@),
        },
        _ => Err("Binary operations require compatible types"@),
    }
}

/// Truthiness: a condition value must be an integer; zero is false, any
/// nonzero value is true. Every other value kind is an error.
pub open spec fn spec_truthy(v: SpecExpr) -> Result<bool, Seq<char>> {
    match v {
        SpecExpr::Int(i) => Ok(i != 0),
        _ => Err("Invalid type for condition expression; expected i32"@),
    }
}

pub open spec fn msg_var_not_found(n: Seq<char>) -> Seq<char> {
    "Variable '"@ + n + "' not found"@
}

pub open spec fn msg_fun_not_found(n: Seq<char>) -> Seq<char> {
    "Function '"@ + n + "' not found"@
}

pub open spec fn msg_arity(expected: nat, got: nat) -> Seq<char> {
    "Expected "@ + spec_dec_digits(expected) + " arguments but got "@ + spec_dec_digits(got)
}

pub open spec fn msg_depth_exceeded() -> Seq<char> {
    "Maximum call depth exceeded"@
}

pub open spec fn msg_no_return() -> Seq<char> {
    "Function did not return a value"@
}

/// The frame that a call starts in: each parameter name bound, left to
/// right, to the corresponding argument value.
pub open spec fn spec_bind_params(params: Seq<(Seq<char>, Type)>, vals: Seq<SpecExpr>) -> SpecVars
    decreases params.len(),
{
    if params.len() == 0 || vals.len() == 0 {
        Map::empty()
    } else {
        spec_bind_params(params.drop_last(), vals.drop_last()).insert(
            params.last().0,
            vals.last(),
        )
    }
}

/// What evaluating an expression yields: a value, or the first error.
pub open spec fn spec_eval_expr(
    fns: Seq<SpecFun>,
    vars: SpecVars,
    e: SpecExpr,
    fuel: nat,
) -> Result<SpecExpr, Seq<char>>
    decreases fuel, spec_expr_height(e), 0int,
{
    match e {
        SpecExpr::Int(_) => Ok(e),
        SpecExpr::Str(_) => Ok(e),
        SpecExpr::Var(n) => if vars.contains_key(n) {
            Ok(vars[n])
        } else {
            Err(msg_var_not_found(n))
        },
        SpecExpr::Bin(op, l, r) => match spec_eval_expr(fns, vars, *l, fuel) {
            Ok(lv) => match spec_eval_expr(fns, vars, *r, fuel) {
                Ok(rv) => spec_eval_binop(op, lv, rv),
                Err(m) => Err(m),
            },
            Err(m) => Err(m),
        },
        SpecExpr::Call(name, args) => if name == "int_to_string"@ {
            if args.len() != 1 {
                Err("int_to_string expects exactly one argument"@)
            } else {
                proof {
                    crate::ast::lemma_exprs_height_elem(args, 0);
                }
                match spec_eval_expr(fns, vars, args[0], fuel) {
                    Ok(SpecExpr::Int(i)) => Ok(SpecExpr::Str(spec_int_dec(i as int))),
                    Ok(_) => Err("int_to_string expects an integer argument"@),
                    Err(m) => Err(m),
                }
            }
        } else {
            match spec_eval_exprs(fns, vars, args, fuel) {
                Ok(vals) => match spec_fun_lookup(fns, name) {
                    Some(f) => if fuel == 0 {
                        Err(msg_depth_exceeded())
                    } else {
                        spec_eval_call(fns, f, vals, (fuel - 1) as nat)
                    },
                    None => Err(msg_fun_not_found(name)),
                },
                Err(m) => Err(m),
            }
        },
    }
}

/// Evaluates a sequence of argument expressions left to right, stopping at
/// the first error.
pub open spec fn spec_eval_exprs(
    fns: Seq<SpecFun>,
    vars: SpecVars,
    es: Seq<SpecExpr>,
    fuel: nat,
) -> Result<Seq<SpecExpr>, Seq<char>>
    decreases fuel, spec_exprs_height(es), 1int,
{
    if es.len() == 0 {
        Ok(Seq::empty())
    } else {
        proof {
            crate::ast::lemma_expr_height_pos(es[0]);
        }
        match spec_eval_expr(fns, vars, es[0], fuel) {
            Ok(v) => match spec_eval_exprs(fns, vars, es.drop_first(), fuel) {
                Ok(vs) => Ok(seq![v] + vs),
                Err(m) => Err(m),
            },
            Err(m) => Err(m),
        }
    }
}

/// Calls a function on already-evaluated argument values, with `fuel` as the
/// budget for its body: arity check, a fresh frame with parameters bound,
/// the body run in order, and an error if the body completes without a
/// `Return`.
pub open spec fn spec_eval_call(
    fns: Seq<SpecFun>,
    f: SpecFun,
    vals: Seq<SpecExpr>,
    fuel: nat,
) -> Result<SpecExpr, Seq<char>>
    decreases fuel, spec_stmts_height(f.body) + 1, 0int,
{
    if vals.len() != f.params.len() {
        Err(msg_arity(f.params.len(), vals.len()))
    } else {
        match spec_eval_stmts(fns, spec_bind_params(f.params, vals), f.body, fuel) {
            Ok((_, Some(v))) => Ok(v),
            Ok((_, None)) => Err(msg_no_return()),
            Err(m) => Err(m),
        }
    }
}

/// Runs statements in order, threading the variable state; a `Return` value
/// short-circuits the remainder.
pub open spec fn spec_eval_stmts(
    fns: Seq<SpecFun>,
    vars: SpecVars,
    ss: Seq<SpecStmt>,
    fuel: nat,
) -> Result<(SpecVars, Option<SpecExpr>), Seq<char>>
    decreases fuel, spec_stmts_height(ss), 1int,
{
    if ss.len() == 0 {
        Ok((vars, None))
    } else {
        proof {
            crate::ast::lemma_stmt_height_pos(ss[0]);
        }
        match spec_eval_stmt(fns, vars, ss[0], fuel) {
            Ok((v2, Some(r))) => Ok((v2, Some(r))),
            Ok((v2, None)) => spec_eval_stmts(fns, v2, ss.drop_first(), fuel),
            Err(m) => Err(m),
        }
    }
}

/// Executes one statement: what it does to the variable state, and whether
/// it produces a `Return` value.
pub open spec fn spec_eval_stmt(
    fns: Seq<SpecFun>,
    vars: SpecVars,
    s: SpecStmt,
    fuel: nat,
) -> Result<(SpecVars, Option<SpecExpr>), Seq<char>>
    decreases fuel, spec_stmt_height(s), 0int,
{
    match s {
        SpecStmt::Decl(name, _ty, e) => match spec_eval_expr(fns, vars, e, fuel) {
            Ok(v) => Ok((vars.insert(name, v), None)),
            Err(m) => Err(m),
        },
        SpecStmt::Return(e) => match spec_eval_expr(fns, vars, e, fuel) {
            Ok(v) => Ok((vars, Some(v))),
            Err(m) => Err(m),
        },
        SpecStmt::If(c, t, els) => match spec_eval_expr(fns, vars, c, fuel) {
            Ok(cv) => match spec_truthy(cv) {
                Ok(true) => spec_eval_stmts(fns, vars, t, fuel),
                Ok(false) => match els {
                    Some(eb) => spec_eval_stmts(fns, vars, eb, fuel),
                    None => Ok((vars, None)),
                },
                Err(m) => Err(m),
            },
            Err(m) => Err(m),
        },
        SpecStmt::Call(name, args) => if name == "print"@ {
            if args.len() != 1 {
                Err("print expects exactly one argument"@)
            } else {
                match spec_eval_expr(fns, vars, args[0], fuel) {
                    Ok(SpecExpr::Str(_)) => Ok((vars, None)),
                    Ok(SpecExpr::Int(_)) => Ok((vars, None)),
                    Ok(_) => Err("print expects a string or integer argument"@),
                    Err(m) => Err(m),
                }
            }
        } else if name == "int_to_string"@ {
            if args.len() != 1 {
                Err("int_to_string expects exactly one argument"@)
            } else {
                match spec_eval_expr(fns, vars, args[0], fuel) {
                    Ok(SpecExpr::Int(_)) => Ok((vars, None)),
                    Ok(_) => Err("int_to_string expects an integer argument"@),
                    Err(m) => Err(m),
                }
            }
        } else {
            match spec_eval_exprs(fns, vars, args, fuel) {
                Ok(vals) => match spec_fun_lookup(fns, name) {
                    Some(f) => if fuel == 0 {
                        Err(msg_depth_exceeded())
                    } else {
                        match spec_eval_call(fns, f, vals, (fuel - 1) as nat) {
                            Ok(_) => Ok((vars, None)),
                            Err(m) => Err(m),
                        }
                    },
                    None => Err(msg_fun_not_found(name)),
                },
                Err(m) => Err(m),
            }
        },
    }
}

/// What a whole program evaluates to: the integer returned by a
/// parameterless `main` of return type Integer32, or the first error.
pub open spec fn spec_eval_program(fns: Seq<SpecFun>, fuel: nat) -> Result<i32, Seq<char>> {
    match spec_fun_lookup(fns, "main"@) {
        None => Err("main function not found"@),
        Some(m) => if m.params.len() != 0 {
            Err("main function must not declare parameters"@)
        } else if m.ret != Type::Integer32 {
            Err("main function must return i32"@)
        } else if fuel == 0 {
            Err(msg_depth_exceeded())
        } else {
            match spec_eval_call(fns, m, Seq::empty(), (fuel - 1) as nat) {
                Ok(SpecExpr::Int(code)) => Ok(code),
                Ok(_) => Err("main function did not return an integer"@),
                Err(msg) => Err(msg),
            }
        },
    }
}

} // verus!
