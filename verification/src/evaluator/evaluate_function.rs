//! Tree-walking evaluation of functions, statements and expressions, each
//! proved to return exactly what the big-step model in `semantics` returns.
//!
//! A `Return` value short-circuits the rest of a body, including out of an
//! enclosing `If` branch; a body that completes without returning is an
//! error. The built-ins `print` and `int_to_string` are intercepted before
//! user-function lookup.

use vstd::prelude::*;
use std::io::Write;
use crate::ast::{
    Expression, Function, SpecExpr, Statement, clone_expression, expr_view, exprs_view, fun_view,
    lemma_exprs_height_elem, lemma_exprs_view, lemma_stmts_height_elem, lemma_stmts_view,
    params_view, spec_expr_height, spec_exprs_height, spec_stmt_height, spec_stmts_height,
    stmt_view, stmts_view,
};
use crate::environment::{Environment, spec_fun_lookup};
use crate::evaluator::binary_op::{evaluate_binary_op, expr_result_matches};
use crate::semantics::{
    SpecVars, msg_depth_exceeded, msg_fun_not_found, msg_no_return, spec_bind_params,
    spec_eval_call, spec_eval_expr, spec_eval_exprs, spec_eval_stmt, spec_eval_stmts, spec_truthy,
};
use crate::strutil::{i32_to_string, str_eq, u64_to_string};

verus! {

/// How an executable statement outcome corresponds to the model's.
pub open spec fn opt_expr_matches(o: Option<Expression>, so: Option<SpecExpr>) -> bool {
    match (o, so) {
        (Some(e), Some(v)) => expr_view(e) == v,
        (None, None) => true,
        _ => false,
    }
}

/// Relies on `std::io::stdout` and `writeln`: writes `s` and a newline to
/// standard output, the one side effect of evaluation.
#[verifier::external_body]
fn print_line(s: &str) {
    let mut out = std::io::stdout();
    let _ = writeln!(out, "{}", s);
}

/// Truthiness of a condition value: an Integer32 value is true exactly when
/// it is nonzero; any other value kind is an error.
pub fn is_truthy(expr: &Expression) -> (r: Result<bool, String>)
    ensures
        match spec_truthy(expr_view(*expr)) {
            Ok(b) => r matches Ok(rb) && rb == b,
            Err(m) => r matches Err(s) && s@ == m,
        },
{
    match expr {
        Expression::IntegerLiteral(i) => Ok(*i != 0),
        _ => Err(String::from_str("Invalid type for condition expression; expected i32")),
    }
}

proof fn lemma_exprs_view_push(s: Seq<Expression>, x: Expression)
    ensures
        exprs_view(s.push(x)) == exprs_view(s) + seq![expr_view(x)],
{
    lemma_exprs_view(s);
    lemma_exprs_view(s.push(x));
    assert forall|j: int| 0 <= j < s.len() + 1 implies exprs_view(s.push(x))[j] == (exprs_view(s)
        + seq![expr_view(x)])[j] by {
        if j < s.len() {
            assert(s.push(x)[j] == s[j]);
        } else {
            assert(s.push(x)[j] == x);
        }
    }
    assert(exprs_view(s.push(x)) =~= exprs_view(s) + seq![expr_view(x)]);
}

/// Evaluates an expression in the given environment: literals yield
/// themselves, variables are looked up, both operands of a binary operation
/// are evaluated left to right, and calls evaluate their arguments and then
/// the callee, `int_to_string` being intercepted as a built-in.
pub fn evaluate_expression(expr: &Expression, env: &Environment) -> (r: Result<Expression, String>)
    ensures
        expr_result_matches(
            r,
            spec_eval_expr(env.funs(), env.vars_view(), expr_view(*expr), env.fuel as nat),
        ),
    decreases env.fuel, spec_expr_height(expr_view(*expr)), 0int,
{
    match expr {
        Expression::IntegerLiteral(_) => Ok(clone_expression(expr)),
        Expression::StringLiteral(_) => Ok(clone_expression(expr)),
        Expression::VariableRef(name) => match env.get(name.as_str()) {
            Some(e) => Ok(clone_expression(e)),
            None => {
                let mut m = String::from_str("Variable '");
                m.append(name.as_str());
                m.append("' not found");
                Err(m)
            },
        },
        Expression::BinaryOp { op, left, right } => match evaluate_expression(left, env) {
            Ok(l_val) => match evaluate_expression(right, env) {
                Ok(r_val) => evaluate_binary_op(op, &l_val, &r_val),
                Err(m) => Err(m),
            },
            Err(m) => Err(m),
        },
        Expression::FunctionCall { name, args } => {
            if str_eq(name.as_str(), "int_to_string") {
                if args.len() != 1 {
                    proof {
                        lemma_exprs_view(args@);
                    }
                    Err(String::from_str("int_to_string expects exactly one argument"))
                } else {
                    proof {
                        lemma_exprs_view(args@);
                        lemma_exprs_height_elem(exprs_view(args@), 0);
                    }
                    match evaluate_expression(&args[0], env) {
                        Ok(Expression::IntegerLiteral(i)) => Ok(
                            Expression::StringLiteral(i32_to_string(i)),
                        ),
                        Ok(_) => Err(
                            String::from_str("int_to_string expects an integer argument"),
                        ),
                        Err(m) => Err(m),
                    }
                }
            } else {
                match evaluate_arguments(args, env) {
                    Ok(vals) => evaluate_function_by_name(name.as_str(), vals, env),
                    Err(m) => Err(m),
                }
            }
        },
    }
}

/// Evaluates all argument expressions in order, stopping at the first error.
pub fn evaluate_arguments(args: &Vec<Expression>, env: &Environment) -> (r: Result<
    Vec<Expression>,
    String,
>)
    ensures
        ({
            let s = spec_eval_exprs(env.funs(), env.vars_view(), exprs_view(args@), env.fuel as nat);
            match s {
                Ok(vals) => r matches Ok(v) && exprs_view(v@) == vals,
                Err(m) => r matches Err(s2) && s2@ == m,
            }
        }),
    decreases env.fuel, spec_exprs_height(exprs_view(args@)), 1int,
{
    let ghost fns0 = env.funs();
    let ghost vars0 = env.vars_view();
    let ghost fuel0 = env.fuel as nat;
    let ghost views = exprs_view(args@);
    proof {
        lemma_exprs_view(args@);
        assert(views.skip(0) =~= views);
    }
    let n = args.len();
    let mut out: Vec<Expression> = Vec::new();
    let mut i: usize = 0;
    proof {
        assert(exprs_view(out@) =~= Seq::<SpecExpr>::empty());
        assert(match spec_eval_exprs(fns0, vars0, views, fuel0) {
            Ok(rest) => exprs_view(out@) + rest =~= rest,
            Err(_) => true,
        });
    }
    while i < n
        invariant
            i <= n,
            n == args@.len(),
            views == exprs_view(args@),
            views.len() == n,
            forall|j: int| 0 <= j < n ==> views[j] == expr_view(#[trigger] args@[j]),
            spec_eval_exprs(fns0, vars0, views, fuel0) == (match spec_eval_exprs(
                fns0,
                vars0,
                views.skip(i as int),
                fuel0,
            ) {
                Ok(rest) => Ok::<Seq<SpecExpr>, Seq<char>>(exprs_view(out@) + rest),
                Err(m) => Err(m),
            }),
            fns0 == env.funs(),
            vars0 == env.vars_view(),
            fuel0 == env.fuel as nat,
        decreases n - i,
    {
        proof {
            lemma_exprs_height_elem(views, i as int);
            assert(views.skip(i as int)[0] == views[i as int]);
        }
        let ghost out_prev = out@;
        match evaluate_expression(&args[i], env) {
            Ok(v) => {
                proof {
                    assert(views.skip(i as int).drop_first() =~= views.skip(i as int + 1));
                }
                let ghost vv = expr_view(v);
                let ghost vsnap = v;
                out.push(v);
                proof {
                    lemma_exprs_view_push(out_prev, vsnap);
                    assert(exprs_view(out@) =~= exprs_view(out_prev) + seq![vv]);
                    assert(match spec_eval_exprs(fns0, vars0, views.skip(i as int + 1), fuel0) {
                        Ok(rest) => exprs_view(out@) + rest =~= exprs_view(out_prev) + (seq![vv]
                            + rest),
                        Err(_) => true,
                    });
                }
                i = i + 1;
            },
            Err(m) => {
                return Err(m);
            },
        }
    }
    proof {
        assert(views.skip(n as int) =~= Seq::<SpecExpr>::empty());
        assert(exprs_view(out@) + Seq::<SpecExpr>::empty() =~= exprs_view(out@));
    }
    Ok(out)
}

/// Looks a function up by name in the environment's shared table and
/// evaluates it on the given already-evaluated arguments.
pub fn evaluate_function_by_name(name: &str, args: Vec<Expression>, env: &Environment) -> (r:
    Result<Expression, String>)
    ensures
        expr_result_matches(
            r,
            ({
                match spec_fun_lookup(env.funs(), name@) {
                    Some(f) => if env.fuel == 0 {
                        Err(msg_depth_exceeded())
                    } else {
                        spec_eval_call(env.funs(), f, exprs_view(args@), (env.fuel - 1) as nat)
                    },
                    None => Err(msg_fun_not_found(name@)),
                }
            }),
        ),
    decreases env.fuel, 0nat, 3int,
{
    match env.get_function(name) {
        Some(func) => evaluate_function(func, args, env),
        None => {
            let mut m = String::from_str("Function '");
            m.append(name);
            m.append("' not found");
            Err(m)
        },
    }
}

/// Evaluates a function on already-evaluated arguments: checks arity, binds
/// each parameter to its argument in a fresh frame sharing the caller's
/// function table, and runs the body. One unit of call depth is consumed.
pub fn evaluate_function(function: &Function, args: Vec<Expression>, outer_env: &Environment) -> (r:
    Result<Expression, String>)
    ensures
        expr_result_matches(
            r,
            ({
                if outer_env.fuel == 0 {
                    Err(msg_depth_exceeded())
                } else {
                    spec_eval_call(
                        outer_env.funs(),
                        fun_view(*function),
                        exprs_view(args@),
                        (outer_env.fuel - 1) as nat,
                    )
                }
            }),
        ),
    decreases outer_env.fuel, 0nat, 2int,
{
    proof {
        lemma_exprs_view(args@);
    }
    if outer_env.fuel == 0 {
        return Err(String::from_str("Maximum call depth exceeded"));
    }
    if args.len() != function.params.len() {
        let mut m = String::from_str("Expected ");
        let expected = u64_to_string(function.params.len() as u64);
        m.append(expected.as_str());
        m.append(" arguments but got ");
        let got = u64_to_string(args.len() as u64);
        m.append(got.as_str());
        return Err(m);
    }
    let mut env = Environment {
        variables: Vec::new(),
        functions: outer_env.functions,
        fuel: outer_env.fuel - 1,
    };
    let ghost ps = params_view(function.params@);
    let ghost vs = exprs_view(args@);
    proof {
        lemma_exprs_view(args@);
        assert(env.vars_view() =~= Map::<Seq<char>, SpecExpr>::empty());
        assert(ps.take(0) =~= Seq::<(Seq<char>, crate::ast::Type)>::empty());
        assert(vs.take(0) =~= Seq::<SpecExpr>::empty());
    }
    let n = args.len();
    let mut i: usize = 0;
    while i < n
        invariant
            i <= n,
            n == args@.len(),
            n == function.params@.len(),
            ps == params_view(function.params@),
            vs == exprs_view(args@),
            ps.len() == n,
            vs.len() == n,
            forall|j: int| 0 <= j < n ==> vs[j] == expr_view(#[trigger] args@[j]),
            env.functions == outer_env.functions,
            env.fuel == outer_env.fuel - 1,
            env.vars_view() == spec_bind_params(ps.take(i as int), vs.take(i as int)),
        decreases n - i,
    {
        let param_name = function.params[i].name.clone();
        let value = clone_expression(&args[i]);
        env.insert_variable(param_name, value);
        proof {
            assert(ps.take(i as int + 1).drop_last() =~= ps.take(i as int));
            assert(vs.take(i as int + 1).drop_last() =~= vs.take(i as int));
            assert(ps.take(i as int + 1).last() == ps[i as int]);
            assert(vs.take(i as int + 1).last() == vs[i as int]);
            assert(ps[i as int] == (function.params@[i as int].name@, function.params@[
            i as int].param_type));
        }
        i = i + 1;
    }
    proof {
        assert(ps.take(n as int) =~= ps);
        assert(vs.take(n as int) =~= vs);
    }
    evaluate_statements(&function.body, &mut env)
}

/// Runs a statement list in order; a `Return` from any statement
/// short-circuits the remainder.
fn run_statements(statements: &Vec<Statement>, env: &mut Environment) -> (r: Result<
    Option<Expression>,
    String,
>)
    ensures
        final (env).functions == old(env).functions,
        final (env).fuel == old(env).fuel,
        ({
            let s = spec_eval_stmts(
                old(env).funs(),
                old(env).vars_view(),
                stmts_view(statements@),
                old(env).fuel as nat,
            );
            match s {
                Ok((m, ret)) => r matches Ok(o) && opt_expr_matches(o, ret) && final (
                env).vars_view() == m,
                Err(sm) => r matches Err(s2) && s2@ == sm,
            }
        }),
    decreases env.fuel, spec_stmts_height(stmts_view(statements@)), 1int,
{
    let ghost fns0 = old(env).funs();
    let ghost vars0 = old(env).vars_view();
    let ghost fuel0 = old(env).fuel as nat;
    let ghost views = stmts_view(statements@);
    proof {
        lemma_stmts_view(statements@);
        assert(views.skip(0) =~= views);
    }
    let n = statements.len();
    let mut i: usize = 0;
    while i < n
        invariant
            i <= n,
            n == statements@.len(),
            views == stmts_view(statements@),
            views.len() == n,
            forall|j: int| 0 <= j < n ==> views[j] == stmt_view(#[trigger] statements@[j]),
            env.functions == old(env).functions,
            env.fuel == old(env).fuel,
            fns0 == env.funs(),
            fns0 == old(env).funs(),
            vars0 == old(env).vars_view(),
            fuel0 == env.fuel as nat,
            fuel0 == old(env).fuel as nat,
            spec_eval_stmts(fns0, vars0, views, fuel0) == spec_eval_stmts(
                fns0,
                env.vars_view(),
                views.skip(i as int),
                fuel0,
            ),
        decreases n - i,
    {
        proof {
            lemma_stmts_height_elem(views, i as int);
            assert(views.skip(i as int)[0] == views[i as int]);
        }
        let ghost pre_vars = env.vars_view();
        let ghost s_rest = spec_eval_stmts(fns0, pre_vars, views.skip(i as int), fuel0);
        match evaluate_statement(&statements[i], env) {
            Ok(Some(v)) => {
                proof {
                    let s_one = spec_eval_stmt(fns0, pre_vars, views[i as int], fuel0);
                    assert(s_one matches Ok((m, ret)) && ret matches Some(vv) && expr_view(v) == vv
                        && env.vars_view() == m);
                    assert(s_rest == s_one);
                    assert(spec_eval_stmts(fns0, vars0, views, fuel0) == s_rest);
                }
                return Ok(Some(v));
            },
            Ok(None) => {
                proof {
                    let s_one = spec_eval_stmt(fns0, pre_vars, views[i as int], fuel0);
                    assert(s_one matches Ok((m, ret)) && ret is None && env.vars_view() == m);
                    assert(views.skip(i as int).drop_first() =~= views.skip(i as int + 1));
                    assert(s_rest == spec_eval_stmts(fns0, env.vars_view(), views.skip(i as int + 1), fuel0));
                }
                i = i + 1;
            },
            Err(m) => {
                proof {
                    let s_one = spec_eval_stmt(fns0, pre_vars, views[i as int], fuel0);
                    assert(s_one matches Err(sm) && m@ == sm);
                    assert(s_rest == s_one);
                }
                return Err(m);
            },
        }
    }
    proof {
        assert(views.skip(n as int) =~= Seq::<crate::ast::SpecStmt>::empty());
    }
    Ok(None)
}

/// Runs a function body: as `run_statements`, but a body that completes
/// without a `Return` is the error the language defines for it.
pub fn evaluate_statements(statements: &Vec<Statement>, env: &mut Environment) -> (r: Result<
    Expression,
    String,
>)
    ensures
        final (env).functions == old(env).functions,
        final (env).fuel == old(env).fuel,
        ({
            let s = spec_eval_stmts(
                old(env).funs(),
                old(env).vars_view(),
                stmts_view(statements@),
                old(env).fuel as nat,
            );
            match s {
                Ok((m, ret)) => match ret {
                    Some(v) => r matches Ok(e) && expr_view(e) == v && final (env).vars_view()
                        == m,
                    None => r matches Err(s2) && s2@ == msg_no_return() && final (env).vars_view()
                        == m,
                },
                Err(sm) => r matches Err(s2) && s2@ == sm,
            }
        }),
    decreases env.fuel, spec_stmts_height(stmts_view(statements@)) + 1, 0int,
{
    match run_statements(statements, env) {
        Ok(Some(v)) => Ok(v),
        Ok(None) => Err(String::from_str("Function did not return a value")),
        Err(m) => Err(m),
    }
}

/// Executes a single statement: a declaration binds its evaluated value, a
/// call is performed for effect with its value discarded, an `If` runs the
/// branch its condition's truthiness selects, and a `Return` yields its
/// evaluated value.
pub fn evaluate_statement(stmt: &Statement, env: &mut Environment) -> (r: Result<
    Option<Expression>,
    String,
>)
    ensures
        final (env).functions == old(env).functions,
        final (env).fuel == old(env).fuel,
        ({
            let s = spec_eval_stmt(
                old(env).funs(),
                old(env).vars_view(),
                stmt_view(*stmt),
                old(env).fuel as nat,
            );
            match s {
                Ok((m, ret)) => r matches Ok(o) && opt_expr_matches(o, ret) && final (
                env).vars_view() == m,
                Err(sm) => r matches Err(s2) && s2@ == sm,
            }
        }),
    decreases env.fuel, spec_stmt_height(stmt_view(*stmt)), 0int,
{
    let ghost s_one = spec_eval_stmt(
        old(env).funs(),
        old(env).vars_view(),
        stmt_view(*stmt),
        old(env).fuel as nat,
    );
    match stmt {
        Statement::VariableDeclaration { name, declared_type: _, value } => {
            match evaluate_expression(value, env) {
                Ok(val) => {
                    let ghost vv = expr_view(val);
                    env.insert_variable(name.clone(), val);
                    proof {
                        assert(s_one matches Ok((m, ret)) && ret is None && env.vars_view() == m);
                    }
                    Ok(None)
                },
                Err(m) => {
                    proof {
                        assert(s_one matches Err(sm) && m@ == sm);
                    }
                    Err(m)
                },
            }
        },
        Statement::Return { value } => match evaluate_expression(value, env) {
            Ok(v) => {
                proof {
                    assert(s_one matches Ok((m, ret)) && ret matches Some(rv) && expr_view(v) == rv
                        && env.vars_view() == m);
                }
                Ok(Some(v))
            },
            Err(m) => {
                proof {
                    assert(s_one matches Err(sm) && m@ == sm);
                }
                Err(m)
            },
        },
        Statement::If { condition, then_body, else_body } => {
            match evaluate_expression(condition, env) {
                Ok(cond_val) => match is_truthy(&cond_val) {
                    Ok(true) => {
                        let r = run_statements(then_body, env);
                        proof {
                            assert(s_one == spec_eval_stmts(
                                old(env).funs(),
                                old(env).vars_view(),
                                stmts_view(then_body@),
                                old(env).fuel as nat,
                            ));
                        }
                        r
                    },
                    Ok(false) => match else_body {
                        Some(eb) => {
                            let r = run_statements(eb, env);
                            proof {
                                assert(s_one == spec_eval_stmts(
                                    old(env).funs(),
                                    old(env).vars_view(),
                                    stmts_view(eb@),
                                    old(env).fuel as nat,
                                ));
                            }
                            r
                        },
                        None => {
                            proof {
                                assert(s_one matches Ok((m, ret)) && ret is None
                                    && old(env).vars_view() == m);
                            }
                            Ok(None)
                        },
                    },
                    Err(m) => {
                        proof {
                            assert(s_one matches Err(sm) && m@ == sm);
                        }
                        Err(m)
                    },
                },
                Err(m) => {
                    proof {
                        assert(s_one matches Err(sm) && m@ == sm);
                    }
                    Err(m)
                },
            }
        },
        Statement::FunctionCall { name, args } => {
            if str_eq(name.as_str(), "print") {
                if args.len() != 1 {
                    proof {
                        lemma_exprs_view(args@);
                        assert(s_one matches Err(sm) && "print expects exactly one argument"@
                            == sm);
                    }
                    Err(String::from_str("print expects exactly one argument"))
                } else {
                    proof {
                        lemma_exprs_view(args@);
                        lemma_exprs_height_elem(exprs_view(args@), 0);
                    }
                    match evaluate_expression(&args[0], env) {
                        Ok(Expression::StringLiteral(s)) => {
                            proof {
                                assert(s_one matches Ok((m, ret)) && ret is None && old(
                                env).vars_view() == m);
                            }
                            print_line(s.as_str());
                            Ok(None)
                        },
                        Ok(Expression::IntegerLiteral(i)) => {
                            proof {
                                assert(s_one matches Ok((m, ret)) && ret is None && old(
                                env).vars_view() == m);
                            }
                            let rendered = i32_to_string(i);
                            print_line(rendered.as_str());
                            Ok(None)
                        },
                        Ok(_) => {
                            proof {
                                assert(s_one matches Err(sm)
                                    && "print expects a string or integer argument"@ == sm);
                            }
                            Err(String::from_str("print expects a string or integer argument"))
                        },
                        Err(m) => {
                            proof {
                                assert(s_one matches Err(sm) && m@ == sm);
                            }
                            Err(m)
                        },
                    }
                }
            } else if str_eq(name.as_str(), "int_to_string") {
                if args.len() != 1 {
                    proof {
                        lemma_exprs_view(args@);
                        assert(s_one matches Err(sm)
                            && "int_to_string expects exactly one argument"@ == sm);
                    }
                    Err(String::from_str("int_to_string expects exactly one argument"))
                } else {
                    proof {
                        lemma_exprs_view(args@);
                        lemma_exprs_height_elem(exprs_view(args@), 0);
                    }
                    match evaluate_expression(&args[0], env) {
                        Ok(Expression::IntegerLiteral(_)) => {
                            proof {
                                assert(s_one matches Ok((m, ret)) && ret is None && old(
                                env).vars_view() == m);
                            }
                            Ok(None)
                        },
                        Ok(_) => {
                            proof {
                                assert(s_one matches Err(sm)
                                    && "int_to_string expects an integer argument"@ == sm);
                            }
                            Err(String::from_str("int_to_string expects an integer argument"))
                        },
                        Err(m) => {
                            proof {
                                assert(s_one matches Err(sm) && m@ == sm);
                            }
                            Err(m)
                        },
                    }
                }
            } else {
                proof {
                    assert(stmt_view(*stmt) matches crate::ast::SpecStmt::Call(n2, a2) && n2
                        == name@ && a2 == exprs_view(args@));
                }
                match evaluate_arguments(args, env) {
                    Ok(vals) => {
                        let ghost vals_view = exprs_view(vals@);
                        match evaluate_function_by_name(name.as_str(), vals, env) {
                            Ok(_) => {
                                proof {
                                    assert(s_one matches Ok((m, ret)) && ret is None && old(
                                    env).vars_view() == m);
                                }
                                Ok(None)
                            },
                            Err(m) => {
                                proof {
                                    assert(s_one matches Err(sm) && m@ == sm);
                                }
                                Err(m)
                            },
                        }
                    },
                    Err(m) => {
                        proof {
                            assert(s_one matches Err(sm) && m@ == sm);
                        }
                        Err(m)
                    },
                }
            }
        },
    }
}

} // verus!
