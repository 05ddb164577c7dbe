//! Re-serialization of expressions to source text, specified by
//! `spec_stringify`: literals print as themselves, string literals are
//! quoted, binary operations are fully parenthesized with one space around
//! the operator, and calls list their arguments separated by a comma and a
//! space.

use vstd::prelude::*;
use vstd::string::StringExecFns;
use crate::ast::{
    BinaryOperator, Expression, SpecExpr, expr_view, exprs_view, lemma_expr_height_pos,
    lemma_exprs_height_elem, lemma_exprs_view, spec_expr_height, spec_exprs_height,
};
use crate::strutil::{i32_to_string, spec_int_dec};

verus! {

/// The source symbol of a binary operator.
pub open spec fn spec_op_str(op: BinaryOperator) -> Seq<char> {
    match op {
        BinaryOperator::Add => "+"@,
        BinaryOperator::Subtract => "-"@,
        BinaryOperator::Multiply => "*"@,
        BinaryOperator::Divide => "/"@,
        BinaryOperator::GreaterThan => ">"@,
        BinaryOperator::LessThan => "<"@,
        BinaryOperator::Equal => "=="@,
    }
}

/// The source text of an expression mirror.
pub open spec fn spec_stringify(e: SpecExpr) -> Seq<char>
    decreases spec_expr_height(e), 0int,
{
    match e {
        SpecExpr::Int(v) => spec_int_dec(v as int),
        SpecExpr::Str(s) => seq!['"'] + s + seq!['"'],
        SpecExpr::Var(n) => n,
        SpecExpr::Bin(op, l, r) => seq!['('] + spec_stringify(*l) + seq![' '] + spec_op_str(op)
            + seq![' '] + spec_stringify(*r) + seq![')'],
        SpecExpr::Call(name, args) => name + seq!['('] + spec_stringify_args(args) + seq![')'],
    }
}

/// The source text of an argument list: arguments separated by `", "`.
pub open spec fn spec_stringify_args(args: Seq<SpecExpr>) -> Seq<char>
    decreases spec_exprs_height(args), 1int,
{
    if args.len() == 0 {
        Seq::empty()
    } else if args.len() == 1 {
        proof {
            lemma_exprs_height_elem(args, 0);
        }
        spec_stringify(args[0])
    } else {
        proof {
            lemma_exprs_height_elem(args, 0);
            lemma_expr_height_pos(args[0]);
        }
        spec_stringify(args[0]) + seq![',', ' '] + spec_stringify_args(args.drop_first())
    }
}

/// Converts a BinaryOperator into its source symbol.
pub fn stringify_operator(op: &BinaryOperator) -> (r: Result<&'static str, String>)
    ensures
        r matches Ok(s) && s@ == spec_op_str(*op),
{
    match op {
        BinaryOperator::Add => Ok("+"),
        BinaryOperator::Subtract => Ok("-"),
        BinaryOperator::Multiply => Ok("*"),
        BinaryOperator::Divide => Ok("/"),
        BinaryOperator::GreaterThan => Ok(">"),
        BinaryOperator::LessThan => Ok("<"),
        BinaryOperator::Equal => Ok("=="),
    }
}

/// Converts an expression into its string representation.
pub fn stringify_expression(expr: &Expression) -> (r: Result<String, String>)
    ensures
        r matches Ok(s) && s@ == spec_stringify(expr_view(*expr)),
    decreases spec_expr_height(expr_view(*expr)), 0int,
{
    match expr {
        Expression::IntegerLiteral(v) => Ok(i32_to_string(*v)),
        Expression::StringLiteral(text) => {
            let mut s = String::from_str("\"");
            s.append(text.as_str());
            s.append("\"");
            proof {
                reveal_strlit("\"");
                assert("\""@ =~= seq!['"']);
            }
            Ok(s)
        },
        Expression::VariableRef(name) => Ok(name.clone()),
        Expression::BinaryOp { op, left, right } => {
            let left_str = match stringify_expression(left) {
                Ok(s) => s,
                Err(m) => {
                    return Err(m);
                },
            };
            let right_str = match stringify_expression(right) {
                Ok(s) => s,
                Err(m) => {
                    return Err(m);
                },
            };
            let op_str = match stringify_operator(op) {
                Ok(s) => s,
                Err(m) => {
                    return Err(m);
                },
            };
            let mut s = String::from_str("(");
            s.append(left_str.as_str());
            s.append(" ");
            s.append(op_str);
            s.append(" ");
            s.append(right_str.as_str());
            s.append(")");
            proof {
                reveal_strlit("(");
                reveal_strlit(")");
                reveal_strlit(" ");
                assert("("@ =~= seq!['(']);
                assert(")"@ =~= seq![')']);
                assert(" "@ =~= seq![' ']);
            }
            Ok(s)
        },
        Expression::FunctionCall { name, args } => {
            proof {
                lemma_exprs_view(args@);
                assert(exprs_view(args@).skip(0) =~= exprs_view(args@));
            }
            let args_str = match stringify_args_from(args, 0) {
                Ok(s) => s,
                Err(m) => {
                    return Err(m);
                },
            };
            let mut s = name.clone();
            s.append("(");
            s.append(args_str.as_str());
            s.append(")");
            proof {
                reveal_strlit("(");
                reveal_strlit(")");
                assert("("@ =~= seq!['(']);
                assert(")"@ =~= seq![')']);
            }
            Ok(s)
        },
    }
}

/// The source text of the argument list `args[from..]`.
fn stringify_args_from(args: &Vec<Expression>, from: usize) -> (r: Result<String, String>)
    requires
        from <= args@.len(),
    ensures
        r matches Ok(s) && s@ == spec_stringify_args(exprs_view(args@).skip(from as int)),
    decreases spec_exprs_height(exprs_view(args@).skip(from as int)), 1int,
{
    let ghost views = exprs_view(args@);
    proof {
        lemma_exprs_view(args@);
    }
    if from == args.len() {
        proof {
            assert(views.skip(from as int) =~= Seq::<SpecExpr>::empty());
        }
        Ok(String::new())
    } else {
        proof {
            lemma_exprs_height_elem(views.skip(from as int), 0);
            assert(views.skip(from as int)[0] == views[from as int]);
        }
        let first = match stringify_expression(&args[from]) {
            Ok(s) => s,
            Err(m) => {
                return Err(m);
            },
        };
        if from + 1 == args.len() {
            proof {
                assert(views.skip(from as int).len() == 1);
            }
            Ok(first)
        } else {
            proof {
                lemma_expr_height_pos(views.skip(from as int)[0]);
                assert(views.skip(from as int).drop_first() =~= views.skip(from as int + 1));
            }
            let rest = match stringify_args_from(args, from + 1) {
                Ok(s) => s,
                Err(m) => {
                    return Err(m);
                },
            };
            let mut s = first;
            s.append(", ");
            s.append(rest.as_str());
            proof {
                reveal_strlit(", ");
                assert(", "@ =~= seq![',', ' ']);
            }
            Ok(s)
        }
    }
}

} // verus!
