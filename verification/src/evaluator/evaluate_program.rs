//! Whole-program evaluation: locates the `main` entry function and returns
//! the integer it evaluates to, the program's exit code.

use vstd::prelude::*;
use crate::ast::{Expression, Program, SpecExpr, Type, exprs_view, program_view};
use crate::environment::{Environment, MAX_CALL_DEPTH};
use crate::evaluator::evaluate_function::evaluate_function;
use crate::semantics::spec_eval_program;

verus! {

/// Evaluates the program starting from the function named `main`, which must
/// declare no parameters and return Integer32; its returned integer is the
/// program's exit code. The first evaluation error ends the run.
pub fn evaluate_program(program: &Program) -> (r: Result<i32, String>)
    ensures
        match spec_eval_program(program_view(*program), MAX_CALL_DEPTH as nat) {
            Ok(code) => r matches Ok(c) && c == code,
            Err(m) => r matches Err(s) && s@ == m,
        },
{
    let env = Environment::new(&program.functions);
    let main_fn = match env.get_function("main") {
        Some(f) => f,
        None => {
            return Err(String::from_str("main function not found"));
        },
    };
    if main_fn.params.len() != 0 {
        return Err(String::from_str("main function must not declare parameters"));
    }
    if !matches!(main_fn.return_type, Type::Integer32) {
        return Err(String::from_str("main function must return i32"));
    }
    let args: Vec<Expression> = Vec::new();
    proof {
        assert(exprs_view(args@) =~= Seq::<SpecExpr>::empty());
    }
    match evaluate_function(main_fn, args, &env) {
        Ok(Expression::IntegerLiteral(code)) => Ok(code),
        Ok(_) => Err(String::from_str("main function did not return an integer")),
        Err(m) => Err(m),
    }
}

} // verus!
