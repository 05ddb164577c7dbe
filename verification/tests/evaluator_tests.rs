use simple_lang::ast::{BinaryOperator, Expression, Function, Statement, Type};
use simple_lang::environment::Environment;
use simple_lang::evaluator::binary_op::{binary_op, evaluate_binary_op};
use simple_lang::evaluator::evaluate_function::{
    evaluate_expression, evaluate_function, evaluate_statement, is_truthy,
};
use simple_lang::evaluator::evaluate_program::evaluate_program;
use simple_lang::evaluator::stringify_expression::stringify_expression;
use simple_lang::parser::parse_program::parse_program;

#[test]
fn test_is_truthy() {
    assert_eq!(is_truthy(&Expression::IntegerLiteral(0)).unwrap(), false);
    assert_eq!(is_truthy(&Expression::IntegerLiteral(1)).unwrap(), true);
    assert_eq!(is_truthy(&Expression::IntegerLiteral(-1)).unwrap(), true);
    assert_eq!(is_truthy(&Expression::IntegerLiteral(42)).unwrap(), true);
}

#[test]
fn test_evaluate_comparison_operators() {
    let greater = evaluate_binary_op(
        &BinaryOperator::GreaterThan,
        &Expression::IntegerLiteral(5),
        &Expression::IntegerLiteral(3),
    )
    .unwrap();
    assert_eq!(greater, Expression::IntegerLiteral(1));

    let less = evaluate_binary_op(
        &BinaryOperator::LessThan,
        &Expression::IntegerLiteral(3),
        &Expression::IntegerLiteral(5),
    )
    .unwrap();
    assert_eq!(less, Expression::IntegerLiteral(1));

    let equal = evaluate_binary_op(
        &BinaryOperator::Equal,
        &Expression::IntegerLiteral(5),
        &Expression::IntegerLiteral(5),
    )
    .unwrap();
    assert_eq!(equal, Expression::IntegerLiteral(1));
}

#[test]
fn test_evaluate_if_statement_true() {
    let functions: Vec<Function> = Vec::new();
    let mut env = Environment::new(&functions);
    env.insert_variable("x".to_string(), Expression::IntegerLiteral(5));

    let if_stmt = Statement::If {
        condition: Expression::BinaryOp {
            op: BinaryOperator::GreaterThan,
            left: Box::new(Expression::VariableRef("x".to_string())),
            right: Box::new(Expression::IntegerLiteral(0)),
        },
        then_body: vec![Statement::VariableDeclaration {
            name: "result".to_string(),
            declared_type: Type::Integer32,
            value: Expression::IntegerLiteral(42),
        }],
        else_body: None,
    };

    let result = evaluate_statement(&if_stmt, &mut env);
    assert!(result.is_ok());
    assert!(env.get("result").is_some());
}

#[test]
fn test_evaluate_if_statement_false() {
    let functions: Vec<Function> = Vec::new();
    let mut env = Environment::new(&functions);
    env.insert_variable("x".to_string(), Expression::IntegerLiteral(-5));

    let if_stmt = Statement::If {
        condition: Expression::BinaryOp {
            op: BinaryOperator::GreaterThan,
            left: Box::new(Expression::VariableRef("x".to_string())),
            right: Box::new(Expression::IntegerLiteral(0)),
        },
        then_body: vec![Statement::VariableDeclaration {
            name: "result".to_string(),
            declared_type: Type::Integer32,
            value: Expression::IntegerLiteral(42),
        }],
        else_body: None,
    };

    let result = evaluate_statement(&if_stmt, &mut env);
    assert!(result.is_ok());
    assert!(env.get("result").is_none());
}

#[test]
fn test_arithmetic_matches_native() {
    let cases = [(7i32, 3i32), (-7, 3), (7, -3), (-7, -3), (0, 5), (2147483647, 1)];
    for (l, r) in cases {
        let sum = evaluate_binary_op(
            &BinaryOperator::Add,
            &Expression::IntegerLiteral(l),
            &Expression::IntegerLiteral(r),
        );
        match l.checked_add(r) {
            Some(v) => assert_eq!(sum.unwrap(), Expression::IntegerLiteral(v)),
            None => assert_eq!(sum.unwrap_err(), "Integer overflow on addition"),
        }
        let diff = evaluate_binary_op(
            &BinaryOperator::Subtract,
            &Expression::IntegerLiteral(l),
            &Expression::IntegerLiteral(r),
        );
        assert_eq!(diff.unwrap(), Expression::IntegerLiteral(l - r));
        let prod = evaluate_binary_op(
            &BinaryOperator::Multiply,
            &Expression::IntegerLiteral(l),
            &Expression::IntegerLiteral(r),
        );
        match l.checked_mul(r) {
            Some(v) => assert_eq!(prod.unwrap(), Expression::IntegerLiteral(v)),
            None => assert_eq!(prod.unwrap_err(), "Integer overflow on multiplication"),
        }
        let quot = evaluate_binary_op(
            &BinaryOperator::Divide,
            &Expression::IntegerLiteral(l),
            &Expression::IntegerLiteral(r),
        );
        assert_eq!(quot.unwrap(), Expression::IntegerLiteral(l / r));
    }
}

#[test]
fn test_division_by_zero_is_an_error() {
    let quot = binary_op(
        &BinaryOperator::Divide,
        &Expression::IntegerLiteral(9),
        &Expression::IntegerLiteral(0),
    );
    assert_eq!(quot.unwrap_err(), "Division by zero");
}

#[test]
fn test_division_overflow_named() {
    let quot = evaluate_binary_op(
        &BinaryOperator::Divide,
        &Expression::IntegerLiteral(i32::MIN),
        &Expression::IntegerLiteral(-1),
    );
    assert_eq!(quot.unwrap_err(), "Integer overflow on division");
}

#[test]
fn test_overflow_on_max_plus_one() {
    let sum = evaluate_binary_op(
        &BinaryOperator::Add,
        &Expression::IntegerLiteral(i32::MAX),
        &Expression::IntegerLiteral(1),
    );
    assert_eq!(sum.unwrap_err(), "Integer overflow on addition");
}

#[test]
fn test_string_equality_and_incompatible_arithmetic() {
    let same = evaluate_binary_op(
        &BinaryOperator::Equal,
        &Expression::StringLiteral("abc".to_string()),
        &Expression::StringLiteral("abc".to_string()),
    );
    assert_eq!(same.unwrap(), Expression::IntegerLiteral(1));
    let differ = evaluate_binary_op(
        &BinaryOperator::Equal,
        &Expression::StringLiteral("abc".to_string()),
        &Expression::StringLiteral("xyz".to_string()),
    );
    assert_eq!(differ.unwrap(), Expression::IntegerLiteral(0));
    let bad = evaluate_binary_op(
        &BinaryOperator::Add,
        &Expression::StringLiteral("abc".to_string()),
        &Expression::StringLiteral("xyz".to_string()),
    );
    assert_eq!(bad.unwrap_err(), "Binary operations require compatible types");
}

#[test]
fn test_program_add_numbers_returns_seven() {
    let source = "\
add_numbers: function(a: i32, b: i32) -> i32 {\n\
    return a + b;\n\
};\n\
\n\
main: function() -> i32 {\n\
    result: i32 = add_numbers(3, 4);\n\
    return result;\n\
};\n";
    let program = parse_program(source).unwrap();
    assert_eq!(evaluate_program(&program).unwrap(), 7);
}

#[test]
fn test_program_if_else_returns_one() {
    let source = "\
main: function() -> i32 {\n\
    if (1 > 0) {\n\
        return 1;\n\
    } else {\n\
        return 0;\n\
    };\n\
};\n";
    let program = parse_program(source).unwrap();
    assert_eq!(evaluate_program(&program).unwrap(), 1);
}

#[test]
fn test_missing_return_fails_evaluation() {
    let program = simple_lang::ast::Program {
        functions: vec![Function {
            name: "main".to_string(),
            params: vec![],
            return_type: Type::Integer32,
            body: vec![Statement::VariableDeclaration {
                name: "x".to_string(),
                declared_type: Type::Integer32,
                value: Expression::IntegerLiteral(1),
            }],
        }],
    };
    assert_eq!(
        evaluate_program(&program).unwrap_err(),
        "Function did not return a value"
    );
}

#[test]
fn test_if_with_zero_literal_never_runs_then_branch() {
    let functions: Vec<Function> = Vec::new();
    let mut env = Environment::new(&functions);
    let if_stmt = Statement::If {
        condition: Expression::IntegerLiteral(0),
        then_body: vec![Statement::VariableDeclaration {
            name: "ran".to_string(),
            declared_type: Type::Integer32,
            value: Expression::IntegerLiteral(1),
        }],
        else_body: Some(vec![Statement::VariableDeclaration {
            name: "skipped".to_string(),
            declared_type: Type::Integer32,
            value: Expression::IntegerLiteral(2),
        }]),
    };
    assert!(evaluate_statement(&if_stmt, &mut env).is_ok());
    assert!(env.get("ran").is_none());
    assert!(env.get("skipped").is_some());
}

#[test]
fn test_if_with_nonzero_literal_always_runs_then_branch() {
    for c in [1, -1, 42, i32::MIN] {
        let functions: Vec<Function> = Vec::new();
        let mut env = Environment::new(&functions);
        let if_stmt = Statement::If {
            condition: Expression::IntegerLiteral(c),
            then_body: vec![Statement::VariableDeclaration {
                name: "ran".to_string(),
                declared_type: Type::Integer32,
                value: Expression::IntegerLiteral(1),
            }],
            else_body: None,
        };
        assert!(evaluate_statement(&if_stmt, &mut env).is_ok());
        assert!(env.get("ran").is_some());
    }
}

#[test]
fn test_undefined_variable_is_an_error() {
    let functions: Vec<Function> = Vec::new();
    let env = Environment::new(&functions);
    let result = evaluate_expression(&Expression::VariableRef("ghostly".to_string()), &env);
    assert_eq!(result.unwrap_err(), "Variable 'ghostly' not found");
}

#[test]
fn test_call_arity_mismatch_is_an_error() {
    let functions = vec![Function {
        name: "twice".to_string(),
        params: vec![simple_lang::ast::Parameter {
            name: "x".to_string(),
            param_type: Type::Integer32,
        }],
        return_type: Type::Integer32,
        body: vec![Statement::Return {
            value: Expression::BinaryOp {
                op: BinaryOperator::Multiply,
                left: Box::new(Expression::VariableRef("x".to_string())),
                right: Box::new(Expression::IntegerLiteral(2)),
            },
        }],
    }];
    let env = Environment::new(&functions);
    let callee = &functions[0];
    let result = evaluate_function(callee, vec![], &env);
    assert_eq!(result.unwrap_err(), "Expected 1 arguments but got 0");
}

#[test]
fn test_int_to_string_builtin() {
    let functions: Vec<Function> = Vec::new();
    let env = Environment::new(&functions);
    let expr = Expression::FunctionCall {
        name: "int_to_string".to_string(),
        args: vec![Expression::IntegerLiteral(-42)],
    };
    assert_eq!(
        evaluate_expression(&expr, &env).unwrap(),
        Expression::StringLiteral("-42".to_string())
    );
}

#[test]
fn test_main_not_found() {
    let program = simple_lang::ast::Program { functions: vec![] };
    assert_eq!(evaluate_program(&program).unwrap_err(), "main function not found");
}

#[test]
fn test_stringify_literals_and_operations() {
    let expr = Expression::BinaryOp {
        op: BinaryOperator::Add,
        left: Box::new(Expression::IntegerLiteral(2)),
        right: Box::new(Expression::VariableRef("n".to_string())),
    };
    assert_eq!(stringify_expression(&expr).unwrap(), "(2 + n)");
    assert_eq!(
        stringify_expression(&Expression::StringLiteral("hi".to_string())).unwrap(),
        "\"hi\""
    );
    assert_eq!(
        stringify_expression(&Expression::IntegerLiteral(-7)).unwrap(),
        "-7"
    );
    let call = Expression::FunctionCall {
        name: "f".to_string(),
        args: vec![Expression::IntegerLiteral(1), Expression::IntegerLiteral(2)],
    };
    assert_eq!(stringify_expression(&call).unwrap(), "f(1, 2)");
}
