use simple_lang::ast::{BinaryOperator, Expression, Function, Program, Statement, Type};
use simple_lang::type_checker::{
    check_binary_op_types, type_check_expression, type_check_function, type_check_program,
    type_check_statement, TypeContext,
};

#[test]
fn test_type_mismatch_i32_string() {
    let program = Program {
        functions: vec![Function {
            name: "main".to_string(),
            params: vec![],
            return_type: Type::Integer32,
            body: vec![
                Statement::VariableDeclaration {
                    name: "count".to_string(),
                    declared_type: Type::Integer32,
                    value: Expression::StringLiteral("test".to_string()),
                },
                Statement::Return { value: Expression::IntegerLiteral(0) },
            ],
        }],
    };

    let result = type_check_program(&program);
    assert!(result.is_err());
    assert!(result
        .unwrap_err()
        .contains("Type mismatch for variable 'count'"));
}

#[test]
fn test_valid_types() {
    let program = Program {
        functions: vec![Function {
            name: "main".to_string(),
            params: vec![],
            return_type: Type::Integer32,
            body: vec![
                Statement::VariableDeclaration {
                    name: "count".to_string(),
                    declared_type: Type::Integer32,
                    value: Expression::IntegerLiteral(42),
                },
                Statement::Return { value: Expression::VariableRef("count".to_string()) },
            ],
        }],
    };

    let result = type_check_program(&program);
    assert!(result.is_ok());
}

#[test]
fn test_missing_return_fails_checking() {
    let program = Program {
        functions: vec![Function {
            name: "main".to_string(),
            params: vec![],
            return_type: Type::Integer32,
            body: vec![Statement::VariableDeclaration {
                name: "x".to_string(),
                declared_type: Type::Integer32,
                value: Expression::IntegerLiteral(1),
            }],
        }],
    };
    let result = type_check_program(&program);
    assert_eq!(result.unwrap_err(), "Function 'main' missing return statement");
}

#[test]
fn test_empty_body_nonvoid_fails_checking() {
    let function = Function {
        name: "empty".to_string(),
        params: vec![],
        return_type: Type::Integer32,
        body: vec![],
    };
    assert_eq!(
        type_check_function(&function).unwrap_err(),
        "Function 'empty' has empty body but non-void return type"
    );
}

#[test]
fn test_duplicate_parameter_rejected() {
    let function = Function {
        name: "dup".to_string(),
        params: vec![
            simple_lang::ast::Parameter { name: "a".to_string(), param_type: Type::Integer32 },
            simple_lang::ast::Parameter { name: "a".to_string(), param_type: Type::Text },
        ],
        return_type: Type::Void,
        body: vec![],
    };
    assert_eq!(
        type_check_function(&function).unwrap_err(),
        "Parameter 'a' declared multiple times"
    );
}

#[test]
fn test_redeclaration_rejected() {
    let mut context = TypeContext::new();
    let first = Statement::VariableDeclaration {
        name: "x".to_string(),
        declared_type: Type::Integer32,
        value: Expression::IntegerLiteral(1),
    };
    assert!(type_check_statement(&first, &mut context).is_ok());
    let second = Statement::VariableDeclaration {
        name: "x".to_string(),
        declared_type: Type::Integer32,
        value: Expression::IntegerLiteral(2),
    };
    assert_eq!(
        type_check_statement(&second, &mut context).unwrap_err(),
        "Variable 'x' redeclared in the same scope"
    );
}

#[test]
fn test_if_condition_must_be_integer() {
    let mut context = TypeContext::new();
    let stmt = Statement::If {
        condition: Expression::StringLiteral("yes".to_string()),
        then_body: vec![],
        else_body: None,
    };
    assert_eq!(
        type_check_statement(&stmt, &mut context).unwrap_err(),
        "If condition must be of type i32 (interpreted as boolean), found string"
    );
}

#[test]
fn test_binary_op_type_rules() {
    assert_eq!(
        check_binary_op_types(&BinaryOperator::Add, &Type::Integer32, &Type::Integer32).unwrap(),
        Type::Integer32
    );
    assert_eq!(
        check_binary_op_types(&BinaryOperator::Equal, &Type::Text, &Type::Text).unwrap(),
        Type::Integer32
    );
    assert!(check_binary_op_types(&BinaryOperator::Add, &Type::Text, &Type::Integer32).is_err());
    assert!(check_binary_op_types(&BinaryOperator::Equal, &Type::Text, &Type::Integer32).is_err());
    assert!(check_binary_op_types(&BinaryOperator::LessThan, &Type::Void, &Type::Void).is_err());
}

#[test]
fn test_print_requires_text_argument() {
    let context = TypeContext::new();
    let good = Expression::FunctionCall {
        name: "print".to_string(),
        args: vec![Expression::StringLiteral("hi".to_string())],
    };
    assert_eq!(type_check_expression(&good, &context).unwrap(), Type::Void);
    let bad = Expression::FunctionCall {
        name: "print".to_string(),
        args: vec![Expression::IntegerLiteral(1)],
    };
    assert_eq!(
        type_check_expression(&bad, &context).unwrap_err(),
        "print expects a string argument"
    );
}

#[test]
fn test_int_to_string_typing() {
    let context = TypeContext::new();
    let good = Expression::FunctionCall {
        name: "int_to_string".to_string(),
        args: vec![Expression::IntegerLiteral(1)],
    };
    assert_eq!(type_check_expression(&good, &context).unwrap(), Type::Text);
    let bad = Expression::FunctionCall {
        name: "int_to_string".to_string(),
        args: vec![Expression::StringLiteral("1".to_string())],
    };
    assert_eq!(
        type_check_expression(&bad, &context).unwrap_err(),
        "int_to_string expects an i32 argument"
    );
}

#[test]
fn test_undeclared_variable_in_expression() {
    let context = TypeContext::new();
    let expr = Expression::VariableRef("nowhere".to_string());
    assert_eq!(
        type_check_expression(&expr, &context).unwrap_err(),
        "Use of undeclared variable 'nowhere'"
    );
}
