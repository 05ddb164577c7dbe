use simple_lang::ast::{BinaryOperator, Expression, Statement};
use simple_lang::parser::parse_expression::parse_expression;
use simple_lang::parser::parse_function::parse_function;
use simple_lang::parser::parse_program::{count_net_braces, parse_program};
use simple_lang::parser::parse_statement::{
    parse_if_statement_multiline, parse_if_statement_simple, parse_statement,
};
use simple_lang::evaluator::stringify_expression::stringify_expression;

#[test]
fn test_parse_function_with_multiline_if() {
    let lines = vec![
        "check_value: function(num: i32) -> i32 {",
        "    if (num > 0) {",
        "        print(\"Number is positive\");",
        "        print(num);",
        "    };",
        "    ",
        "    return num;",
        "};",
    ];

    let result = parse_function(&lines);
    assert!(result.is_ok(), "Should parse successfully: {:?}", result.err());

    if let Ok(function) = result {
        assert_eq!(function.name, "check_value");
        assert_eq!(function.body.len(), 2);

        if let Statement::If { condition: _, then_body, else_body: _ } = &function.body[0] {
            assert_eq!(then_body.len(), 2);
        } else {
            panic!("First statement should be an if statement");
        }
    }
}

#[test]
fn test_parse_your_exact_code() {
    let lines = vec![
        "check_value: function(num: i32) -> i32 {",
        "    if (num > 0) {",
        "        print(\"Number is positive\");",
        "        print(num);",
        "    };",
        "    ",
        "    return num;",
        "};",
    ];

    let result = parse_function(&lines);
    assert!(result.is_ok(), "Your code should parse: {:?}", result.err());
}

#[test]
fn test_count_net_braces() {
    assert_eq!(count_net_braces("if (x > 0) {"), 1);
    assert_eq!(count_net_braces("    };"), -1);
    assert_eq!(count_net_braces("{ print(\"hello\"); }"), 0);
    assert_eq!(count_net_braces("print(\"test { } test\");"), 0);
}

#[test]
fn test_parse_program_with_multiline_if() {
    let source = r#"
check_value: function(num: i32) -> i32 {
    if (num > 0) {
        print("Number is positive");
        print(num);
    };

    return num;
};

main: function() -> i32 {
    result: i32 = check_value(42);
    return 0;
};
"#;
    let result = parse_program(source);
    assert!(result.is_ok(), "Parse should succeed: {:?}", result.err());

    if let Ok(program) = result {
        assert_eq!(program.functions.len(), 2);
        assert_eq!(program.functions[0].name, "check_value");
        assert_eq!(program.functions[1].name, "main");
    }
}

#[test]
fn test_parse_program_with_complex_example() {
    let source = r#"
add_numbers: function(a: i32, b: i32) -> i32 {
    return a + b;
};

check_value: function(num: i32) -> i32 {
    if (num > 0) {
        print("Number is positive");
        print(num);
    };

    return num;
};

main: function() -> i32 {
    message: string = "Hello, World! Your code belongs to the Entity!";
    count: i32 = 42;

    print(message);

    result: i32 = add_numbers(count, 8);
    print(result);

    result_checked: i32 = check_value(result);
    return 0;
};
"#;
    let result = parse_program(source);
    assert!(result.is_ok(), "Parse should succeed: {:?}", result.err());

    if let Ok(program) = result {
        assert_eq!(program.functions.len(), 3);
    }
}

#[test]
fn test_parse_if_statement_simple() {
    let line = "if (num > 0) {";
    let result = parse_if_statement_simple(line);
    assert!(result.is_ok());

    if let Ok(Statement::If { condition: _, then_body, else_body }) = result {
        assert_eq!(then_body.len(), 0);
        assert!(else_body.is_none());
    }
}

#[test]
fn test_parse_if_else_statement_multiline() {
    let if_line = "if (num > 0) {";
    let remaining_lines = vec![
        "    print(\"Number is positive\");",
        "    print(num);",
        "} else {",
        "    print(\"Number is not positive\");",
        "};",
    ];

    let result = parse_if_statement_multiline(if_line, &remaining_lines);
    assert!(result.is_ok());

    if let Ok((Statement::If { condition: _, then_body, else_body }, lines_consumed)) = result {
        assert_eq!(then_body.len(), 2);
        assert!(else_body.is_some());
        if let Some(else_stmts) = else_body {
            assert_eq!(else_stmts.len(), 1);
        }
        assert_eq!(lines_consumed, 5);
    }
}

#[test]
fn test_parse_if_statement_multiline_without_else() {
    let if_line = "if (num > 0) {";
    let remaining_lines = vec![
        "    print(\"Number is positive\");",
        "    print(num);",
        "};",
    ];

    let result = parse_if_statement_multiline(if_line, &remaining_lines);
    assert!(result.is_ok());

    if let Ok((Statement::If { condition: _, then_body, else_body }, lines_consumed)) = result {
        assert_eq!(then_body.len(), 2);
        assert!(else_body.is_none());
        assert_eq!(lines_consumed, 3);
    }
}

#[test]
fn test_parse_expression_round_trips() {
    let samples = vec![
        Expression::IntegerLiteral(42),
        Expression::IntegerLiteral(-42),
        Expression::IntegerLiteral(i32::MIN),
        Expression::IntegerLiteral(i32::MAX),
        Expression::StringLiteral("hello world".to_string()),
        Expression::VariableRef("answer".to_string()),
        Expression::BinaryOp {
            op: BinaryOperator::Multiply,
            left: Box::new(Expression::BinaryOp {
                op: BinaryOperator::Add,
                left: Box::new(Expression::IntegerLiteral(1)),
                right: Box::new(Expression::VariableRef("n".to_string())),
            }),
            right: Box::new(Expression::IntegerLiteral(-3)),
        },
    ];
    for expr in samples {
        let text = stringify_expression(&expr).unwrap();
        let reparsed = parse_expression(&text).unwrap();
        assert_eq!(reparsed, expr);
    }
}

#[test]
fn test_parse_expression_precedence() {
    let expr = parse_expression("2 + 3 * 4").unwrap();
    assert_eq!(
        expr,
        Expression::BinaryOp {
            op: BinaryOperator::Add,
            left: Box::new(Expression::IntegerLiteral(2)),
            right: Box::new(Expression::BinaryOp {
                op: BinaryOperator::Multiply,
                left: Box::new(Expression::IntegerLiteral(3)),
                right: Box::new(Expression::IntegerLiteral(4)),
            }),
        }
    );
    let cmp = parse_expression("1 + 2 > 2").unwrap();
    assert_eq!(
        cmp,
        Expression::BinaryOp {
            op: BinaryOperator::GreaterThan,
            left: Box::new(Expression::BinaryOp {
                op: BinaryOperator::Add,
                left: Box::new(Expression::IntegerLiteral(1)),
                right: Box::new(Expression::IntegerLiteral(2)),
            }),
            right: Box::new(Expression::IntegerLiteral(2)),
        }
    );
}

#[test]
fn test_parse_expression_rejects_garbage() {
    let result = parse_expression("@@@");
    assert_eq!(result.unwrap_err(), "Unrecognized expression: @@@");
    assert!(parse_expression("").is_err());
    assert!(parse_expression("9999999999999").is_err());
}

#[test]
fn test_parse_statement_forms() {
    let ret = parse_statement("return x + 1;").unwrap();
    assert!(matches!(ret, Statement::Return { .. }));

    let decl = parse_statement("count: i32 = 42;").unwrap();
    match decl {
        Statement::VariableDeclaration { name, declared_type, value } => {
            assert_eq!(name, "count");
            assert_eq!(declared_type, simple_lang::ast::Type::Integer32);
            assert_eq!(value, Expression::IntegerLiteral(42));
        }
        _ => panic!("expected a declaration"),
    }

    let call = parse_statement("print(\"hi\");").unwrap();
    match call {
        Statement::FunctionCall { name, args } => {
            assert_eq!(name, "print");
            assert_eq!(args, vec![Expression::StringLiteral("hi".to_string())]);
        }
        _ => panic!("expected a call"),
    }

    let missing = parse_statement("return 1");
    assert_eq!(missing.unwrap_err(), "Statement must end with a semicolon ';'");

    let unknown_type = parse_statement("x: float = 1;");
    assert_eq!(unknown_type.unwrap_err(), "Unknown type: float");
}

#[test]
fn test_parse_program_rejects_unclosed_function() {
    let source = "main: function() -> i32 {\n    return 0;\n";
    assert_eq!(
        parse_program(source).unwrap_err(),
        "Incomplete function block found at end of source."
    );
}

#[test]
fn test_parse_program_skips_comment_lines() {
    let source = "// a note about main\nmain: function() -> i32 {\n    return 3;\n};\n";
    let program = parse_program(source).unwrap();
    assert_eq!(program.functions.len(), 1);
    assert_eq!(
        simple_lang::evaluator::evaluate_program::evaluate_program(&program).unwrap(),
        3
    );
}
