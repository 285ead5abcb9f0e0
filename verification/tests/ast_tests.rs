use monkey_lang::ast::{Expression, Program, Statement};
use monkey_lang::operator;

#[test]
fn test_to_code() {
    let expected_code = "let x = 100;
return x;
500;
";
    let mut program = Program::new();

    let statement1 = Statement::Let {
        identifier: Expression::Identifier("x".to_string()),
        value: Expression::Integer(100),
    };

    let statement2 = Statement::Return(Expression::Identifier("x".to_string()));

    let statement3 = Statement::Expression(Expression::Integer(500));

    program.statements.push(statement1);
    program.statements.push(statement2);
    program.statements.push(statement3);

    assert_eq!(program.to_code(), expected_code);
}

#[test]
fn test_to_code_prefix() {
    let expected_code = "(!test);\n";
    let mut program = Program::new();

    let expression_id = Expression::Identifier("test".to_string());
    let expression_prefix = Expression::PrefixExpression {
        operator: operator::Prefix::Exclamation,
        expression: Box::new(expression_id),
    };
    let statement = Statement::Expression(expression_prefix);

    program.statements.push(statement);

    assert_eq!(program.to_code(), expected_code);
}

#[test]
fn test_to_code_infix() {
    let expected_code = "(2 * test);\n";
    let mut program = Program::new();

    let expression_l = Expression::Integer(2);
    let expression_r = Expression::Identifier("test".to_string());
    let expression_prefix = Expression::InfixExpression {
        left: Box::new(expression_l),
        operator: operator::Infix::Asterisk,
        right: Box::new(expression_r),
    };
    let statement = Statement::Expression(expression_prefix);

    program.statements.push(statement);

    assert_eq!(program.to_code(), expected_code);
}

#[test]
fn test_to_code_integer_extremes() {
    let mut program = Program::new();
    program
        .statements
        .push(Statement::Expression(Expression::Integer(i32::MIN)));
    program
        .statements
        .push(Statement::Expression(Expression::Integer(i32::MAX)));
    program.statements.push(Statement::Expression(Expression::Integer(0)));
    assert_eq!(program.to_code(), "-2147483648;\n2147483647;\n0;\n");
}

#[test]
fn test_to_code_function_and_call() {
    let body = Statement::Block(vec![Statement::Expression(Expression::Identifier(
        "x".to_string(),
    ))]);
    let function = Expression::Function {
        parameters: vec![Expression::Identifier("x".to_string())],
        body: Box::new(body),
    };
    let call = Expression::Call {
        function: Box::new(Expression::Identifier("add".to_string())),
        args: vec![Expression::Integer(1), Expression::Integer(2)],
    };
    let mut program = Program::new();
    program.statements.push(Statement::Expression(function));
    program.statements.push(Statement::Expression(call));
    assert_eq!(program.to_code(), "fn(x){\nx;\n};\nadd(1, 2);\n");
}

#[test]
fn test_is_well_formed() {
    let good = Statement::Let {
        identifier: Expression::Identifier("x".to_string()),
        value: Expression::Integer(1),
    };
    assert!(good.is_well_formed());

    let bad = Statement::Let {
        identifier: Expression::Integer(3),
        value: Expression::Integer(1),
    };
    assert!(!bad.is_well_formed());

    let bad_params = Expression::Function {
        parameters: vec![Expression::Integer(7)],
        body: Box::new(Statement::Block(Vec::new())),
    };
    assert!(!bad_params.is_well_formed());
}
