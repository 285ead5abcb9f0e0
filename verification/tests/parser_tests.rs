use monkey_lang::ast::{Expression, Statement};
use monkey_lang::error::ParserError;
use monkey_lang::token::Token;
use monkey_lang::lexer::Lexer;
use monkey_lang::operator;
use monkey_lang::parser::Parser;

fn test_let_statement(statement: &Statement, name: &str, num: i32) {
    if let Statement::Let { identifier, value } = statement {
        test_identifier_literal(identifier, name);
        test_integer_literal(value, num);
    } else {
        panic!("expected ast::Statement::Let, but got {:?}", statement);
    }
}

fn test_return_statement(statement: &Statement, num: i32) {
    if let Statement::Return(exp) = statement {
        test_integer_literal(exp, num);
    } else {
        panic!("expected ast::Statement::Return, but got {:?}", statement);
    }
}

fn test_expression_statement(statement: &Statement) -> Expression {
    if let Statement::Expression(expression) = statement {
        expression.clone()
    } else {
        panic!("expected ast::Statement::Expression, but got {:?}", statement);
    }
}

fn test_integer_literal(expression: &Expression, cmp_num: i32) {
    let integer = if let Expression::Integer(integer) = expression {
        integer
    } else {
        panic!("expected ast::Expression::Integer, but got {:?}", expression);
    };

    assert_eq!(*integer, cmp_num);
}

fn test_identifier_literal(expression: &Expression, cmp_str: &str) {
    let identifier = if let Expression::Identifier(identifier) = expression {
        identifier
    } else {
        panic!("expected ast::Expression::Identifier, but got {:?}", expression);
    };

    assert_eq!(*identifier, cmp_str);
}

fn test_boolean_literal(expression: &Expression, cmp_bool: bool) {
    let boolean = if let Expression::Boolean(boolean) = expression {
        boolean
    } else {
        panic!("expected ast::Expression::Boolean, but got {:?}", expression);
    };

    assert_eq!(*boolean, cmp_bool);
}

#[test]
fn test_let_statements() {
    let problem = [
        ("let x = 5;", "x", 5),
        ("let y = 5;", "y", 5),
        ("let foobar = 838383;", "foobar", 838383),
    ];

    for (input, name, num) in problem {
        let lexer = Lexer::new(input);
        let mut parser = Parser::new(lexer);

        let program = match parser.parse_program() {
            Ok(program) => program,
            Err(err) => panic!("\u{30a8}\u{30e9}\u{30fc}: {}", err.message()),
        };

        assert_eq!(program.statements.len(), 1);

        test_let_statement(&program.statements[0], name, num);
    }
}

#[test]
fn test_return_statements() {
    let problem = [("return 5;", 5), ("return 10", 10), ("return 993322", 993322)];

    for (input, result_num) in problem {
        let lexer = Lexer::new(input);
        let mut parser = Parser::new(lexer);

        let program = match parser.parse_program() {
            Ok(program) => program,
            Err(err) => panic!("\u{30a8}\u{30e9}\u{30fc}: {}", err.message()),
        };

        assert_eq!(program.statements.len(), 1);

        test_return_statement(&program.statements[0], result_num);
    }
}

#[test]
fn test_identifier_expression() {
    let input = "foobar;";

    let lexer = Lexer::new(input);
    let mut parser = Parser::new(lexer);
    let program = match parser.parse_program() {
        Ok(program) => program,
        Err(err) => panic!("\u{30a8}\u{30e9}\u{30fc}: {}", err.message()),
    };

    assert_eq!(program.statements.len(), 1);

    let statement = &program.statements[0];

    let expression = test_expression_statement(statement);

    test_identifier_literal(&expression, "foobar");
}

#[test]
fn test_integer_expression() {
    let input = "300;";

    let lexer = Lexer::new(input);
    let mut parser = Parser::new(lexer);
    let program = match parser.parse_program() {
        Ok(program) => program,
        Err(err) => panic!("\u{30a8}\u{30e9}\u{30fc}: {}", err.message()),
    };

    assert_eq!(program.statements.len(), 1);

    let statement = &program.statements[0];

    let expression = test_expression_statement(statement);

    test_integer_literal(&expression, 300);
}

#[test]
fn test_boolean_expression() {
    let inputs = ["true;", "false;"];
    let results = [true, false];

    for (input, result) in inputs.iter().zip(results.iter()) {
        let lexer = Lexer::new(input);
        let mut parser = Parser::new(lexer);
        let program = match parser.parse_program() {
            Ok(program) => program,
            Err(err) => panic!("\u{30a8}\u{30e9}\u{30fc}: {}", err.message()),
        };

        assert_eq!(program.statements.len(), 1);

        let statement = &program.statements[0];

        let expression = test_expression_statement(statement);

        test_boolean_literal(&expression, *result);
    }
}

#[test]
fn test_prefix_expression() {
    let problem = [
        ("!5;", operator::Prefix::Exclamation, 5),
        ("-15;", operator::Prefix::Minus, 15),
    ];

    for (input, result_op, result_r) in problem {
        let lexer = Lexer::new(input);
        let mut parser = Parser::new(lexer);
        let program = match parser.parse_program() {
            Ok(program) => program,
            Err(err) => panic!("\u{30a8}\u{30e9}\u{30fc}: {}", err.message()),
        };

        assert_eq!(program.statements.len(), 1);

        let statement = &program.statements[0];

        let expression = test_expression_statement(statement);

        let (operator, expression_right) = if let Expression::PrefixExpression {
            operator,
            expression,
        } = expression
        {
            (operator, expression)
        } else {
            panic!("expected ast::Expression::PrefixExpression, but got {:?}", expression);
        };

        assert_eq!(operator, result_op);
        test_integer_literal(&expression_right, result_r);
    }
}

#[test]
fn test_infix_expression() {
    let problem = [
        ("1 + 2;", 1, operator::Infix::Plus, 2),
        ("2 - 3;", 2, operator::Infix::Minus, 3),
        ("3 * 4;", 3, operator::Infix::Asterisk, 4),
        ("4 / 5;", 4, operator::Infix::Slash, 5),
        ("5 < 6;", 5, operator::Infix::LessThan, 6),
        ("6 > 7;", 6, operator::Infix::GreaterThan, 7),
        ("7 == 8;", 7, operator::Infix::Equal, 8),
        ("8 != 9;", 8, operator::Infix::NotEqual, 9),
    ];

    for (input, result_l, result_op, result_r) in problem {
        let lexer = Lexer::new(input);
        let mut parser = Parser::new(lexer);
        let program = match parser.parse_program() {
            Ok(program) => program,
            Err(err) => panic!("\u{30a8}\u{30e9}\u{30fc}: {}", err.message()),
        };

        assert_eq!(program.statements.len(), 1);

        let statement = &program.statements[0];

        let expression = test_expression_statement(statement);

        let (expression_left, operator, expression_right) = if let Expression::InfixExpression {
            left,
            operator,
            right,
        } = expression
        {
            (left, operator, right)
        } else {
            panic!("expected ast::Expression::InfixExpression, but got {:?}", expression);
        };

        test_integer_literal(&expression_left, result_l);
        assert_eq!(operator, result_op);
        test_integer_literal(&expression_right, result_r);
    }
}

#[test]
fn test_if_expression() {
    let input = "if (x < y) { x; }";

    let lexer = Lexer::new(input);
    let mut parser = Parser::new(lexer);
    let program = match parser.parse_program() {
        Ok(program) => program,
        Err(err) => panic!("\u{30a8}\u{30e9}\u{30fc}: {}", err.message()),
    };

    assert_eq!(program.statements.len(), 1);

    let statement = &program.statements[0];

    let expression = test_expression_statement(statement);

    let (condition, consequence, alternative) = if let Expression::IfExpression {
        condition,
        consequence,
        alternative,
    } = expression
    {
        (condition, consequence, alternative)
    } else {
        panic!("expected ast::Expression::IfExpression, but got {:?}", expression);
    };

    let (expression_left, operator, expression_right) = if let Expression::InfixExpression {
        left,
        operator,
        right,
    } = *condition
    {
        (left, operator, right)
    } else {
        panic!("expected ast::Expression::InfixExpression, but got {:?}", condition);
    };

    test_identifier_literal(&expression_left, "x");
    assert_eq!(operator, operator::Infix::LessThan);
    test_identifier_literal(&expression_right, "y");

    let statement = if let Statement::Block(statements) = *consequence {
        assert_eq!(statements.len(), 1);
        statements[0].clone()
    } else {
        panic!("expected ast::Statement::Block, but got {:?}", consequence);
    };

    let expression = if let Statement::Expression(expression) = statement {
        expression
    } else {
        panic!("expected ast::Statement::Expression, but got {:?}", statement);
    };

    test_identifier_literal(&expression, "x");

    if let None = alternative {
    } else {
        panic!("expected None, but got {:?}", alternative);
    }
}

#[test]
fn test_if_else_expression() {
    let input = "if (x < y) { x; } else { y; }";

    let lexer = Lexer::new(input);
    let mut parser = Parser::new(lexer);
    let program = match parser.parse_program() {
        Ok(program) => program,
        Err(err) => panic!("\u{30a8}\u{30e9}\u{30fc}: {}", err.message()),
    };

    assert_eq!(program.statements.len(), 1);

    let statement = &program.statements[0];

    let expression = test_expression_statement(statement);

    let (condition, consequence, alternative) = if let Expression::IfExpression {
        condition,
        consequence,
        alternative,
    } = expression
    {
        (condition, consequence, alternative)
    } else {
        panic!("expected ast::Expression::IfExpression, but got {:?}", expression);
    };

    let (expression_left, operator, expression_right) = if let Expression::InfixExpression {
        left,
        operator,
        right,
    } = *condition
    {
        (left, operator, right)
    } else {
        panic!("expected ast::Expression::InfixExpression, but got {:?}", condition);
    };

    test_identifier_literal(&expression_left, "x");
    assert_eq!(operator, operator::Infix::LessThan);
    test_identifier_literal(&expression_right, "y");

    let statement = if let Statement::Block(statements) = *consequence {
        assert_eq!(statements.len(), 1);
        statements[0].clone()
    } else {
        panic!("expected ast::Statement::Block, but got {:?}", consequence);
    };

    let expression = if let Statement::Expression(expression) = statement {
        expression
    } else {
        panic!("expected ast::Statement::Expression, but got {:?}", statement);
    };

    test_identifier_literal(&expression, "x");

    let alternative = if let Some(alternative) = alternative {
        alternative
    } else {
        panic!("expected alternative");
    };

    let statement = if let Statement::Block(statements) = *alternative {
        assert_eq!(statements.len(), 1);
        statements[0].clone()
    } else {
        panic!("expected ast::Statement::Block, but got {:?}", alternative);
    };

    let expression = if let Statement::Expression(expression) = statement {
        expression
    } else {
        panic!("expected ast::Statement::Expression, but got {:?}", statement);
    };

    test_identifier_literal(&expression, "y");
}

#[test]
fn test_function_expression() {
    let input = "fn(x, y) { x + y; }";

    let lexer = Lexer::new(input);
    let mut parser = Parser::new(lexer);
    let program = match parser.parse_program() {
        Ok(program) => program,
        Err(err) => panic!("\u{30a8}\u{30e9}\u{30fc}: {}", err.message()),
    };

    assert_eq!(program.statements.len(), 1);

    let statement = &program.statements[0];

    let expression = test_expression_statement(statement);

    let (parameters, body) = if let Expression::Function { parameters, body } = expression {
        (parameters, body)
    } else {
        panic!("expected ast::Expression::Function, but got {:?}", expression);
    };

    assert_eq!(parameters.len(), 2);

    test_identifier_literal(&parameters[0], "x");
    test_identifier_literal(&parameters[1], "y");

    let statement = if let Statement::Block(statements) = *body {
        assert_eq!(statements.len(), 1);
        statements[0].clone()
    } else {
        panic!("expected ast::Statement::Block, but got {:?}", body);
    };

    let expression = if let Statement::Expression(expression) = statement {
        expression
    } else {
        panic!("expected ast::Statement::Expression, but got {:?}", statement);
    };

    if let Expression::InfixExpression { left, operator, right } = expression {
        test_identifier_literal(&left, "x");
        assert_eq!(operator, operator::Infix::Plus);
        test_identifier_literal(&right, "y");
    } else {
        panic!("expected ast::Expression::InfixExpression, but got {:?}", expression);
    }
}

#[test]
fn test_function_parameter() {
    let problem = [
        ("fn() { }", Vec::new()),
        ("fn(x) {}", vec!["x"]),
        ("fn(x, y, z) {}", vec!["x", "y", "z"]),
    ];

    for (input, results) in problem {
        let lexer = Lexer::new(input);
        let mut parser = Parser::new(lexer);
        let program = match parser.parse_program() {
            Ok(program) => program,
            Err(err) => panic!("\u{30a8}\u{30e9}\u{30fc}: {}", err.message()),
        };

        assert_eq!(program.statements.len(), 1);

        let statement = &program.statements[0];

        let expression = test_expression_statement(statement);

        let parameters = if let Expression::Function { parameters, .. } = expression {
            parameters
        } else {
            panic!("expected ast::Expression::Function, but got {:?}", expression);
        };

        assert_eq!(parameters.len(), results.len());

        for (i, result) in results.iter().enumerate() {
            test_identifier_literal(&parameters[i], result);
        }
    }
}

#[test]
fn test_call_expression() {
    let input = "add(1, 2 * 3, 4 + 5);";

    let lexer = Lexer::new(input);
    let mut parser = Parser::new(lexer);
    let program = match parser.parse_program() {
        Ok(program) => program,
        Err(err) => panic!("\u{30a8}\u{30e9}\u{30fc}: {}", err.message()),
    };

    assert_eq!(program.statements.len(), 1);

    let statement = &program.statements[0];

    let expression = test_expression_statement(statement);

    let (function, args) = if let Expression::Call { function, args } = expression {
        (function, args)
    } else {
        panic!("expected ast::Expression::Call, but got {:?}", expression);
    };

    test_identifier_literal(&function, "add");

    assert_eq!(args.len(), 3);

    test_integer_literal(&args[0], 1);

    let (expression_left, operator, expression_right) = if let Expression::InfixExpression {
        left,
        operator,
        right,
    } = &args[1]
    {
        (left, operator, right)
    } else {
        panic!("expected ast::Expression::InfixExpression, but got {:?}", args[1]);
    };

    test_integer_literal(expression_left, 2);
    assert_eq!(*operator, operator::Infix::Asterisk);
    test_integer_literal(expression_right, 3);

    let (expression_left, operator, expression_right) = if let Expression::InfixExpression {
        left,
        operator,
        right,
    } = &args[2]
    {
        (left, operator, right)
    } else {
        panic!("expected ast::Expression::InfixExpression, but got {:?}", args[2]);
    };

    test_integer_literal(expression_left, 4);
    assert_eq!(*operator, operator::Infix::Plus);
    test_integer_literal(expression_right, 5);
}

#[test]
fn test_operator_precedence_parsing() {
    let problem = [
        ("a + b;", "(a + b);\n"),
        ("!-a;", "(!(-a));\n"),
        ("a + b - c;", "((a + b) - c);\n"),
        ("a * b / c;", "((a * b) / c);\n"),
        ("a + b * c;", "(a + (b * c));\n"),
        ("a + b * c + d / e - f;", "(((a + (b * c)) + (d / e)) - f);\n"),
        ("1 + 2; -3 * 4;", "(1 + 2);\n((-3) * 4);\n"),
        ("5 > 4 == 3 < 4;", "((5 > 4) == (3 < 4));\n"),
        (
            "3 + 4 * 5 == 3 * 1 + 4 * 5;",
            "((3 + (4 * 5)) == ((3 * 1) + (4 * 5)));\n",
        ),
        ("true;", "true;\n"),
        ("true == false;", "(true == false);\n"),
        ("1 > 2 == false;", "((1 > 2) == false);\n"),
        ("(1 + 2) * 3;", "((1 + 2) * 3);\n"),
        ("1 + (2 - 3);", "(1 + (2 - 3));\n"),
        ("-(1 + 2);", "(-(1 + 2));\n"),
        ("!(true == true);", "(!(true == true));\n"),
        ("1 + (2 - 3) * 4;", "(1 + ((2 - 3) * 4));\n"),
        ("(1 + -(2 + 3)) * 4;", "((1 + (-(2 + 3))) * 4);\n"),
        ("add(1, 2) + 3 > 4", "((add(1, 2) + 3) > 4);\n"),
        (
            "add(x, y, 1, 2*3, 4+5, add(z) )",
            "add(x, y, 1, (2 * 3), (4 + 5), add(z));\n",
        ),
        (
            "add(1 + 2 - 3 * 4 / 5 + 6)",
            "add((((1 + 2) - ((3 * 4) / 5)) + 6));\n",
        ),
    ];

    for (input, result) in problem {
        let lexer = Lexer::new(input);
        let mut parser = Parser::new(lexer);
        let program = match parser.parse_program() {
            Ok(program) => program,
            Err(err) => panic!("\u{30a8}\u{30e9}\u{30fc}: {}", err.message()),
        };

        assert_eq!(result.to_string(), program.to_code());
    }
}

#[test]
fn test_precedence_prefix_binding() {
    // Unary prefix binds tighter than any infix operator.
    let lexer = Lexer::new("-a * b");
    let mut parser = Parser::new(lexer);
    let program = match parser.parse_program() {
        Ok(program) => program,
        Err(err) => panic!("\u{30a8}\u{30e9}\u{30fc}: {}", err.message()),
    };
    assert_eq!(program.to_code(), "((-a) * b);\n");
}

#[test]
fn test_round_trip_rendering() {
    // A hand-built tree, rendered and parsed back, comes out structurally
    // equal.
    let trees = [
        Statement::Let {
            identifier: Expression::Identifier("x".to_string()),
            value: Expression::InfixExpression {
                left: Box::new(Expression::Integer(1)),
                operator: operator::Infix::Plus,
                right: Box::new(Expression::PrefixExpression {
                    operator: operator::Prefix::Minus,
                    expression: Box::new(Expression::Integer(2)),
                }),
            },
        },
        Statement::Return(Expression::Boolean(true)),
        Statement::Expression(Expression::IfExpression {
            condition: Box::new(Expression::InfixExpression {
                left: Box::new(Expression::Identifier("a".to_string())),
                operator: operator::Infix::LessThan,
                right: Box::new(Expression::Integer(3)),
            }),
            consequence: Box::new(Statement::Block(vec![Statement::Expression(
                Expression::Identifier("a".to_string()),
            )])),
            alternative: Some(Box::new(Statement::Block(vec![Statement::Expression(
                Expression::Integer(0),
            )]))),
        }),
        Statement::Expression(Expression::Call {
            function: Box::new(Expression::Function {
                parameters: vec![
                    Expression::Identifier("x".to_string()),
                    Expression::Identifier("y".to_string()),
                ],
                body: Box::new(Statement::Block(vec![Statement::Expression(
                    Expression::InfixExpression {
                        left: Box::new(Expression::Identifier("x".to_string())),
                        operator: operator::Infix::Asterisk,
                        right: Box::new(Expression::Identifier("y".to_string())),
                    },
                )])),
            }),
            args: vec![Expression::Integer(6), Expression::Integer(7)],
        }),
    ];

    for tree in trees {
        let rendered = tree.to_code();
        let lexer = Lexer::new(&rendered);
        let mut parser = Parser::new(lexer);
        let program = match parser.parse_program() {
            Ok(program) => program,
            Err(err) => panic!("\u{30a8}\u{30e9}\u{30fc}: {}", err.message()),
        };
        assert_eq!(program.statements.len(), 1);
        assert_eq!(program.statements[0], tree);
    }
}

#[test]
fn test_parser_errors() {
    // Missing identifier after `let`.
    let lexer = Lexer::new("let = 5;");
    let mut parser = Parser::new(lexer);
    match parser.parse_program() {
        Ok(p) => panic!("expected an error, but got {:?}", p.statements),
        Err(e) => assert!(matches!(e, ParserError::NotFoundLetIdentifier { .. })),
    }

    // Missing `=` after the identifier.
    let lexer = Lexer::new("let x 5;");
    let mut parser = Parser::new(lexer);
    match parser.parse_program() {
        Ok(p) => panic!("expected an error, but got {:?}", p.statements),
        Err(e) => {
            assert_eq!(
                e,
                ParserError::UnexpectedToken {
                    actual_token: Token::Integer(5),
                    expected_token: Token::Assign,
                }
            );
        },
    }

    // The diagnostic text names what was expected and what stood there.
    let lexer = Lexer::new("let x 5;");
    let mut parser = Parser::new(lexer);
    let err = match parser.parse_program() {
        Ok(_) => panic!("expected an error"),
        Err(e) => e,
    };
    assert_eq!(
        err.message(),
        "(Assign\u{3092}\u{671f}\u{5f85}\u{3057}\u{307e}\u{3057}\u{305f}\u{304c}\u{3001}Integer(5)\u{3067}\u{3057}\u{305f}\u{3002})"
    );

    // Missing closing parenthesis.
    let lexer = Lexer::new("(1 + 2;");
    let mut parser = Parser::new(lexer);
    match parser.parse_program() {
        Ok(p) => panic!("expected an error, but got {:?}", p.statements),
        Err(e) => assert!(matches!(e, ParserError::UnexpectedToken { .. })),
    }

    // An expression-position token with no prefix rule.
    let lexer = Lexer::new("+ 1;");
    let mut parser = Parser::new(lexer);
    match parser.parse_program() {
        Ok(p) => panic!("expected an error, but got {:?}", p.statements),
        Err(e) => {
            assert_eq!(e, ParserError::UnImplementationParser { found_token: Token::Plus });
        },
    }
}
