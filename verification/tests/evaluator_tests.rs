use monkey_lang::environment::Environment;
use monkey_lang::error::EvaluatorError;
use monkey_lang::evaluator::Evaluator;
use monkey_lang::lexer::Lexer;
use monkey_lang::object::Object;
use monkey_lang::operator::{Infix, Prefix};
use monkey_lang::parser::Parser;

const FUEL: u64 = 1000;

fn test_eval(input: &str) -> Object {
    let lexer = Lexer::new(input);
    let mut parser = Parser::new(lexer);
    let program = parser.parse_program().expect("parser error");
    let mut environment = Environment::new();
    match Evaluator::eval(&program, &mut environment, FUEL) {
        Ok(object) => object,
        Err(err) => panic!("evaluator error: {}", err.message()),
    }
}

fn eval_error(input: &str) -> EvaluatorError {
    let lexer = Lexer::new(input);
    let mut parser = Parser::new(lexer);
    let program = parser.parse_program().expect("parser error");
    let mut environment = Environment::new();
    match Evaluator::eval(&program, &mut environment, FUEL) {
        Ok(ok) => panic!(
            "\u{30a8}\u{30e9}\u{30fc}\u{3092}\u{671f}\u{5f85}\u{3057}\u{307e}\u{3057}\u{305f}\u{304c}\u{3001}{:?}\u{3067}\u{3057}\u{305f}\u{3002}",
            ok
        ),
        Err(err) => err,
    }
}

fn test_integer_object(object: &Object, expected: i32) {
    let integer = if let Object::Integer(integer) = object {
        integer
    } else {
        panic!("expected Object::Integer, but got {:?}", object);
    };

    assert_eq!(*integer, expected);
}

fn test_boolean_object(object: &Object, expected: bool) {
    let boolean = if let Object::Boolean(boolean) = object {
        boolean
    } else {
        panic!("expected Object::Boolean, but got {:?}", object);
    };

    assert_eq!(*boolean, expected);
}

#[test]
fn test_eval_integer_expression() {
    let tests = [
        ("1", 1),
        ("12", 12),
        ("-1", -1),
        ("-12", -12),
        ("1 + 2 - 3", 0),
        ("1 + 2 * 3", 7),
        ("3 * 4 / 2 + 10 - 8", 8),
        ("(1 + 2) * 3 - -1", 10),
        ("-1 * -1", 1),
        ("-10 + -1 * 2", -12),
        ("(10 + 20) / (10 - 0)", 3),
    ];

    for (input, result) in tests {
        let evaluated = test_eval(input);
        test_integer_object(&evaluated, result);
    }
}

#[test]
fn test_eval_boolean_expression() {
    let tests = [
        ("true", true),
        ("false", false),
        ("1 < 2", true),
        ("1 > 2", false),
        ("1 == 2", false),
        ("1 != 2", true),
        ("1 > 2", false),
        ("1 < 2", true),
        ("1 == 1", true),
        ("2 != 2", false),
        ("true == true", true),
        ("true != true", false),
        ("true == false", false),
        ("true != false", true),
        ("(1 > 2) == true", false),
        ("(1 > 2) != false", false),
        ("(1 < 2) == false", false),
        ("(1 > 2) != true", true),
    ];

    for (input, result) in tests {
        let evaluated = test_eval(input);
        test_boolean_object(&evaluated, result);
    }
}

#[test]
fn test_eval_if_expression() {
    let tests = [
        ("if (true) { 1 }", Object::Integer(1)),
        ("if (false) { 1 }", Object::Null),
        ("if (true) { 1 } else { 2 }", Object::Integer(1)),
        ("if (false) { 1 } else { 2 }", Object::Integer(2)),
        ("if (5) { 1 } else { 2 }", Object::Integer(1)),
        ("if (!5) { 1 } else { 2 }", Object::Integer(2)),
        ("if (1 < 2) { 1 } else { 2 }", Object::Integer(1)),
        ("if (1 > 2) { 1 } else { 2 }", Object::Integer(2)),
        ("if (1 > 2) { 1 }", Object::Null),
    ];

    for (input, result) in tests {
        let evaluated = test_eval(input);
        assert_eq!(evaluated, result);
    }
}

#[test]
fn test_eval_return_statement() {
    let tests = [
        ("return 10;", 10),
        ("return 100/10", 10),
        ("return 10; 1234;", 10),
        ("2*3; return 10; 1234;", 10),
        (
            "if (true) {
              if (true) {
                return 10;
              }
              0;
            }",
            10,
        ),
    ];

    for (input, result) in tests {
        let evaluated = test_eval(input);
        test_integer_object(&evaluated, result);
    }
}

#[test]
fn test_eval_let_statement() {
    let tests = [
        ("let a = 1; a;", 1),
        ("let a = 1 + 2 * 3; a;", 7),
        ("let a = 1; let b = a; b;", 1),
        ("let a = 1; let b = 2; let c = a + b; c;", 3),
    ];

    for (input, result) in tests {
        let evaluated = test_eval(input);
        test_integer_object(&evaluated, result);
    }
}

#[test]
fn test_eval_function_object() {
    let input = "fn(x) { x + 2; }";

    let evaluated = test_eval(input);
    let (params, body) = match evaluated {
        Object::Function { parameters, body, .. } => (parameters, body),
        other => panic!(
            "Object::Function\u{3092}\u{671f}\u{5f85}\u{3057}\u{307e}\u{3057}\u{305f}\u{304c}\u{3001}{:?}\u{3067}\u{3057}\u{305f}\u{3002}",
            other
        ),
    };

    assert_eq!(params.len(), 1);
    assert_eq!(params[0].to_code(), "x");
    assert_eq!(body.to_code(), "{\n(x + 2);\n}");
}

#[test]
fn test_eval_function_application() {
    let tests = [
        ("let identity = fn(x) { x }; identity(10);", 10),
        ("let identity = fn(x) { return x; }; identity(10);", 10),
        ("let double = fn(x) { x * 2; }; double(10);", 20),
        ("let add = fn(x, y) { x + y; }; add(10, 20);", 30),
        ("let add = fn(x, y) { x + y; }; add(add(10, 20), 30 + 40);", 100),
        ("fn(x) { x; }(10);", 10),
    ];

    for (input, result) in tests {
        let evaluated = test_eval(input);
        test_integer_object(&evaluated, result);
    }
}

#[test]
fn test_eval_error() {
    let tests = [
        (
            "5 + true;",
            "\u{578b}\u{306e}\u{30df}\u{30b9}\u{30de}\u{30c3}\u{30c1}: 5 + true",
        ),
        (
            "5 + true; 5;",
            "\u{578b}\u{306e}\u{30df}\u{30b9}\u{30de}\u{30c3}\u{30c1}: 5 + true",
        ),
        (
            "-true",
            "\u{672a}\u{77e5}\u{306e}\u{6f14}\u{7b97}\u{5b50}: -true",
        ),
        (
            "true + false",
            "\u{672a}\u{77e5}\u{306e}\u{6f14}\u{7b97}\u{5b50}: true + false",
        ),
        (
            "if (true) { true * false; }",
            "\u{672a}\u{77e5}\u{306e}\u{6f14}\u{7b97}\u{5b50}: true * false",
        ),
        (
            "if (true) {
                if (true) {
                    return false / false;
                }
                0;
            }",
            "\u{672a}\u{77e5}\u{306e}\u{6f14}\u{7b97}\u{5b50}: false / false",
        ),
        (
            "-true + 100",
            "\u{672a}\u{77e5}\u{306e}\u{6f14}\u{7b97}\u{5b50}: -true",
        ),
        (
            "foo",
            "\u{8b58}\u{5225}\u{5b50}\u{304c}\u{898b}\u{3064}\u{304b}\u{308a}\u{307e}\u{305b}\u{3093}\u{3002}: foo",
        ),
    ];

    for (input, result) in tests {
        let lexer = Lexer::new(input);
        let mut parser = Parser::new(lexer);
        let program = parser.parse_program().expect("parser error");

        let mut environment = Environment::new();
        let evaluated = Evaluator::eval(&program, &mut environment, FUEL);

        match evaluated {
            Ok(ok) => panic!(
                "\u{30a8}\u{30e9}\u{30fc}\u{3092}\u{671f}\u{5f85}\u{3057}\u{307e}\u{3057}\u{305f}\u{304c}\u{3001}{:?}\u{3067}\u{3057}\u{305f}\u{3002}",
                ok
            ),
            Err(err) => {
                let err_info = err.message();
                assert_eq!(err_info, result);
            },
        }
    }
}

#[test]
fn test_eval_bang_operator() {
    let tests = [
        ("!true", false),
        ("!false", true),
        ("!5", false),
        ("!!true", true),
        ("!!!true", false),
        ("!!5", true),
    ];

    for (input, result) in tests {
        let evaluated = test_eval(input);
        test_boolean_object(&evaluated, result);
    }
}

#[test]
fn test_eval_grouping() {
    let evaluated = test_eval("(1 + 2) * 3");
    assert_eq!(evaluated, Object::Integer(9));
}

#[test]
fn test_eval_closures() {
    let input = "let addN = fn(n) { fn(x) { x + n } }; let add5 = addN(5); add5(10);";
    assert_eq!(test_eval(input), Object::Integer(15));
}

#[test]
fn test_eval_closure_environment() {
    // A closure shares the scope it captured: a later rebinding in that
    // same scope is visible through the closure.
    let input = "let x = 1; let f = fn() { x }; let x = 2; f();";
    assert_eq!(test_eval(input), Object::Integer(2));

    // A binding made inside a function body targets the call's own scope
    // and never leaks back into the enclosing one.
    let input = "let x = 1; let g = fn() { let x = 5; x }; g(); x;";
    assert_eq!(test_eval(input), Object::Integer(1));

    // Extra call arguments are ignored; missing ones bind nothing.
    let input = "let id = fn(x) { x }; id(1, 2);";
    assert_eq!(test_eval(input), Object::Integer(1));
}

#[test]
fn test_eval_error_values() {
    assert_eq!(
        eval_error("5 + true;"),
        EvaluatorError::TypeMismatch {
            left: Object::Integer(5),
            operator: Infix::Plus,
            right: Object::Boolean(true),
        }
    );
    assert_eq!(
        eval_error("foo;"),
        EvaluatorError::NotFoundIdentifier { identifier: "foo".to_string() }
    );
    assert_eq!(
        eval_error("-true"),
        EvaluatorError::UnknownPrefixOperator {
            operator: Prefix::Minus,
            right: Object::Boolean(true),
        }
    );
    assert_eq!(
        eval_error("true + false"),
        EvaluatorError::UnknownInfixOperator {
            left: Object::Boolean(true),
            operator: Infix::Plus,
            right: Object::Boolean(false),
        }
    );
    assert_eq!(
        eval_error("5 / 0;"),
        EvaluatorError::DivisionByZero { left: Object::Integer(5), right: Object::Integer(0) }
    );
    assert_eq!(
        eval_error("let x = 5; x(1);"),
        EvaluatorError::CalledNonFunction { found: Object::Integer(5) }
    );
}

#[test]
fn test_eval_recursion_limit() {
    let input = "let f = fn() { f() }; f();";
    let lexer = Lexer::new(input);
    let mut parser = Parser::new(lexer);
    let program = parser.parse_program().expect("parser error");
    let mut environment = Environment::new();
    match Evaluator::eval(&program, &mut environment, 10) {
        Ok(ok) => panic!("expected an error, but got {:?}", ok),
        Err(err) => assert_eq!(err, EvaluatorError::RecursionLimitExceeded),
    }
}

#[test]
fn test_eval_wrapping_arithmetic() {
    // Arithmetic wraps in 32 bits.
    assert_eq!(test_eval("2147483647 + 1"), Object::Integer(i32::MIN));
    assert_eq!(test_eval("0 - 2147483647 - 1"), Object::Integer(i32::MIN));
    // Negation of the minimum value wraps to itself.
    assert_eq!(test_eval("let a = 0 - 2147483647 - 1; -a;"), Object::Integer(i32::MIN));
    // Division truncates toward zero.
    assert_eq!(test_eval("7 / 2"), Object::Integer(3));
    assert_eq!(test_eval("(0 - 7) / 2"), Object::Integer(-3));
}

#[test]
fn test_eval_bindings_survive_errors() {
    // Bindings made before a failing statement stay in the environment.
    let lexer = Lexer::new("let a = 41; a + true;");
    let mut parser = Parser::new(lexer);
    let program = parser.parse_program().expect("parser error");
    let mut environment = Environment::new();
    let evaluated = Evaluator::eval(&program, &mut environment, FUEL);
    assert!(evaluated.is_err());
    assert_eq!(environment.get(0, &"a".to_string()), Some(Object::Integer(41)));
}

#[test]
fn test_object_inspect() {
    assert_eq!(Object::Integer(42).inspect(), "42");
    assert_eq!(Object::Integer(-7).inspect(), "-7");
    assert_eq!(Object::Boolean(true).inspect(), "true");
    assert_eq!(Object::Boolean(false).inspect(), "false");
    assert_eq!(Object::Null.inspect(), "");
    assert_eq!(
        Object::ReturnValue(Box::new(Object::Integer(3))).inspect(),
        "3"
    );
    let function = test_eval("fn(x) { x + 2; }");
    assert_eq!(function.inspect(), "fn(x){\n(x + 2);\n}\n");
}

#[test]
fn test_is_truthly() {
    assert!(Object::Integer(0).is_truthly());
    assert!(Object::Integer(5).is_truthly());
    assert!(Object::Boolean(true).is_truthly());
    assert!(!Object::Boolean(false).is_truthly());
    assert!(!Object::Null.is_truthly());
}
