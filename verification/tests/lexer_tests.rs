use monkey_lang::lexer::Lexer;
use monkey_lang::token::Token;

#[test]
fn next_token() {
    let input = "let five = 5;
let ten = 10;

let add = fn(x, y) {
x + y;
};

let result = add(five, ten);

!-/*5;
5 < 10 > 5;

if (5 < 10) {
    return true;
} else {
    return false;
}

10 == 10;
10 != 9;
";

    let tokens = [
        Token::Let,
        Token::Identifier("five".to_string()),
        Token::Assign,
        Token::Integer(5),
        Token::Semicolon,
        Token::Let,
        Token::Identifier("ten".to_string()),
        Token::Assign,
        Token::Integer(10),
        Token::Semicolon,
        Token::Let,
        Token::Identifier("add".to_string()),
        Token::Assign,
        Token::Function,
        Token::Lparentheses,
        Token::Identifier("x".to_string()),
        Token::Comma,
        Token::Identifier("y".to_string()),
        Token::Rparentheses,
        Token::Lbrace,
        Token::Identifier("x".to_string()),
        Token::Plus,
        Token::Identifier("y".to_string()),
        Token::Semicolon,
        Token::Rbrace,
        Token::Semicolon,
        Token::Let,
        Token::Identifier("result".to_string()),
        Token::Assign,
        Token::Identifier("add".to_string()),
        Token::Lparentheses,
        Token::Identifier("five".to_string()),
        Token::Comma,
        Token::Identifier("ten".to_string()),
        Token::Rparentheses,
        Token::Semicolon,
        Token::Exclamation,
        Token::Minus,
        Token::Slash,
        Token::Asterisk,
        Token::Integer(5),
        Token::Semicolon,
        Token::Integer(5),
        Token::LessThan,
        Token::Integer(10),
        Token::GreaterThan,
        Token::Integer(5),
        Token::Semicolon,
        Token::If,
        Token::Lparentheses,
        Token::Integer(5),
        Token::LessThan,
        Token::Integer(10),
        Token::Rparentheses,
        Token::Lbrace,
        Token::Return,
        Token::True,
        Token::Semicolon,
        Token::Rbrace,
        Token::Else,
        Token::Lbrace,
        Token::Return,
        Token::False,
        Token::Semicolon,
        Token::Rbrace,
        Token::Integer(10),
        Token::Equal,
        Token::Integer(10),
        Token::Semicolon,
        Token::Integer(10),
        Token::NotEqual,
        Token::Integer(9),
        Token::Semicolon,
        Token::EndOfFile,
    ];

    let mut lexer = Lexer::new(input);

    for tok in tokens.iter() {
        let next_token = &lexer.next_token();
        assert_eq!(next_token, tok);
    }
}

#[test]
fn next_token_edge_cases() {
    // A literal that exceeds the 32-bit range scans as an illegal token.
    let mut lexer = Lexer::new("99999999999");
    assert_eq!(lexer.next_token(), Token::Illegal);
    assert_eq!(lexer.next_token(), Token::EndOfFile);

    // The largest value still in range scans as a number.
    let mut lexer = Lexer::new("2147483647");
    assert_eq!(lexer.next_token(), Token::Integer(2147483647));

    let mut lexer = Lexer::new("2147483648");
    assert_eq!(lexer.next_token(), Token::Illegal);

    // A character that starts no token scans as illegal.
    let mut lexer = Lexer::new("@");
    assert_eq!(lexer.next_token(), Token::Illegal);

    // The end-of-stream token comes again and again.
    let mut lexer = Lexer::new("  ");
    assert_eq!(lexer.next_token(), Token::EndOfFile);
    assert_eq!(lexer.next_token(), Token::EndOfFile);

    // Underscores may form identifiers, and digits may continue one.
    let mut lexer = Lexer::new("_foo_bar add5");
    assert_eq!(lexer.next_token(), Token::Identifier("_foo_bar".to_string()));
    assert_eq!(lexer.next_token(), Token::Identifier("add5".to_string()));
}
