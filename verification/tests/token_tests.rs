use monkey_lang::operator::Precedences;
use monkey_lang::token::Token;

#[test]
fn test_compare_infix() {
    let plus = Token::Plus.precedence();
    let minus = Token::Minus.precedence();
    let asterisk = Token::Asterisk.precedence();
    let slash = Token::Slash.precedence();
    let less_than = Token::LessThan.precedence();
    let greater_than = Token::GreaterThan.precedence();
    let equal = Token::Equal.precedence();
    let not_equal = Token::NotEqual.precedence();
    let identifier = Token::Identifier("test".to_string()).precedence();

    assert_eq!(plus == minus, true);
    assert_eq!(minus < asterisk, true);
    assert_eq!(asterisk == slash, true);
    assert_eq!(slash > less_than, true);
    assert_eq!(less_than == greater_than, true);
    assert_eq!(greater_than > equal, true);
    assert_eq!(equal == not_equal, true);
    assert_eq!(not_equal > identifier, true);
}

#[test]
fn test_call_precedence() {
    assert_eq!(Token::Lparentheses.precedence(), Precedences::Call);
    assert_eq!(Token::Semicolon.precedence(), Precedences::Lowest);
    assert_eq!(Token::EndOfFile.precedence(), Precedences::Lowest);
}
