use monkey_lang::operator::{Infix, Precedences, Prefix};

#[test]
fn test_compare_precedence() {
    assert_eq!(Precedences::Lowest < Precedences::Equals, true);
    assert_eq!(Precedences::Equals < Precedences::LessGreater, true);
    assert_eq!(Precedences::LessGreater < Precedences::Sum, true);
    assert_eq!(Precedences::Sum < Precedences::Product, true);
    assert_eq!(Precedences::Product < Precedences::Prefix, true);
    assert_eq!(Precedences::Prefix < Precedences::Call, true);
}

#[test]
fn test_operator_to_code() {
    assert_eq!(Prefix::Minus.to_code(), "-");
    assert_eq!(Prefix::Exclamation.to_code(), "!");
    assert_eq!(Infix::Plus.to_code(), "+");
    assert_eq!(Infix::Minus.to_code(), "-");
    assert_eq!(Infix::Asterisk.to_code(), "*");
    assert_eq!(Infix::Slash.to_code(), "/");
    assert_eq!(Infix::LessThan.to_code(), "<");
    assert_eq!(Infix::GreaterThan.to_code(), ">");
    assert_eq!(Infix::Equal.to_code(), "==");
    assert_eq!(Infix::NotEqual.to_code(), "!=");
}

#[test]
fn test_binds_weaker_than() {
    assert!(Precedences::Lowest.binds_weaker_than(&Precedences::Sum));
    assert!(!Precedences::Sum.binds_weaker_than(&Precedences::Sum));
    assert!(!Precedences::Call.binds_weaker_than(&Precedences::Lowest));
}
