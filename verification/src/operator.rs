//! Prefix and infix operators of the language and the total order of
//! binding strengths that drives operator-precedence parsing.
use vstd::prelude::*;

verus! {

/// A unary prefix operator: arithmetic negation or truthiness negation.
#[derive(Debug, Clone, Copy, PartialEq, Eq, Structural)]
pub enum Prefix {
    Minus,
    Exclamation,
}

/// The textual form of a prefix operator.
pub open spec fn prefix_code_spec(op: Prefix) -> Seq<char> {
    match op {
        Prefix::Minus => "-"@,
        Prefix::Exclamation => "!"@,
    }
}

impl Prefix {
    /// Renders the operator back to its source form.
    pub fn to_code(&self) -> (r: String)
        ensures
            r@ == prefix_code_spec(*self),
    {
        match self {
            Prefix::Minus => String::from_str("-"),
            Prefix::Exclamation => String::from_str("!"),
        }
    }
}

/// A binary infix operator.
#[derive(Debug, Clone, Copy, PartialEq, Eq, Structural)]
pub enum Infix {
    Plus,
    Minus,
    Asterisk,
    Slash,
    LessThan,
    GreaterThan,
    Equal,
    NotEqual,
}

/// The textual form of an infix operator.
pub open spec fn infix_code_spec(op: Infix) -> Seq<char> {
    match op {
        Infix::Plus => "+"@,
        Infix::Minus => "-"@,
        Infix::Asterisk => "*"@,
        Infix::Slash => "/"@,
        Infix::LessThan => "<"@,
        Infix::GreaterThan => ">"@,
        Infix::Equal => "=="@,
        Infix::NotEqual => "!="@,
    }
}

impl Infix {
    /// Renders the operator back to its source form.
    pub fn to_code(&self) -> (r: String)
        ensures
            r@ == infix_code_spec(*self),
    {
        match self {
            Infix::Plus => String::from_str("+"),
            Infix::Minus => String::from_str("-"),
            Infix::Asterisk => String::from_str("*"),
            Infix::Slash => String::from_str("/"),
            Infix::LessThan => String::from_str("<"),
            Infix::GreaterThan => String::from_str(">"),
            Infix::Equal => String::from_str("=="),
            Infix::NotEqual => String::from_str("!="),
        }
    }
}

/// Binding strength of an operator, a strict total order from weakest
/// (`Lowest`) to strongest (`Call`). The parser folds an infix operator only
/// while the operator ahead binds strictly stronger than the bound in hand.
#[derive(Debug, Clone, Copy, PartialEq, Eq, Structural, PartialOrd)]
pub enum Precedences {
    Lowest,
    Equals,
    LessGreater,
    Sum,
    Product,
    Prefix,
    Call,
}

/// The numeric rank behind the order of `Precedences`.
pub open spec fn prec_rank(p: Precedences) -> int {
    match p {
        Precedences::Lowest => 0,
        Precedences::Equals => 1,
        Precedences::LessGreater => 2,
        Precedences::Sum => 3,
        Precedences::Product => 4,
        Precedences::Prefix => 5,
        Precedences::Call => 6,
    }
}

impl Precedences {
    /// Decides whether `self` binds strictly weaker than `other`.
    pub fn binds_weaker_than(&self, other: &Precedences) -> (r: bool)
        ensures
            r == (prec_rank(*self) < prec_rank(*other)),
    {
        self.rank() < other.rank()
    }

    /// The numeric rank of this binding strength.
    pub fn rank(&self) -> (r: u8)
        ensures
            r as int == prec_rank(*self),
    {
        match self {
            Precedences::Lowest => 0,
            Precedences::Equals => 1,
            Precedences::LessGreater => 2,
            Precedences::Sum => 3,
            Precedences::Product => 4,
            Precedences::Prefix => 5,
            Precedences::Call => 6,
        }
    }
}

} // verus!
