//! The closed set of lexical tokens and the precedence table that maps each
//! infix-capable token to its binding strength.
use vstd::prelude::*;

use crate::operator::Precedences;

verus! {

/// A lexical token: literals, operator and punctuation symbols, keywords,
/// and an end-of-stream sentinel. `Illegal` stands for a character sequence
/// that is no token of the language.
#[derive(Debug, PartialEq)]
pub enum Token {
    Illegal,
    EndOfFile,
    Identifier(String),
    Integer(i32),
    Assign,
    Plus,
    Minus,
    Exclamation,
    Asterisk,
    Slash,
    LessThan,
    GreaterThan,
    Equal,
    NotEqual,
    Comma,
    Semicolon,
    Lparentheses,
    Rparentheses,
    Lbrace,
    Rbrace,
    Function,
    Let,
    True,
    False,
    If,
    Else,
    Return,
}

impl Clone for Token {
    /// A copy equal to the original token, payload included.
    fn clone(&self) -> (r: Self)
        ensures
            r == *self,
    {
        match self {
            Token::Illegal => Token::Illegal,
            Token::EndOfFile => Token::EndOfFile,
            Token::Identifier(name) => Token::Identifier(name.clone()),
            Token::Integer(i) => Token::Integer(*i),
            Token::Assign => Token::Assign,
            Token::Plus => Token::Plus,
            Token::Minus => Token::Minus,
            Token::Exclamation => Token::Exclamation,
            Token::Asterisk => Token::Asterisk,
            Token::Slash => Token::Slash,
            Token::LessThan => Token::LessThan,
            Token::GreaterThan => Token::GreaterThan,
            Token::Equal => Token::Equal,
            Token::NotEqual => Token::NotEqual,
            Token::Comma => Token::Comma,
            Token::Semicolon => Token::Semicolon,
            Token::Lparentheses => Token::Lparentheses,
            Token::Rparentheses => Token::Rparentheses,
            Token::Lbrace => Token::Lbrace,
            Token::Rbrace => Token::Rbrace,
            Token::Function => Token::Function,
            Token::Let => Token::Let,
            Token::True => Token::True,
            Token::False => Token::False,
            Token::If => Token::If,
            Token::Else => Token::Else,
            Token::Return => Token::Return,
        }
    }
}

/// The mathematical mirror of `Token`.
pub ghost enum TokenView {
    Illegal,
    EndOfFile,
    Identifier(Seq<char>),
    Integer(i32),
    Assign,
    Plus,
    Minus,
    Exclamation,
    Asterisk,
    Slash,
    LessThan,
    GreaterThan,
    Equal,
    NotEqual,
    Comma,
    Semicolon,
    Lparentheses,
    Rparentheses,
    Lbrace,
    Rbrace,
    Function,
    Let,
    True,
    False,
    If,
    Else,
    Return,
}

impl View for Token {
    type V = TokenView;

    open spec fn view(&self) -> TokenView {
        match *self {
            Token::Illegal => TokenView::Illegal,
            Token::EndOfFile => TokenView::EndOfFile,
            Token::Identifier(name) => TokenView::Identifier(name@),
            Token::Integer(i) => TokenView::Integer(i),
            Token::Assign => TokenView::Assign,
            Token::Plus => TokenView::Plus,
            Token::Minus => TokenView::Minus,
            Token::Exclamation => TokenView::Exclamation,
            Token::Asterisk => TokenView::Asterisk,
            Token::Slash => TokenView::Slash,
            Token::LessThan => TokenView::LessThan,
            Token::GreaterThan => TokenView::GreaterThan,
            Token::Equal => TokenView::Equal,
            Token::NotEqual => TokenView::NotEqual,
            Token::Comma => TokenView::Comma,
            Token::Semicolon => TokenView::Semicolon,
            Token::Lparentheses => TokenView::Lparentheses,
            Token::Rparentheses => TokenView::Rparentheses,
            Token::Lbrace => TokenView::Lbrace,
            Token::Rbrace => TokenView::Rbrace,
            Token::Function => TokenView::Function,
            Token::Let => TokenView::Let,
            Token::True => TokenView::True,
            Token::False => TokenView::False,
            Token::If => TokenView::If,
            Token::Else => TokenView::Else,
            Token::Return => TokenView::Return,
        }
    }
}

/// The element-wise view of a token list.
pub open spec fn tokens_view(s: Seq<Token>) -> Seq<TokenView>
    decreases s,
{
    if s.len() == 0 {
        Seq::<TokenView>::empty()
    } else {
        tokens_view(s.drop_last()).push(s.last()@)
    }
}

/// `tokens_view` is the element-wise image of the token view.
pub broadcast proof fn lemma_tokens_view(s: Seq<Token>)
    ensures
        (#[trigger] tokens_view(s)).len() == s.len(),
        forall|i: int| 0 <= i < s.len() ==> tokens_view(s)[i] == s[i]@,
    decreases s,
{
    if s.len() > 0 {
        lemma_tokens_view(s.drop_last());
    }
}

/// The precedence table: the single map from token kind to binding strength.
/// Every token that cannot begin an infix fold sits at `Lowest`.
pub open spec fn token_precedence(t: TokenView) -> Precedences {
    match t {
        TokenView::Equal | TokenView::NotEqual => Precedences::Equals,
        TokenView::LessThan | TokenView::GreaterThan => Precedences::LessGreater,
        TokenView::Plus | TokenView::Minus => Precedences::Sum,
        TokenView::Slash | TokenView::Asterisk => Precedences::Product,
        TokenView::Lparentheses => Precedences::Call,
        _ => Precedences::Lowest,
    }
}

impl Token {
    /// Looks the token up in the precedence table.
    pub fn precedence(&self) -> (r: Precedences)
        ensures
            r == token_precedence(self@),
    {
        match self {
            Token::Equal | Token::NotEqual => Precedences::Equals,
            Token::LessThan | Token::GreaterThan => Precedences::LessGreater,
            Token::Plus | Token::Minus => Precedences::Sum,
            Token::Slash | Token::Asterisk => Precedences::Product,
            Token::Lparentheses => Precedences::Call,
            _ => Precedences::Lowest,
        }
    }
}

} // verus!
