//! The two error taxonomies of the system, never conflated: structural
//! parse failures and typed evaluation failures. Each error renders itself
//! to a human-readable message.
use vstd::prelude::*;

use crate::object::{inspect_spec, Object, ObjectView};
use crate::operator::{infix_code_spec, prefix_code_spec, Infix, Prefix};
use crate::text;
use crate::text::int_code_spec;
use crate::token::{Token, TokenView};

verus! {

/// A parse-time failure. Every kind is terminal for the current parse: the
/// parser neither recovers nor produces partial output.
#[derive(Debug, PartialEq)]
pub enum ParserError {
    /// A specific token was required and another one stood there.
    UnexpectedToken { actual_token: Token, expected_token: Token },
    /// An operator-position token has no infix parsing rule.
    NotFoundInfixToken { found_token: Token },
    /// The token after `let` is no identifier; the payload is the token of
    /// lookahead at that point, one past the offending position.
    NotFoundLetIdentifier { found_token: Token },
    /// An expression-position token has no prefix parsing rule.
    UnImplementationParser { found_token: Token },
}

/// The mathematical mirror of `ParserError`.
pub ghost enum ParserErrorView {
    UnexpectedToken { actual_token: TokenView, expected_token: TokenView },
    NotFoundInfixToken { found_token: TokenView },
    NotFoundLetIdentifier { found_token: TokenView },
    UnImplementationParser { found_token: TokenView },
}

impl View for ParserError {
    type V = ParserErrorView;

    open spec fn view(&self) -> ParserErrorView {
        match self {
            ParserError::UnexpectedToken { actual_token, expected_token } => ParserErrorView::UnexpectedToken {
                actual_token: actual_token@,
                expected_token: expected_token@,
            },
            ParserError::NotFoundInfixToken { found_token } => ParserErrorView::NotFoundInfixToken {
                found_token: found_token@,
            },
            ParserError::NotFoundLetIdentifier { found_token } => ParserErrorView::NotFoundLetIdentifier {
                found_token: found_token@,
            },
            ParserError::UnImplementationParser { found_token } => ParserErrorView::UnImplementationParser {
                found_token: found_token@,
            },
        }
    }
}

/// An evaluation-time failure. Every kind aborts the evaluation of the whole
/// program at once. The last three kinds settle behaviour the language
/// otherwise leaves open: division by zero, application of a value that is
/// no function, and exhaustion of the evaluation budget that stands in for
/// the host call stack.
#[derive(Debug, PartialEq)]
pub enum EvaluatorError {
    /// An infix operator was applied to operands of two different types.
    TypeMismatch { left: Object, operator: Infix, right: Object },
    /// An infix operator has no meaning on operands of this (shared) type.
    UnknownInfixOperator { left: Object, operator: Infix, right: Object },
    /// A prefix operator has no meaning on this operand.
    UnknownPrefixOperator { operator: Prefix, right: Object },
    /// An identifier is bound nowhere in the scope chain.
    NotFoundIdentifier { identifier: String },
    /// An integer division had zero as its divisor.
    DivisionByZero { left: Object, right: Object },
    /// A call applied a value that is no function.
    CalledNonFunction { found: Object },
    /// The nested-call budget ran out before evaluation finished.
    RecursionLimitExceeded,
}

/// The mathematical mirror of `EvaluatorError`.
pub ghost enum EvaluatorErrorView {
    TypeMismatch { left: ObjectView, operator: Infix, right: ObjectView },
    UnknownInfixOperator { left: ObjectView, operator: Infix, right: ObjectView },
    UnknownPrefixOperator { operator: Prefix, right: ObjectView },
    NotFoundIdentifier { identifier: Seq<char> },
    DivisionByZero { left: ObjectView, right: ObjectView },
    CalledNonFunction { found: ObjectView },
    RecursionLimitExceeded,
}

impl View for EvaluatorError {
    type V = EvaluatorErrorView;

    open spec fn view(&self) -> EvaluatorErrorView {
        match self {
            EvaluatorError::TypeMismatch { left, operator, right } => EvaluatorErrorView::TypeMismatch {
                left: left@,
                operator: *operator,
                right: right@,
            },
            EvaluatorError::UnknownInfixOperator { left, operator, right } => EvaluatorErrorView::UnknownInfixOperator {
                left: left@,
                operator: *operator,
                right: right@,
            },
            EvaluatorError::UnknownPrefixOperator { operator, right } => EvaluatorErrorView::UnknownPrefixOperator {
                operator: *operator,
                right: right@,
            },
            EvaluatorError::NotFoundIdentifier { identifier } => EvaluatorErrorView::NotFoundIdentifier {
                identifier: identifier@,
            },
            EvaluatorError::DivisionByZero { left, right } => EvaluatorErrorView::DivisionByZero {
                left: left@,
                right: right@,
            },
            EvaluatorError::CalledNonFunction { found } => EvaluatorErrorView::CalledNonFunction {
                found: found@,
            },
            EvaluatorError::RecursionLimitExceeded => EvaluatorErrorView::RecursionLimitExceeded,
        }
    }
}

/// The diagnostic rendering of a token: its kind's name, with the payload of
/// an identifier or integer literal.
pub open spec fn token_debug_spec(t: TokenView) -> Seq<char> {
    match t {
        TokenView::Illegal => "Illegal"@,
        TokenView::EndOfFile => "EndOfFile"@,
        TokenView::Identifier(name) => "Identifier(\""@ + name + "\")"@,
        TokenView::Integer(i) => "Integer("@ + int_code_spec(i as int) + ")"@,
        TokenView::Assign => "Assign"@,
        TokenView::Plus => "Plus"@,
        TokenView::Minus => "Minus"@,
        TokenView::Exclamation => "Exclamation"@,
        TokenView::Asterisk => "Asterisk"@,
        TokenView::Slash => "Slash"@,
        TokenView::LessThan => "LessThan"@,
        TokenView::GreaterThan => "GreaterThan"@,
        TokenView::Equal => "Equal"@,
        TokenView::NotEqual => "NotEqual"@,
        TokenView::Comma => "Comma"@,
        TokenView::Semicolon => "Semicolon"@,
        TokenView::Lparentheses => "Lparentheses"@,
        TokenView::Rparentheses => "Rparentheses"@,
        TokenView::Lbrace => "Lbrace"@,
        TokenView::Rbrace => "Rbrace"@,
        TokenView::Function => "Function"@,
        TokenView::Let => "Let"@,
        TokenView::True => "True"@,
        TokenView::False => "False"@,
        TokenView::If => "If"@,
        TokenView::Else => "Else"@,
        TokenView::Return => "Return"@,
    }
}

/// Appends the diagnostic rendering of a token.
fn push_token_debug(out: &mut String, t: &Token)
    ensures
        final(out)@ == old(out)@ + token_debug_spec(t@),
{
    match t {
        Token::Illegal => out.append("Illegal"),
        Token::EndOfFile => out.append("EndOfFile"),
        Token::Identifier(name) => {
            out.append("Identifier(\"");
            out.append(name.as_str());
            out.append("\")");
            proof {
                assert(out@ =~= old(out)@ + token_debug_spec(t@));
            }
        },
        Token::Integer(i) => {
            out.append("Integer(");
            text::push_i32_dec(out, *i);
            out.append(")");
            proof {
                assert(out@ =~= old(out)@ + token_debug_spec(t@));
            }
        },
        Token::Assign => out.append("Assign"),
        Token::Plus => out.append("Plus"),
        Token::Minus => out.append("Minus"),
        Token::Exclamation => out.append("Exclamation"),
        Token::Asterisk => out.append("Asterisk"),
        Token::Slash => out.append("Slash"),
        Token::LessThan => out.append("LessThan"),
        Token::GreaterThan => out.append("GreaterThan"),
        Token::Equal => out.append("Equal"),
        Token::NotEqual => out.append("NotEqual"),
        Token::Comma => out.append("Comma"),
        Token::Semicolon => out.append("Semicolon"),
        Token::Lparentheses => out.append("Lparentheses"),
        Token::Rparentheses => out.append("Rparentheses"),
        Token::Lbrace => out.append("Lbrace"),
        Token::Rbrace => out.append("Rbrace"),
        Token::Function => out.append("Function"),
        Token::Let => out.append("Let"),
        Token::True => out.append("True"),
        Token::False => out.append("False"),
        Token::If => out.append("If"),
        Token::Else => out.append("Else"),
        Token::Return => out.append("Return"),
    }
}

/// The message of a parse-time failure.
pub open spec fn parser_error_message_spec(e: ParserErrorView) -> Seq<char> {
    match e {
        ParserErrorView::UnexpectedToken { actual_token, expected_token } => "("@
            + token_debug_spec(expected_token) + "\u{3092}\u{671f}\u{5f85}\u{3057}\u{307e}\u{3057}\u{305f}\u{304c}\u{3001}"@
            + token_debug_spec(actual_token) + "\u{3067}\u{3057}\u{305f}\u{3002})"@,
        ParserErrorView::NotFoundInfixToken { found_token } => "(Infix\u{3092}\u{671f}\u{5f85}\u{3057}\u{307e}\u{3057}\u{305f}\u{304c}\u{3001}"@
            + token_debug_spec(found_token) + "\u{3067}\u{3057}\u{305f}\u{3002})"@,
        ParserErrorView::NotFoundLetIdentifier { found_token } => "(Identifier\u{3092}\u{671f}\u{5f85}\u{3057}\u{307e}\u{3057}\u{305f}\u{304c}\u{3001}"@
            + token_debug_spec(found_token) + "\u{3067}\u{3057}\u{305f}\u{3002})"@,
        ParserErrorView::UnImplementationParser { found_token } => "(\u{5f0f}\u{306e}\u{30d1}\u{30fc}\u{30b5}\u{30fc}\u{304c}\u{672a}\u{5b9f}\u{88c5}\u{3067}\u{3059}\u{3002}: "@
            + token_debug_spec(found_token) + ")"@,
    }
}

/// The message of an evaluation-time failure.
pub open spec fn evaluator_error_message_spec(e: EvaluatorErrorView) -> Seq<char> {
    match e {
        EvaluatorErrorView::TypeMismatch { left, operator, right } => "\u{578b}\u{306e}\u{30df}\u{30b9}\u{30de}\u{30c3}\u{30c1}: "@
            + inspect_spec(left) + " "@ + infix_code_spec(operator) + " "@ + inspect_spec(right),
        EvaluatorErrorView::UnknownInfixOperator { left, operator, right } => "\u{672a}\u{77e5}\u{306e}\u{6f14}\u{7b97}\u{5b50}: "@
            + inspect_spec(left) + " "@ + infix_code_spec(operator) + " "@ + inspect_spec(right),
        EvaluatorErrorView::UnknownPrefixOperator { operator, right } => "\u{672a}\u{77e5}\u{306e}\u{6f14}\u{7b97}\u{5b50}: "@
            + prefix_code_spec(operator) + inspect_spec(right),
        EvaluatorErrorView::NotFoundIdentifier { identifier } => "\u{8b58}\u{5225}\u{5b50}\u{304c}\u{898b}\u{3064}\u{304b}\u{308a}\u{307e}\u{305b}\u{3093}\u{3002}: "@
            + identifier,
        EvaluatorErrorView::DivisionByZero { left, right } => "\u{30bc}\u{30ed}\u{9664}\u{7b97}: "@
            + inspect_spec(left) + " / "@ + inspect_spec(right),
        EvaluatorErrorView::CalledNonFunction { found } => "\u{95a2}\u{6570}\u{3067}\u{306f}\u{3042}\u{308a}\u{307e}\u{305b}\u{3093}\u{3002}: "@
            + inspect_spec(found),
        EvaluatorErrorView::RecursionLimitExceeded => "\u{8a55}\u{4fa1}\u{306e}\u{4e0a}\u{9650}\u{3092}\u{8d85}\u{3048}\u{307e}\u{3057}\u{305f}\u{3002}"@,
    }
}

impl ParserError {
    /// Renders the failure for display.
    pub fn message(&self) -> (r: String)
        ensures
            r@ == parser_error_message_spec(self@),
    {
        let mut out = String::new();
        match self {
            ParserError::UnexpectedToken { actual_token, expected_token } => {
                out.append("(");
                push_token_debug(&mut out, expected_token);
                out.append("\u{3092}\u{671f}\u{5f85}\u{3057}\u{307e}\u{3057}\u{305f}\u{304c}\u{3001}");
                push_token_debug(&mut out, actual_token);
                out.append("\u{3067}\u{3057}\u{305f}\u{3002})");
            },
            ParserError::NotFoundInfixToken { found_token } => {
                out.append("(Infix\u{3092}\u{671f}\u{5f85}\u{3057}\u{307e}\u{3057}\u{305f}\u{304c}\u{3001}");
                push_token_debug(&mut out, found_token);
                out.append("\u{3067}\u{3057}\u{305f}\u{3002})");
            },
            ParserError::NotFoundLetIdentifier { found_token } => {
                out.append("(Identifier\u{3092}\u{671f}\u{5f85}\u{3057}\u{307e}\u{3057}\u{305f}\u{304c}\u{3001}");
                push_token_debug(&mut out, found_token);
                out.append("\u{3067}\u{3057}\u{305f}\u{3002})");
            },
            ParserError::UnImplementationParser { found_token } => {
                out.append("(\u{5f0f}\u{306e}\u{30d1}\u{30fc}\u{30b5}\u{30fc}\u{304c}\u{672a}\u{5b9f}\u{88c5}\u{3067}\u{3059}\u{3002}: ");
                push_token_debug(&mut out, found_token);
                out.append(")");
            },
        }
        proof {
            assert(out@ =~= parser_error_message_spec(self@));
        }
        out
    }
}

impl EvaluatorError {
    /// Renders the failure for display.
    pub fn message(&self) -> (r: String)
        ensures
            r@ == evaluator_error_message_spec(self@),
    {
        let mut out = String::new();
        match self {
            EvaluatorError::TypeMismatch { left, operator, right } => {
                out.append("\u{578b}\u{306e}\u{30df}\u{30b9}\u{30de}\u{30c3}\u{30c1}: ");
                let l = left.inspect();
                out.append(l.as_str());
                out.append(" ");
                let op = operator.to_code();
                out.append(op.as_str());
                out.append(" ");
                let r = right.inspect();
                out.append(r.as_str());
            },
            EvaluatorError::UnknownInfixOperator { left, operator, right } => {
                out.append("\u{672a}\u{77e5}\u{306e}\u{6f14}\u{7b97}\u{5b50}: ");
                let l = left.inspect();
                out.append(l.as_str());
                out.append(" ");
                let op = operator.to_code();
                out.append(op.as_str());
                out.append(" ");
                let r = right.inspect();
                out.append(r.as_str());
            },
            EvaluatorError::UnknownPrefixOperator { operator, right } => {
                out.append("\u{672a}\u{77e5}\u{306e}\u{6f14}\u{7b97}\u{5b50}: ");
                let op = operator.to_code();
                out.append(op.as_str());
                let r = right.inspect();
                out.append(r.as_str());
            },
            EvaluatorError::NotFoundIdentifier { identifier } => {
                out.append("\u{8b58}\u{5225}\u{5b50}\u{304c}\u{898b}\u{3064}\u{304b}\u{308a}\u{307e}\u{305b}\u{3093}\u{3002}: ");
                out.append(identifier.as_str());
            },
            EvaluatorError::DivisionByZero { left, right } => {
                out.append("\u{30bc}\u{30ed}\u{9664}\u{7b97}: ");
                let l = left.inspect();
                out.append(l.as_str());
                out.append(" / ");
                let r = right.inspect();
                out.append(r.as_str());
            },
            EvaluatorError::CalledNonFunction { found } => {
                out.append("\u{95a2}\u{6570}\u{3067}\u{306f}\u{3042}\u{308a}\u{307e}\u{305b}\u{3093}\u{3002}: ");
                let f = found.inspect();
                out.append(f.as_str());
            },
            EvaluatorError::RecursionLimitExceeded => {
                out.append("\u{8a55}\u{4fa1}\u{306e}\u{4e0a}\u{9650}\u{3092}\u{8d85}\u{3048}\u{307e}\u{3057}\u{305f}\u{3002}");
            },
        }
        proof {
            assert(out@ =~= evaluator_error_message_spec(self@));
        }
        out
    }
}

} // verus!
