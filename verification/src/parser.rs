//! The operator-precedence ("Pratt") recursive-descent parser: it pulls the
//! whole token stream from the scanner, then builds the syntax tree by
//! precedence climbing. The grammar and every position step are specified by
//! the `sp_*` functions over the token sequence; each parsing method is
//! proved to return exactly what its specification says.
use vstd::prelude::*;

use crate::ast::{Expression, ExpressionView, Program, Statement, StatementView};
use crate::error::{ParserError, ParserErrorView};
use crate::lexer::{lex_all, Lexer};
use crate::operator::{prec_rank, Precedences, Prefix};
use crate::token::{lemma_tokens_view, token_precedence, tokens_view, Token, TokenView};

verus! {

/// The token at a position, with the end-of-stream sentinel standing for
/// every position outside the stream.
pub open spec fn tok(ts: Seq<TokenView>, i: int) -> TokenView {
    if 0 <= i < ts.len() {
        ts[i]
    } else {
        TokenView::EndOfFile
    }
}

/// One step forward, never past the end of the stream.
pub open spec fn padv(ts: Seq<TokenView>, p: int) -> int {
    if p < ts.len() {
        p + 1
    } else {
        ts.len() as int
    }
}

/// The larger of a reported position and a lower bound; the parser's
/// positions only ever move forward, so this changes nothing on real runs
/// and keeps the specification's recursion visibly bounded.
pub open spec fn at_least(q: int, lo: int) -> int {
    if q < lo {
        lo
    } else {
        q
    }
}

/// How many tokens remain from a position on.
pub open spec fn rem(ts: Seq<TokenView>, p: int) -> int {
    if p <= ts.len() {
        ts.len() - p
    } else {
        0
    }
}

/// The parse of a whole program from position `p`: statements until the
/// end-of-stream token, each followed by one step forward.
pub open spec fn sp_program(ts: Seq<TokenView>, p: int) -> (Result<
    Seq<StatementView>,
    ParserErrorView,
>, int)
    decreases rem(ts, p), 12int,
{
    if tok(ts, p) is EndOfFile {
        (Ok(Seq::<StatementView>::empty()), p)
    } else {
        let (r, q) = sp_statement(ts, p);
        match r {
            Err(e) => (Err(e), q),
            Ok(st) => {
                let qc = at_least(q, p);
                let (r2, q2) = sp_program(ts, padv(ts, qc));
                match r2 {
                    Ok(rest) => (Ok(seq![st] + rest), q2),
                    Err(e) => (Err(e), q2),
                }
            },
        }
    }
}

/// The parse of one statement, dispatched on its first token.
pub open spec fn sp_statement(ts: Seq<TokenView>, p: int) -> (Result<
    StatementView,
    ParserErrorView,
>, int)
    decreases rem(ts, p), 9int,
{
    match tok(ts, p) {
        TokenView::Let => sp_let(ts, p),
        TokenView::Return => sp_return(ts, p),
        _ => sp_expr_stmt(ts, p),
    }
}

/// The parse of `let <identifier> = <expression>;`, the semicolon optional.
pub open spec fn sp_let(ts: Seq<TokenView>, p: int) -> (Result<StatementView, ParserErrorView>, int)
    decreases rem(ts, p), 8int,
{
    let ip = padv(ts, p);
    match tok(ts, ip) {
        TokenView::Identifier(name) => {
            let ap = padv(ts, ip);
            if tok(ts, ap) is Assign {
                let ep = padv(ts, ap);
                let (r, q) = sp_expression(ts, ep, Precedences::Lowest);
                match r {
                    Err(e) => (Err(e), q),
                    Ok(v) => {
                        let qc = at_least(q, ep);
                        let st = StatementView::Let {
                            identifier: ExpressionView::Identifier(name),
                            value: v,
                        };
                        if tok(ts, qc + 1) is Semicolon {
                            (Ok(st), padv(ts, qc))
                        } else {
                            (Ok(st), qc)
                        }
                    },
                }
            } else {
                (
                    Err(
                        ParserErrorView::UnexpectedToken {
                            actual_token: tok(ts, ap),
                            expected_token: TokenView::Assign,
                        },
                    ),
                    ap,
                )
            }
        },
        _ => (Err(ParserErrorView::NotFoundLetIdentifier { found_token: tok(ts, ip + 1) }), ip),
    }
}

/// The parse of `return <expression>;`, the semicolon optional.
pub open spec fn sp_return(ts: Seq<TokenView>, p: int) -> (Result<
    StatementView,
    ParserErrorView,
>, int)
    decreases rem(ts, p), 8int,
{
    let ep = padv(ts, p);
    let (r, q) = sp_expression(ts, ep, Precedences::Lowest);
    match r {
        Err(e) => (Err(e), q),
        Ok(v) => {
            let qc = at_least(q, ep);
            if tok(ts, qc + 1) is Semicolon {
                (Ok(StatementView::Return(v)), padv(ts, qc))
            } else {
                (Ok(StatementView::Return(v)), qc)
            }
        },
    }
}

/// The parse of a bare expression statement, its semicolon optional.
pub open spec fn sp_expr_stmt(ts: Seq<TokenView>, p: int) -> (Result<
    StatementView,
    ParserErrorView,
>, int)
    decreases rem(ts, p), 8int,
{
    let (r, q) = sp_expression(ts, p, Precedences::Lowest);
    match r {
        Err(e) => (Err(e), q),
        Ok(v) => {
            let qc = at_least(q, p);
            if tok(ts, qc + 1) is Semicolon {
                (Ok(StatementView::Expression(v)), padv(ts, qc))
            } else {
                (Ok(StatementView::Expression(v)), qc)
            }
        },
    }
}

/// The parse of one expression by precedence climbing: a prefix handler
/// builds the first operand, then every infix operator ahead that binds
/// strictly stronger than `min_prec` is folded in. Equal strength does not
/// fold, which makes chains of equal operators associate to the left.
pub open spec fn sp_expression(ts: Seq<TokenView>, p: int, min_prec: Precedences) -> (Result<
    ExpressionView,
    ParserErrorView,
>, int)
    decreases rem(ts, p), 7int,
{
    let pr = match tok(ts, p) {
        TokenView::Identifier(name) => (Ok(ExpressionView::Identifier(name)), p),
        TokenView::Integer(i) => (Ok(ExpressionView::Integer(i)), p),
        TokenView::True => (Ok(ExpressionView::Boolean(true)), p),
        TokenView::False => (Ok(ExpressionView::Boolean(false)), p),
        TokenView::Minus => sp_prefix(ts, padv(ts, p), Prefix::Minus),
        TokenView::Exclamation => sp_prefix(ts, padv(ts, p), Prefix::Exclamation),
        TokenView::Lparentheses => sp_grouped(ts, padv(ts, p)),
        TokenView::If => sp_if(ts, padv(ts, p)),
        TokenView::Function => sp_function(ts, padv(ts, p)),
        _ => (Err(ParserErrorView::UnImplementationParser { found_token: tok(ts, p) }), p),
    };
    match pr.0 {
        Err(e) => (Err(e), pr.1),
        Ok(left) => sp_infix_loop(ts, left, at_least(pr.1, p), min_prec),
    }
}

/// The parse of a prefix operator's operand, starting just past the
/// operator, which binds stronger than any infix operator.
pub open spec fn sp_prefix(ts: Seq<TokenView>, p: int, op: Prefix) -> (Result<
    ExpressionView,
    ParserErrorView,
>, int)
    decreases rem(ts, p), 8int,
{
    let (r, q) = sp_expression(ts, p, Precedences::Prefix);
    match r {
        Err(e) => (Err(e), q),
        Ok(e) => (
            Ok(ExpressionView::PrefixExpression { operator: op, expression: Box::new(e) }),
            q,
        ),
    }
}

/// The parse of a parenthesised group, starting just past the opening
/// parenthesis; the closing one is required.
pub open spec fn sp_grouped(ts: Seq<TokenView>, p: int) -> (Result<
    ExpressionView,
    ParserErrorView,
>, int)
    decreases rem(ts, p), 8int,
{
    let (r, q) = sp_expression(ts, p, Precedences::Lowest);
    match r {
        Err(e) => (Err(e), q),
        Ok(e) => {
            let rp = padv(ts, at_least(q, p));
            if tok(ts, rp) is Rparentheses {
                (Ok(e), rp)
            } else {
                (
                    Err(
                        ParserErrorView::UnexpectedToken {
                            actual_token: tok(ts, rp),
                            expected_token: TokenView::Rparentheses,
                        },
                    ),
                    rp,
                )
            }
        },
    }
}

/// The parse of an `if` expression, starting just past the `if` keyword: a
/// parenthesised condition, a braced consequence block, and optionally
/// `else` with a braced alternative block.
pub open spec fn sp_if(ts: Seq<TokenView>, p: int) -> (Result<ExpressionView, ParserErrorView>, int)
    decreases rem(ts, p), 8int,
{
    if !(tok(ts, p) is Lparentheses) {
        (
            Err(
                ParserErrorView::UnexpectedToken {
                    actual_token: tok(ts, p),
                    expected_token: TokenView::Lparentheses,
                },
            ),
            p,
        )
    } else {
        let cp = padv(ts, p);
        let (r, q) = sp_expression(ts, cp, Precedences::Lowest);
        match r {
            Err(e) => (Err(e), q),
            Ok(cond) => {
                let rp = padv(ts, at_least(q, cp));
                if !(tok(ts, rp) is Rparentheses) {
                    (
                        Err(
                            ParserErrorView::UnexpectedToken {
                                actual_token: tok(ts, rp),
                                expected_token: TokenView::Rparentheses,
                            },
                        ),
                        rp,
                    )
                } else {
                    let bp = padv(ts, rp);
                    if !(tok(ts, bp) is Lbrace) {
                        (
                            Err(
                                ParserErrorView::UnexpectedToken {
                                    actual_token: tok(ts, bp),
                                    expected_token: TokenView::Lbrace,
                                },
                            ),
                            bp,
                        )
                    } else {
                        let (rb, qb) = sp_block(ts, bp);
                        match rb {
                            Err(e) => (Err(e), qb),
                            Ok(cons) => {
                                let qbc = at_least(qb, bp);
                                if tok(ts, qbc + 1) is Else {
                                    let ep = padv(ts, qbc);
                                    let bp2 = padv(ts, ep);
                                    if !(tok(ts, bp2) is Lbrace) {
                                        (
                                            Err(
                                                ParserErrorView::UnexpectedToken {
                                                    actual_token: tok(ts, bp2),
                                                    expected_token: TokenView::Lbrace,
                                                },
                                            ),
                                            bp2,
                                        )
                                    } else {
                                        let (rb2, qb2) = sp_block(ts, bp2);
                                        match rb2 {
                                            Err(e) => (Err(e), qb2),
                                            Ok(alt) => (
                                                Ok(
                                                    ExpressionView::IfExpression {
                                                        condition: Box::new(cond),
                                                        consequence: Box::new(cons),
                                                        alternative: Some(Box::new(alt)),
                                                    },
                                                ),
                                                at_least(qb2, bp2),
                                            ),
                                        }
                                    }
                                } else {
                                    (
                                        Ok(
                                            ExpressionView::IfExpression {
                                                condition: Box::new(cond),
                                                consequence: Box::new(cons),
                                                alternative: None,
                                            },
                                        ),
                                        qbc,
                                    )
                                }
                            },
                        }
                    }
                }
            },
        }
    }
}

/// The parse of a function literal, starting just past the `fn` keyword: a
/// parenthesised parameter list and a braced body block.
pub open spec fn sp_function(ts: Seq<TokenView>, p: int) -> (Result<
    ExpressionView,
    ParserErrorView,
>, int)
    decreases rem(ts, p), 8int,
{
    if !(tok(ts, p) is Lparentheses) {
        (
            Err(
                ParserErrorView::UnexpectedToken {
                    actual_token: tok(ts, p),
                    expected_token: TokenView::Lparentheses,
                },
            ),
            p,
        )
    } else {
        let pp = padv(ts, p);
        let (r, q) = sp_params(ts, pp);
        match r {
            Err(e) => (Err(e), q),
            Ok(params) => {
                let qa = at_least(q, pp);
                if !(tok(ts, qa) is Rparentheses) {
                    (
                        Err(
                            ParserErrorView::UnexpectedToken {
                                actual_token: tok(ts, qa),
                                expected_token: TokenView::Rparentheses,
                            },
                        ),
                        qa,
                    )
                } else {
                    let bp = padv(ts, qa);
                    if !(tok(ts, bp) is Lbrace) {
                        (
                            Err(
                                ParserErrorView::UnexpectedToken {
                                    actual_token: tok(ts, bp),
                                    expected_token: TokenView::Lbrace,
                                },
                            ),
                            bp,
                        )
                    } else {
                        let (rb, qb) = sp_block(ts, bp);
                        match rb {
                            Err(e) => (Err(e), qb),
                            Ok(body) => (
                                Ok(
                                    ExpressionView::Function {
                                        parameters: params,
                                        body: Box::new(body),
                                    },
                                ),
                                at_least(qb, bp),
                            ),
                        }
                    }
                }
            },
        }
    }
}

/// The parse of a comma-separated expression list, used for both parameter
/// lists and call arguments, ending at the token that is no comma.
pub open spec fn sp_params(ts: Seq<TokenView>, p: int) -> (Result<
    Seq<ExpressionView>,
    ParserErrorView,
>, int)
    decreases rem(ts, p), 8int,
{
    if tok(ts, p) is Rparentheses {
        (Ok(Seq::<ExpressionView>::empty()), p)
    } else {
        let (r, q) = sp_expression(ts, p, Precedences::Lowest);
        match r {
            Err(e) => (Err(e), q),
            Ok(e0) => {
                let qc = at_least(q, p);
                let (r2, q2) = sp_params_rest(ts, padv(ts, qc));
                match r2 {
                    Err(e) => (Err(e), q2),
                    Ok(rest) => (Ok(seq![e0] + rest), q2),
                }
            },
        }
    }
}

/// The remaining elements of an expression list: as long as a comma stands
/// at the cursor, one more expression follows it.
pub open spec fn sp_params_rest(ts: Seq<TokenView>, p: int) -> (Result<
    Seq<ExpressionView>,
    ParserErrorView,
>, int)
    decreases rem(ts, p), 7int,
{
    if tok(ts, p) is Comma {
        let ep = padv(ts, p);
        let (r, q) = sp_expression(ts, ep, Precedences::Lowest);
        match r {
            Err(e) => (Err(e), q),
            Ok(e) => {
                let qc = at_least(q, ep);
                let (r2, q2) = sp_params_rest(ts, padv(ts, qc));
                match r2 {
                    Err(e2) => (Err(e2), q2),
                    Ok(rest) => (Ok(seq![e] + rest), q2),
                }
            },
        }
    } else {
        (Ok(Seq::<ExpressionView>::empty()), p)
    }
}

/// Whether the climbing loop folds the token after `last`: it must be no
/// statement terminator and must bind strictly stronger than the bound in
/// hand.
pub open spec fn sp_folds(ts: Seq<TokenView>, last: int, min_prec: Precedences) -> bool {
    &&& !(tok(ts, last + 1) is Semicolon)
    &&& prec_rank(min_prec) < prec_rank(token_precedence(tok(ts, last + 1)))
}

/// The climbing loop: starting from a finished operand whose last token
/// stands at `last`, folds infix operators while `sp_folds` holds.
pub open spec fn sp_infix_loop(
    ts: Seq<TokenView>,
    left: ExpressionView,
    last: int,
    min_prec: Precedences,
) -> (Result<ExpressionView, ParserErrorView>, int)
    decreases rem(ts, last), 6int,
{
    if sp_folds(ts, last, min_prec) {
        let (r, q) = sp_infix(ts, left, padv(ts, last));
        match r {
            Err(e) => (Err(e), q),
            Ok(nl) => sp_infix_loop(ts, nl, at_least(q, padv(ts, last)), min_prec),
        }
    } else {
        (Ok(left), last)
    }
}

/// One infix fold at operator position `q0`: a call expression when the
/// operator is an opening parenthesis, else a binary operator whose right
/// operand is parsed at the operator's own binding strength.
pub open spec fn sp_infix(ts: Seq<TokenView>, left: ExpressionView, q0: int) -> (Result<
    ExpressionView,
    ParserErrorView,
>, int)
    decreases rem(ts, q0), 10int,
{
    if tok(ts, q0) is Lparentheses {
        sp_call(ts, left, q0)
    } else {
        let op = match tok(ts, q0) {
            TokenView::Plus => Some(crate::operator::Infix::Plus),
            TokenView::Minus => Some(crate::operator::Infix::Minus),
            TokenView::Asterisk => Some(crate::operator::Infix::Asterisk),
            TokenView::Slash => Some(crate::operator::Infix::Slash),
            TokenView::LessThan => Some(crate::operator::Infix::LessThan),
            TokenView::GreaterThan => Some(crate::operator::Infix::GreaterThan),
            TokenView::Equal => Some(crate::operator::Infix::Equal),
            TokenView::NotEqual => Some(crate::operator::Infix::NotEqual),
            _ => None,
        };
        match op {
            None => (Err(ParserErrorView::NotFoundInfixToken { found_token: tok(ts, q0) }), q0),
            Some(op) => {
                let prec = token_precedence(tok(ts, q0));
                let ep = padv(ts, q0);
                let (r, q) = sp_expression(ts, ep, prec);
                match r {
                    Err(e) => (Err(e), q),
                    Ok(right) => (
                        Ok(
                            ExpressionView::InfixExpression {
                                left: Box::new(left),
                                operator: op,
                                right: Box::new(right),
                            },
                        ),
                        at_least(q, ep),
                    ),
                }
            },
        }
    }
}

/// The parse of a call expression's argument list, the callee already in
/// hand and the cursor on the opening parenthesis.
pub open spec fn sp_call(ts: Seq<TokenView>, left: ExpressionView, q0: int) -> (Result<
    ExpressionView,
    ParserErrorView,
>, int)
    decreases rem(ts, q0), 9int,
{
    let ap = padv(ts, q0);
    let (r, q) = sp_params(ts, ap);
    match r {
        Err(e) => (Err(e), q),
        Ok(args) => {
            let qa = at_least(q, ap);
            if tok(ts, qa) is Rparentheses {
                (Ok(ExpressionView::Call { function: Box::new(left), args }), qa)
            } else {
                (
                    Err(
                        ParserErrorView::UnexpectedToken {
                            actual_token: tok(ts, qa),
                            expected_token: TokenView::Rparentheses,
                        },
                    ),
                    qa,
                )
            }
        },
    }
}

/// The parse of a block: statements until a closing brace or the end of the
/// stream, the cursor starting on the opening brace and ending on the
/// closer.
pub open spec fn sp_block(ts: Seq<TokenView>, p: int) -> (Result<
    StatementView,
    ParserErrorView,
>, int)
    decreases rem(ts, p), 11int,
{
    let (r, q) = sp_block_loop(ts, padv(ts, p));
    match r {
        Ok(ss) => (Ok(StatementView::Block(ss)), q),
        Err(e) => (Err(e), q),
    }
}

/// The statements of a block, one after the other.
pub open spec fn sp_block_loop(ts: Seq<TokenView>, p: int) -> (Result<
    Seq<StatementView>,
    ParserErrorView,
>, int)
    decreases rem(ts, p), 10int,
{
    if tok(ts, p) is Rbrace || tok(ts, p) is EndOfFile {
        (Ok(Seq::<StatementView>::empty()), p)
    } else {
        let (r, q) = sp_statement(ts, p);
        match r {
            Err(e) => (Err(e), q),
            Ok(st) => {
                let qc = at_least(q, p);
                let (r2, q2) = sp_block_loop(ts, padv(ts, qc));
                match r2 {
                    Ok(rest) => (Ok(seq![st] + rest), q2),
                    Err(e) => (Err(e), q2),
                }
            },
        }
    }
}

/// The parser: the whole token stream, pulled from the scanner up front,
/// and a cursor holding the current token's position; the token after the
/// cursor is the one token of lookahead.
pub struct Parser {
    tokens: Vec<Token>,
    pos: usize,
}

impl View for Parser {
    type V = (Seq<TokenView>, int);

    closed spec fn view(&self) -> (Seq<TokenView>, int) {
        (tokens_view(self.tokens@), self.pos as int)
    }
}

impl Parser {
    /// The cursor never stands past the end of the stream.
    pub open spec fn wf(&self) -> bool {
        0 <= self@.1 <= self@.0.len()
    }

    /// A parser over everything the given scanner will produce, cursor on
    /// the first token.
    #[verifier::loop_isolation(false)]
    pub fn new(lexer: Lexer) -> (r: Parser)
        requires
            lexer.wf(),
        ensures
            r@.0 == lex_all(lexer@.0, lexer@.1),
            r@.1 == 0,
            r.wf(),
    {
        let mut lx = lexer;
        let ghost s = lx@.0;
        let ghost p_start = lx@.1;
        let mut tokens: Vec<Token> = Vec::new();
        let mut done = false;
        while !done
            invariant
                lx.wf(),
                lx@.0 == s,
                0 <= p_start <= s.len(),
                done ==> tokens_view(tokens@) == lex_all(s, p_start),
                !done ==> lex_all(s, p_start) == tokens_view(tokens@) + lex_all(s, lx@.1),
            decreases (if done {
                0int
            } else {
                1int
            }), s.len() - lx@.1,
        {
            let ghost lp = lx@.1;
            let ghost pre = tokens@;
            let t = lx.next_token();
            proof {
                crate::lexer::lemma_lex_next_bounds(s, lp);
            }
            let is_eof = matches!(t, Token::EndOfFile);
            let ghost tv = t@;
            tokens.push(t);
            proof {
                assert(tokens@.drop_last() =~= pre);
                assert(tokens_view(tokens@) == tokens_view(pre).push(tv));
                if is_eof {
                    assert(lex_all(s, lp) =~= seq![TokenView::EndOfFile]);
                    assert(lex_all(s, p_start) =~= tokens_view(tokens@));
                } else {
                    assert(lex_all(s, lp) == seq![tv] + lex_all(s, lx@.1));
                    assert(lex_all(s, p_start) =~= tokens_view(tokens@) + lex_all(s, lx@.1));
                }
            }
            if is_eof {
                done = true;
            }
        }
        let r = Parser { tokens, pos: 0 };
        proof {
            lemma_tokens_view(r.tokens@);
        }
        r
    }

    fn cur(&self) -> (t: Token)
        ensures
            t@ == tok(self@.0, self@.1),
    {
        proof {
            lemma_tokens_view(self.tokens@);
        }
        if self.pos < self.tokens.len() {
            self.tokens[self.pos].clone()
        } else {
            Token::EndOfFile
        }
    }

    fn peek(&self) -> (t: Token)
        ensures
            t@ == tok(self@.0, self@.1 + 1),
    {
        proof {
            lemma_tokens_view(self.tokens@);
        }
        if self.pos < self.tokens.len() && self.pos + 1 < self.tokens.len() {
            self.tokens[self.pos + 1].clone()
        } else {
            Token::EndOfFile
        }
    }

    fn seek_token(&mut self)
        requires
            old(self).wf(),
        ensures
            final(self)@.0 == old(self)@.0,
            final(self)@.1 == padv(old(self)@.0, old(self)@.1),
            final(self).wf(),
    {
        proof {
            lemma_tokens_view(self.tokens@);
        }
        if self.pos < self.tokens.len() {
            self.pos = self.pos + 1;
        }
    }

    fn at_eof(&self) -> (b: bool)
        ensures
            b == (tok(self@.0, self@.1) is EndOfFile),
    {
        let t = self.cur();
        matches!(t, Token::EndOfFile)
    }

    fn at_block_end(&self) -> (b: bool)
        ensures
            b == (tok(self@.0, self@.1) is Rbrace || tok(self@.0, self@.1) is EndOfFile),
    {
        let t = self.cur();
        matches!(t, Token::Rbrace | Token::EndOfFile)
    }

    fn should_fold(&self, min_prec: Precedences) -> (b: bool)
        ensures
            b == sp_folds(self@.0, self@.1, min_prec),
    {
        let nt = self.peek();
        if matches!(nt, Token::Semicolon) {
            false
        } else {
            min_prec.binds_weaker_than(&nt.precedence())
        }
    }

    /// Parses the whole stream as a program: statements until the
    /// end-of-stream token. The first structural mismatch ends the parse
    /// with its error; no partial program comes back.
    #[verifier::rlimit(75)]
    #[verifier::loop_isolation(false)]
    pub fn parse_program(&mut self) -> (r: Result<Program, ParserError>)
        requires
            old(self).wf(),
        ensures
            final(self)@.0 == old(self)@.0,
            old(self)@.1 <= final(self)@.1 <= old(self)@.0.len(),
            final(self).wf(),
            ({
                let (r0, q0) = sp_program(old(self)@.0, old(self)@.1);
                match r {
                    Ok(prog) => r0 == Ok::<Seq<StatementView>, ParserErrorView>(prog@) && q0
                        == final(self)@.1,
                    Err(e) => r0 == Err::<Seq<StatementView>, ParserErrorView>(e@),
                }
            }),
    {
        let ghost ts = self@.0;
        let ghost p0 = self@.1;
        let mut program = Program::new();
        let mut finished = self.at_eof();
        proof {
            let rc = sp_program(ts, p0);
            match rc.0 {
                Ok(rest) => {
                    assert(crate::ast::stmts_view(program.statements@) + rest =~= rest);
                },
                Err(_) => {},
            }
        }
        while !finished
            invariant
                self.wf(),
                self@.0 == ts,
                p0 <= self@.1 <= ts.len(),
                finished == (tok(ts, self@.1) is EndOfFile),
                ({
                    let r0 = sp_program(ts, p0);
                    let rc = sp_program(ts, self@.1);
                    r0.1 == rc.1 && r0.0 == (match rc.0 {
                        Ok(rest) => Ok::<Seq<StatementView>, ParserErrorView>(
                            crate::ast::stmts_view(program.statements@) + rest,
                        ),
                        Err(e) => Err(e),
                    })
                }),
            decreases ts.len() - self@.1,
        {
            let ghost acc = program.statements@;
            match self.parse_statement() {
                Ok(st) => {
                    let ghost stv = st@;
                    program.statements.push(st);
                    self.seek_token();
                    proof {
                        crate::ast::lemma_stmts_view_push(acc, program.statements@.last());
                        assert(program.statements@.drop_last() =~= acc);
                        let rc2 = sp_program(ts, self@.1);
                        match rc2.0 {
                            Ok(rest2) => {
                                assert(crate::ast::stmts_view(acc) + (seq![stv] + rest2)
                                    =~= crate::ast::stmts_view(program.statements@) + rest2);
                            },
                            Err(_) => {},
                        }
                    }
                },
                Err(e) => {
                    return Err(e);
                },
            }
            finished = self.at_eof();
        }
        proof {
            assert(sp_program(ts, self@.1) == (
                Ok::<Seq<StatementView>, ParserErrorView>(Seq::<StatementView>::empty()),
                self@.1,
            ));
            assert(crate::ast::stmts_view(program.statements@) + Seq::<StatementView>::empty()
                =~= crate::ast::stmts_view(program.statements@));
        }
        Ok(program)
    }

    #[verifier::rlimit(75)]
    #[verifier::loop_isolation(false)]
    fn parse_block_statement(&mut self) -> (r: Result<Statement, ParserError>)
        requires
            old(self).wf(),
            tok(old(self)@.0, old(self)@.1) is Lbrace,
        ensures
            final(self)@.0 == old(self)@.0,
            old(self)@.1 <= final(self)@.1 <= old(self)@.0.len(),
            final(self).wf(),
            ({
                let (r0, q0) = sp_block(old(self)@.0, old(self)@.1);
                match r {
                    Ok(st) => r0 == Ok::<StatementView, ParserErrorView>(st@) && q0 == final(self)@.1,
                    Err(e) => r0 == Err::<StatementView, ParserErrorView>(e@),
                }
            }),
        decreases rem(old(self)@.0, old(self)@.1), 11int,
    {
        let ghost ts = self@.0;
        let ghost p = self@.1;
        let mut statements: Vec<Statement> = Vec::new();
        self.seek_token();
        let mut at_end = self.at_block_end();
        proof {
            let rc = sp_block_loop(ts, self@.1);
            match rc.0 {
                Ok(rest) => {
                    assert(crate::ast::stmts_view(statements@) + rest =~= rest);
                },
                Err(_) => {},
            }
        }
        while !at_end
            invariant
                self.wf(),
                self@.0 == ts,
                0 <= p < ts.len(),
                p < self@.1 <= ts.len(),
                at_end == (tok(ts, self@.1) is Rbrace || tok(ts, self@.1) is EndOfFile),
                ({
                    let r0 = sp_block_loop(ts, padv(ts, p));
                    let rc = sp_block_loop(ts, self@.1);
                    r0.1 == rc.1 && r0.0 == (match rc.0 {
                        Ok(rest) => Ok::<Seq<StatementView>, ParserErrorView>(
                            crate::ast::stmts_view(statements@) + rest,
                        ),
                        Err(e) => Err(e),
                    })
                }),
            decreases ts.len() - self@.1,
        {
            let ghost acc = statements@;
            match self.parse_statement() {
                Ok(st) => {
                    let ghost stv = st@;
                    statements.push(st);
                    self.seek_token();
                    proof {
                        crate::ast::lemma_stmts_view_push(acc, statements@.last());
                        assert(statements@.drop_last() =~= acc);
                        let rc2 = sp_block_loop(ts, self@.1);
                        match rc2.0 {
                            Ok(rest2) => {
                                assert(crate::ast::stmts_view(acc) + (seq![stv] + rest2)
                                    =~= crate::ast::stmts_view(statements@) + rest2);
                            },
                            Err(_) => {},
                        }
                    }
                },
                Err(e) => {
                    return Err(e);
                },
            }
            at_end = self.at_block_end();
        }
        proof {
            assert(sp_block_loop(ts, self@.1) == (
                Ok::<Seq<StatementView>, ParserErrorView>(Seq::<StatementView>::empty()),
                self@.1,
            ));
            assert(crate::ast::stmts_view(statements@) + Seq::<StatementView>::empty()
                =~= crate::ast::stmts_view(statements@));
        }
        Ok(Statement::Block(statements))
    }

    #[verifier::rlimit(75)]
    fn parse_statement(&mut self) -> (r: Result<Statement, ParserError>)
        requires
            old(self).wf(),
        ensures
            final(self)@.0 == old(self)@.0,
            old(self)@.1 <= final(self)@.1 <= old(self)@.0.len(),
            final(self).wf(),
            ({
                let (r0, q0) = sp_statement(old(self)@.0, old(self)@.1);
                match r {
                    Ok(st) => r0 == Ok::<StatementView, ParserErrorView>(st@) && q0 == final(self)@.1,
                    Err(e) => r0 == Err::<StatementView, ParserErrorView>(e@),
                }
            }),
        decreases rem(old(self)@.0, old(self)@.1), 9int,
    {
        let t = self.cur();
        match t {
            Token::Let => self.parse_let_statement(),
            Token::Return => self.parse_return_statement(),
            _ => self.parse_expression_statement(),
        }
    }

    #[verifier::rlimit(75)]
    fn parse_let_statement(&mut self) -> (r: Result<Statement, ParserError>)
        requires
            old(self).wf(),
        ensures
            final(self)@.0 == old(self)@.0,
            old(self)@.1 <= final(self)@.1 <= old(self)@.0.len(),
            final(self).wf(),
            ({
                let (r0, q0) = sp_let(old(self)@.0, old(self)@.1);
                match r {
                    Ok(st) => r0 == Ok::<StatementView, ParserErrorView>(st@) && q0 == final(self)@.1,
                    Err(e) => r0 == Err::<StatementView, ParserErrorView>(e@),
                }
            }),
        decreases rem(old(self)@.0, old(self)@.1), 8int,
    {
        self.seek_token();
        let t = self.cur();
        let identifier = match t {
            Token::Identifier(name) => Expression::Identifier(name),
            _ => {
                return Err(ParserError::NotFoundLetIdentifier { found_token: self.peek() });
            },
        };
        self.seek_token();
        match self.expect_current(Token::Assign) {
            Ok(_) => {},
            Err(e) => {
                return Err(e);
            },
        }
        self.seek_token();
        let value = match self.parse_expression(Precedences::Lowest) {
            Ok(v) => v,
            Err(e) => {
                return Err(e);
            },
        };
        let nt = self.peek();
        if matches!(nt, Token::Semicolon) {
            self.seek_token();
        }
        Ok(Statement::Let { identifier, value })
    }

    #[verifier::rlimit(75)]
    fn parse_return_statement(&mut self) -> (r: Result<Statement, ParserError>)
        requires
            old(self).wf(),
        ensures
            final(self)@.0 == old(self)@.0,
            old(self)@.1 <= final(self)@.1 <= old(self)@.0.len(),
            final(self).wf(),
            ({
                let (r0, q0) = sp_return(old(self)@.0, old(self)@.1);
                match r {
                    Ok(st) => r0 == Ok::<StatementView, ParserErrorView>(st@) && q0 == final(self)@.1,
                    Err(e) => r0 == Err::<StatementView, ParserErrorView>(e@),
                }
            }),
        decreases rem(old(self)@.0, old(self)@.1), 8int,
    {
        self.seek_token();
        let expression = match self.parse_expression(Precedences::Lowest) {
            Ok(v) => v,
            Err(e) => {
                return Err(e);
            },
        };
        let nt = self.peek();
        if matches!(nt, Token::Semicolon) {
            self.seek_token();
        }
        Ok(Statement::Return(expression))
    }

    #[verifier::rlimit(75)]
    fn parse_expression_statement(&mut self) -> (r: Result<Statement, ParserError>)
        requires
            old(self).wf(),
        ensures
            final(self)@.0 == old(self)@.0,
            old(self)@.1 <= final(self)@.1 <= old(self)@.0.len(),
            final(self).wf(),
            ({
                let (r0, q0) = sp_expr_stmt(old(self)@.0, old(self)@.1);
                match r {
                    Ok(st) => r0 == Ok::<StatementView, ParserErrorView>(st@) && q0 == final(self)@.1,
                    Err(e) => r0 == Err::<StatementView, ParserErrorView>(e@),
                }
            }),
        decreases rem(old(self)@.0, old(self)@.1), 8int,
    {
        let expression = match self.parse_expression(Precedences::Lowest) {
            Ok(v) => v,
            Err(e) => {
                return Err(e);
            },
        };
        let nt = self.peek();
        if matches!(nt, Token::Semicolon) {
            self.seek_token();
        }
        Ok(Statement::Expression(expression))
    }

    #[verifier::rlimit(75)]
    #[verifier::loop_isolation(false)]
    fn parse_expression(&mut self, precedence: Precedences) -> (r: Result<Expression, ParserError>)
        requires
            old(self).wf(),
        ensures
            final(self)@.0 == old(self)@.0,
            old(self)@.1 <= final(self)@.1 <= old(self)@.0.len(),
            final(self).wf(),
            ({
                let (r0, q0) = sp_expression(old(self)@.0, old(self)@.1, precedence);
                match r {
                    Ok(e) => r0 == Ok::<ExpressionView, ParserErrorView>(e@) && q0 == final(self)@.1,
                    Err(e) => r0 == Err::<ExpressionView, ParserErrorView>(e@),
                }
            }),
        decreases rem(old(self)@.0, old(self)@.1), 7int,
    {
        let ghost ts = self@.0;
        let ghost p = self@.1;
        let t = self.cur();
        let prefix_result: Result<Expression, ParserError> = match t {
            Token::Identifier(name) => self.parse_identifier(name),
            Token::Integer(i) => self.parse_integer(i),
            Token::Minus => {
                self.seek_token();
                self.parse_prefix_expression(Prefix::Minus)
            },
            Token::Exclamation => {
                self.seek_token();
                self.parse_prefix_expression(Prefix::Exclamation)
            },
            Token::True => self.parse_boolean(true),
            Token::False => self.parse_boolean(false),
            Token::Lparentheses => self.parse_grouped_expression(),
            Token::If => self.parse_if_expression(),
            Token::Function => self.parse_function_expression(),
            other => Err(ParserError::UnImplementationParser { found_token: other }),
        };
        let mut expression = match prefix_result {
            Ok(e) => e,
            Err(e) => {
                proof {
                    assert(sp_expression(ts, p, precedence).0 == Err::<
                        ExpressionView,
                        ParserErrorView,
                    >(e@));
                }
                return Err(e);
            },
        };
        proof {
            assert(at_least(self@.1, p) == self@.1);
            assert(sp_expression(ts, p, precedence) == sp_infix_loop(
                ts,
                expression@,
                self@.1,
                precedence,
            ));
        }
        let mut go = self.should_fold(precedence);
        while go
            invariant
                self.wf(),
                self@.0 == ts,
                p <= self@.1 <= ts.len(),
                go == sp_folds(ts, self@.1, precedence),
                sp_expression(ts, p, precedence) == sp_infix_loop(
                    ts,
                    expression@,
                    self@.1,
                    precedence,
                ),
            decreases ts.len() - self@.1,
        {
            let ghost last = self@.1;
            let ghost le = expression@;
            proof {
                assert(prec_rank(token_precedence(tok(ts, last + 1))) >= 1);
                assert(!(tok(ts, last + 1) is EndOfFile));
                assert(last + 1 <= ts.len());
            }
            self.seek_token();
            expression = match self.parse_infix_expression(expression) {
                Ok(e) => e,
                Err(e) => {
                    proof {
                        assert(sp_infix_loop(ts, le, last, precedence).0 == Err::<
                            ExpressionView,
                            ParserErrorView,
                        >(e@));
                    }
                    return Err(e);
                },
            };
            proof {
                assert(at_least(self@.1, padv(ts, last)) == self@.1);
                assert(sp_infix_loop(ts, le, last, precedence) == sp_infix_loop(
                    ts,
                    expression@,
                    self@.1,
                    precedence,
                ));
            }
            go = self.should_fold(precedence);
        }
        Ok(expression)
    }

    fn parse_identifier(&mut self, identifier: String) -> (r: Result<Expression, ParserError>)
        ensures
            *final(self) == *old(self),
            ({
                match r {
                    Ok(e) => e@ == ExpressionView::Identifier(identifier@),
                    Err(_) => false,
                }
            }),
    {
        Ok(Expression::Identifier(identifier))
    }

    fn parse_integer(&mut self, integer: i32) -> (r: Result<Expression, ParserError>)
        ensures
            *final(self) == *old(self),
            ({
                match r {
                    Ok(e) => e@ == ExpressionView::Integer(integer),
                    Err(_) => false,
                }
            }),
    {
        Ok(Expression::Integer(integer))
    }

    fn parse_boolean(&mut self, boolean: bool) -> (r: Result<Expression, ParserError>)
        ensures
            *final(self) == *old(self),
            ({
                match r {
                    Ok(e) => e@ == ExpressionView::Boolean(boolean),
                    Err(_) => false,
                }
            }),
    {
        Ok(Expression::Boolean(boolean))
    }

    #[verifier::rlimit(75)]
    fn parse_prefix_expression(&mut self, operator: Prefix) -> (r: Result<Expression, ParserError>)
        requires
            old(self).wf(),
        ensures
            final(self)@.0 == old(self)@.0,
            old(self)@.1 <= final(self)@.1 <= old(self)@.0.len(),
            final(self).wf(),
            ({
                let (r0, q0) = sp_prefix(old(self)@.0, old(self)@.1, operator);
                match r {
                    Ok(e) => r0 == Ok::<ExpressionView, ParserErrorView>(e@) && q0 == final(self)@.1,
                    Err(e) => r0 == Err::<ExpressionView, ParserErrorView>(e@),
                }
            }),
        decreases rem(old(self)@.0, old(self)@.1), 8int,
    {
        let expression = match self.parse_expression(Precedences::Prefix) {
            Ok(e) => e,
            Err(e) => {
                return Err(e);
            },
        };
        Ok(Expression::PrefixExpression { operator, expression: Box::new(expression) })
    }

    #[verifier::rlimit(75)]
    fn parse_infix_expression(&mut self, left: Expression) -> (r: Result<Expression, ParserError>)
        requires
            old(self).wf(),
        ensures
            final(self)@.0 == old(self)@.0,
            old(self)@.1 <= final(self)@.1 <= old(self)@.0.len(),
            final(self).wf(),
            ({
                let (r0, q0) = sp_infix(old(self)@.0, left@, old(self)@.1);
                match r {
                    Ok(e) => r0 == Ok::<ExpressionView, ParserErrorView>(e@) && q0 == final(self)@.1,
                    Err(e) => r0 == Err::<ExpressionView, ParserErrorView>(e@),
                }
            }),
        decreases rem(old(self)@.0, old(self)@.1), 10int,
    {
        let t = self.cur();
        if matches!(t, Token::Lparentheses) {
            return self.parse_call_expression(left);
        }
        let precedence = t.precedence();
        let infix = match t {
            Token::Plus => crate::operator::Infix::Plus,
            Token::Minus => crate::operator::Infix::Minus,
            Token::Asterisk => crate::operator::Infix::Asterisk,
            Token::Slash => crate::operator::Infix::Slash,
            Token::LessThan => crate::operator::Infix::LessThan,
            Token::GreaterThan => crate::operator::Infix::GreaterThan,
            Token::Equal => crate::operator::Infix::Equal,
            Token::NotEqual => crate::operator::Infix::NotEqual,
            other => {
                return Err(ParserError::NotFoundInfixToken { found_token: other });
            },
        };
        self.seek_token();
        let right = match self.parse_expression(precedence) {
            Ok(e) => e,
            Err(e) => {
                return Err(e);
            },
        };
        Ok(
            Expression::InfixExpression {
                left: Box::new(left),
                operator: infix,
                right: Box::new(right),
            },
        )
    }

    #[verifier::rlimit(75)]
    fn parse_call_expression(&mut self, function: Expression) -> (r: Result<
        Expression,
        ParserError,
    >)
        requires
            old(self).wf(),
            tok(old(self)@.0, old(self)@.1) is Lparentheses,
        ensures
            final(self)@.0 == old(self)@.0,
            old(self)@.1 <= final(self)@.1 <= old(self)@.0.len(),
            final(self).wf(),
            ({
                let (r0, q0) = sp_call(old(self)@.0, function@, old(self)@.1);
                match r {
                    Ok(e) => r0 == Ok::<ExpressionView, ParserErrorView>(e@) && q0 == final(self)@.1,
                    Err(e) => r0 == Err::<ExpressionView, ParserErrorView>(e@),
                }
            }),
        decreases rem(old(self)@.0, old(self)@.1), 9int,
    {
        self.seek_token();
        let args = match self.parse_function_parameters() {
            Ok(a) => a,
            Err(e) => {
                return Err(e);
            },
        };
        match self.expect_current(Token::Rparentheses) {
            Ok(_) => {},
            Err(e) => {
                return Err(e);
            },
        }
        Ok(Expression::Call { function: Box::new(function), args })
    }

    #[verifier::rlimit(75)]
    fn parse_if_expression(&mut self) -> (r: Result<Expression, ParserError>)
        requires
            old(self).wf(),
            tok(old(self)@.0, old(self)@.1) is If,
        ensures
            final(self)@.0 == old(self)@.0,
            old(self)@.1 <= final(self)@.1 <= old(self)@.0.len(),
            final(self).wf(),
            ({
                let (r0, q0) = sp_if(old(self)@.0, padv(old(self)@.0, old(self)@.1));
                match r {
                    Ok(e) => r0 == Ok::<ExpressionView, ParserErrorView>(e@) && q0 == final(self)@.1,
                    Err(e) => r0 == Err::<ExpressionView, ParserErrorView>(e@),
                }
            }),
        decreases rem(old(self)@.0, old(self)@.1), 6int,
    {
        self.seek_token();
        match self.expect_current(Token::Lparentheses) {
            Ok(_) => {},
            Err(e) => {
                return Err(e);
            },
        }
        self.seek_token();
        let condition = match self.parse_expression(Precedences::Lowest) {
            Ok(e) => e,
            Err(e) => {
                return Err(e);
            },
        };
        self.seek_token();
        match self.expect_current(Token::Rparentheses) {
            Ok(_) => {},
            Err(e) => {
                return Err(e);
            },
        }
        self.seek_token();
        match self.expect_current(Token::Lbrace) {
            Ok(_) => {},
            Err(e) => {
                return Err(e);
            },
        }
        let consequence = match self.parse_block_statement() {
            Ok(st) => st,
            Err(e) => {
                return Err(e);
            },
        };
        let nt = self.peek();
        let alternative = if matches!(nt, Token::Else) {
            self.seek_token();
            self.seek_token();
            match self.expect_current(Token::Lbrace) {
                Ok(_) => {},
                Err(e) => {
                    return Err(e);
                },
            }
            match self.parse_block_statement() {
                Ok(st) => Some(Box::new(st)),
                Err(e) => {
                    return Err(e);
                },
            }
        } else {
            None
        };
        Ok(
            Expression::IfExpression {
                condition: Box::new(condition),
                consequence: Box::new(consequence),
                alternative,
            },
        )
    }

    #[verifier::rlimit(75)]
    fn parse_function_expression(&mut self) -> (r: Result<Expression, ParserError>)
        requires
            old(self).wf(),
            tok(old(self)@.0, old(self)@.1) is Function,
        ensures
            final(self)@.0 == old(self)@.0,
            old(self)@.1 <= final(self)@.1 <= old(self)@.0.len(),
            final(self).wf(),
            ({
                let (r0, q0) = sp_function(old(self)@.0, padv(old(self)@.0, old(self)@.1));
                match r {
                    Ok(e) => r0 == Ok::<ExpressionView, ParserErrorView>(e@) && q0 == final(self)@.1,
                    Err(e) => r0 == Err::<ExpressionView, ParserErrorView>(e@),
                }
            }),
        decreases rem(old(self)@.0, old(self)@.1), 6int,
    {
        self.seek_token();
        match self.expect_current(Token::Lparentheses) {
            Ok(_) => {},
            Err(e) => {
                return Err(e);
            },
        }
        self.seek_token();
        let parameters = match self.parse_function_parameters() {
            Ok(ps) => ps,
            Err(e) => {
                return Err(e);
            },
        };
        match self.expect_current(Token::Rparentheses) {
            Ok(_) => {},
            Err(e) => {
                return Err(e);
            },
        }
        self.seek_token();
        match self.expect_current(Token::Lbrace) {
            Ok(_) => {},
            Err(e) => {
                return Err(e);
            },
        }
        let body = match self.parse_block_statement() {
            Ok(st) => st,
            Err(e) => {
                return Err(e);
            },
        };
        Ok(Expression::Function { parameters, body: Box::new(body) })
    }

    #[verifier::rlimit(75)]
    #[verifier::loop_isolation(false)]
    fn parse_function_parameters(&mut self) -> (r: Result<Vec<Expression>, ParserError>)
        requires
            old(self).wf(),
        ensures
            final(self)@.0 == old(self)@.0,
            old(self)@.1 <= final(self)@.1 <= old(self)@.0.len(),
            final(self).wf(),
            ({
                let (r0, q0) = sp_params(old(self)@.0, old(self)@.1);
                match r {
                    Ok(ps) => r0 == Ok::<Seq<ExpressionView>, ParserErrorView>(
                        crate::ast::exprs_view(ps@),
                    ) && q0 == final(self)@.1,
                    Err(e) => r0 == Err::<Seq<ExpressionView>, ParserErrorView>(e@),
                }
            }),
        decreases rem(old(self)@.0, old(self)@.1), 8int,
    {
        let ghost ts = self@.0;
        let ghost p = self@.1;
        let mut parameters: Vec<Expression> = Vec::new();
        let t = self.cur();
        if matches!(t, Token::Rparentheses) {
            proof {
                assert(crate::ast::exprs_view(parameters@) =~= Seq::<ExpressionView>::empty());
            }
            return Ok(parameters);
        }
        let first = match self.parse_expression(Precedences::Lowest) {
            Ok(e) => e,
            Err(e) => {
                return Err(e);
            },
        };
        parameters.push(first);
        self.seek_token();
        proof {
            crate::ast::lemma_exprs_view_push(Seq::<Expression>::empty(), parameters@.last());
            assert(parameters@.drop_last() =~= Seq::<Expression>::empty());
            assert(crate::ast::exprs_view(Seq::<Expression>::empty())
                =~= Seq::<ExpressionView>::empty());
            let rc = sp_params_rest(ts, self@.1);
            match rc.0 {
                Ok(rest) => {
                    assert(crate::ast::exprs_view(parameters@) + rest =~= seq![
                        crate::ast::exprs_view(parameters@)[0],
                    ] + rest);
                },
                Err(_) => {},
            }
        }
        let mut at_comma = {
            let c = self.cur();
            matches!(c, Token::Comma)
        };
        while at_comma
            invariant
                self.wf(),
                self@.0 == ts,
                p < self@.1 <= ts.len(),
                at_comma == (tok(ts, self@.1) is Comma),
                ({
                    let r0 = sp_params(ts, p);
                    let rc = sp_params_rest(ts, self@.1);
                    r0.1 == rc.1 && r0.0 == (match rc.0 {
                        Ok(rest) => Ok::<Seq<ExpressionView>, ParserErrorView>(
                            crate::ast::exprs_view(parameters@) + rest,
                        ),
                        Err(e) => Err(e),
                    })
                }),
            decreases ts.len() - self@.1,
        {
            let ghost acc = parameters@;
            self.seek_token();
            match self.parse_expression(Precedences::Lowest) {
                Ok(e) => {
                    parameters.push(e);
                },
                Err(e) => {
                    return Err(e);
                },
            }
            self.seek_token();
            proof {
                crate::ast::lemma_exprs_view_push(acc, parameters@.last());
                assert(parameters@.drop_last() =~= acc);
                let rc2 = sp_params_rest(ts, self@.1);
                match rc2.0 {
                    Ok(rest2) => {
                        assert(crate::ast::exprs_view(acc) + (seq![
                            crate::ast::exprs_view(parameters@).last(),
                        ] + rest2) =~= crate::ast::exprs_view(parameters@) + rest2);
                    },
                    Err(_) => {},
                }
            }
            at_comma = {
                let c = self.cur();
                matches!(c, Token::Comma)
            };
        }
        proof {
            assert(sp_params_rest(ts, self@.1) == (
                Ok::<Seq<ExpressionView>, ParserErrorView>(Seq::<ExpressionView>::empty()),
                self@.1,
            ));
            assert(crate::ast::exprs_view(parameters@) + Seq::<ExpressionView>::empty()
                =~= crate::ast::exprs_view(parameters@));
        }
        Ok(parameters)
    }

    #[verifier::rlimit(75)]
    fn parse_grouped_expression(&mut self) -> (r: Result<Expression, ParserError>)
        requires
            old(self).wf(),
            tok(old(self)@.0, old(self)@.1) is Lparentheses,
        ensures
            final(self)@.0 == old(self)@.0,
            old(self)@.1 <= final(self)@.1 <= old(self)@.0.len(),
            final(self).wf(),
            ({
                let (r0, q0) = sp_grouped(old(self)@.0, padv(old(self)@.0, old(self)@.1));
                match r {
                    Ok(e) => r0 == Ok::<ExpressionView, ParserErrorView>(e@) && q0 == final(self)@.1,
                    Err(e) => r0 == Err::<ExpressionView, ParserErrorView>(e@),
                }
            }),
        decreases rem(old(self)@.0, old(self)@.1), 6int,
    {
        self.seek_token();
        let expression = match self.parse_expression(Precedences::Lowest) {
            Ok(e) => e,
            Err(e) => {
                return Err(e);
            },
        };
        self.seek_token();
        match self.expect_current(Token::Rparentheses) {
            Ok(_) => {},
            Err(e) => {
                return Err(e);
            },
        }
        Ok(expression)
    }

    fn expect_current(&mut self, token: Token) -> (r: Result<(), ParserError>)
        ensures
            *final(self) == *old(self),
            ({
                match r {
                    Ok(_) => tok(old(self)@.0, old(self)@.1) == token@,
                    Err(e) => tok(old(self)@.0, old(self)@.1) != token@ && e@
                        == (ParserErrorView::UnexpectedToken {
                        actual_token: tok(old(self)@.0, old(self)@.1),
                        expected_token: token@,
                    }),
                }
            }),
    {
        let cur = self.cur();
        if token_eq(&cur, &token) {
            Ok(())
        } else {
            Err(ParserError::UnexpectedToken { actual_token: cur, expected_token: token })
        }
    }
}

/// Decides whole-token equality, payloads included.
#[verifier::rlimit(75)]
fn token_eq(a: &Token, b: &Token) -> (r: bool)
    ensures
        r == (a@ == b@),
{
    match (a, b) {
        (Token::Illegal, Token::Illegal) => true,
        (Token::EndOfFile, Token::EndOfFile) => true,
        (Token::Identifier(x), Token::Identifier(y)) => *x == *y,
        (Token::Integer(x), Token::Integer(y)) => *x == *y,
        (Token::Assign, Token::Assign) => true,
        (Token::Plus, Token::Plus) => true,
        (Token::Minus, Token::Minus) => true,
        (Token::Exclamation, Token::Exclamation) => true,
        (Token::Asterisk, Token::Asterisk) => true,
        (Token::Slash, Token::Slash) => true,
        (Token::LessThan, Token::LessThan) => true,
        (Token::GreaterThan, Token::GreaterThan) => true,
        (Token::Equal, Token::Equal) => true,
        (Token::NotEqual, Token::NotEqual) => true,
        (Token::Comma, Token::Comma) => true,
        (Token::Semicolon, Token::Semicolon) => true,
        (Token::Lparentheses, Token::Lparentheses) => true,
        (Token::Rparentheses, Token::Rparentheses) => true,
        (Token::Lbrace, Token::Lbrace) => true,
        (Token::Rbrace, Token::Rbrace) => true,
        (Token::Function, Token::Function) => true,
        (Token::Let, Token::Let) => true,
        (Token::True, Token::True) => true,
        (Token::False, Token::False) => true,
        (Token::If, Token::If) => true,
        (Token::Else, Token::Else) => true,
        (Token::Return, Token::Return) => true,
        _ => false,
    }
}

/// One slice of the render-parse round trip, proved end to end: the
/// rendered form of a statement holding a non-negative integer literal
/// scans and parses back to exactly that statement. (The round trip does
/// not hold of every tree: a negative literal renders with a minus sign,
/// which parses back as a prefix operator.)
pub proof fn lemma_round_trip_integer_statement(n: i32)
    requires
        0 <= n,
    ensures
        ({
            let st = StatementView::Expression(ExpressionView::Integer(n));
            let text = crate::ast::stmt_code_spec(st);
            sp_program(lex_all(text, 0), 0).0 == Ok::<Seq<StatementView>, ParserErrorView>(
                seq![st],
            )
        }),
{
    let st = StatementView::Expression(ExpressionView::Integer(n));
    let text = crate::ast::stmt_code_spec(st);
    let d = crate::text::dec_digits(n as nat);
    reveal_strlit(";");
    assert(";"@ =~= seq![';']);
    assert(text =~= d + seq![';']);
    let s = d + seq![';'];
    crate::lexer::lemma_dec_digits_are_digits(n as nat);
    crate::lexer::lemma_digits_val_of_dec(n as nat);
    assert(crate::lexer::is_digit_char(s[0]));
    assert(crate::lexer::skip_ws_pos(s, 0) == 0);
    assert(s[d.len() as int] == ';');
    crate::lexer::lemma_scan_digits_run(s, 0, d.len() as int);
    assert(s.subrange(0, d.len() as int) =~= d);
    assert(crate::lexer::lex_next(s, 0) == (TokenView::Integer(n), d.len() as int));
    assert(crate::lexer::skip_ws_pos(s, d.len() as int) == d.len() as int);
    assert(crate::lexer::lex_next(s, d.len() as int) == (TokenView::Semicolon, s.len() as int));
    assert(crate::lexer::skip_ws_pos(s, s.len() as int) == s.len() as int);
    assert(crate::lexer::char_at(s, s.len() as int) == '\u{0}');
    assert(crate::lexer::lex_next(s, s.len() as int).0 == TokenView::EndOfFile);
    reveal_with_fuel(crate::lexer::lex_all, 4);
    let ts = lex_all(s, 0);
    assert(ts =~= seq![TokenView::Integer(n), TokenView::Semicolon, TokenView::EndOfFile]);
    assert(tok(ts, 0) == TokenView::Integer(n));
    assert(tok(ts, 1) == TokenView::Semicolon);
    assert(tok(ts, 2) == TokenView::EndOfFile);
    assert(!sp_folds(ts, 0, Precedences::Lowest));
    assert(sp_infix_loop(ts, ExpressionView::Integer(n), 0, Precedences::Lowest) == (
        Ok::<ExpressionView, ParserErrorView>(ExpressionView::Integer(n)),
        0int,
    ));
    assert(sp_expression(ts, 0, Precedences::Lowest) == (
        Ok::<ExpressionView, ParserErrorView>(ExpressionView::Integer(n)),
        0int,
    ));
    assert(sp_expr_stmt(ts, 0) == (Ok::<StatementView, ParserErrorView>(st), 1int));
    assert(sp_statement(ts, 0) == (Ok::<StatementView, ParserErrorView>(st), 1int));
    assert(sp_program(ts, 2).0 == Ok::<Seq<StatementView>, ParserErrorView>(
        Seq::<StatementView>::empty(),
    ));
    assert(seq![st] + Seq::<StatementView>::empty() =~= seq![st]);
    assert(sp_program(ts, 0).0 == Ok::<Seq<StatementView>, ParserErrorView>(seq![st]));
}

/// The same round-trip slice for a boolean literal statement: its rendered
/// form scans (through the keyword path) and parses back to exactly that
/// statement.
pub proof fn lemma_round_trip_boolean_statement(b: bool)
    ensures
        ({
            let st = StatementView::Expression(ExpressionView::Boolean(b));
            let text = crate::ast::stmt_code_spec(st);
            sp_program(lex_all(text, 0), 0).0 == Ok::<Seq<StatementView>, ParserErrorView>(
                seq![st],
            )
        }),
{
    let st = StatementView::Expression(ExpressionView::Boolean(b));
    let text = crate::ast::stmt_code_spec(st);
    reveal_strlit(";");
    reveal_strlit("fn");
    reveal_strlit("let");
    reveal_strlit("true");
    reveal_strlit("false");
    reveal_strlit("if");
    reveal_strlit("else");
    reveal_strlit("return");
    let word = crate::ast::bool_code_spec(b);
    let s = text;
    assert(s =~= word + seq![';']);
    let n = word.len() as int;
    assert(forall|k: int|
        0 <= k < n ==> crate::lexer::is_ident_char(#[trigger] s[k]));
    assert(!crate::lexer::is_ident_char(s[n]));
    assert(crate::lexer::skip_ws_pos(s, 0) == 0);
    crate::lexer::lemma_scan_ident_run(s, 0, n);
    assert(s.subrange(0, n) =~= word);
    if b {
        assert(crate::lexer::keyword_token(word) == TokenView::True);
        assert(crate::lexer::lex_next(s, 0) == (TokenView::True, n));
    } else {
        assert(crate::lexer::keyword_token(word) == TokenView::False);
        assert(crate::lexer::lex_next(s, 0) == (TokenView::False, n));
    }
    assert(crate::lexer::skip_ws_pos(s, n) == n);
    assert(crate::lexer::lex_next(s, n) == (TokenView::Semicolon, s.len() as int));
    assert(crate::lexer::skip_ws_pos(s, s.len() as int) == s.len() as int);
    assert(crate::lexer::char_at(s, s.len() as int) == '\u{0}');
    assert(crate::lexer::lex_next(s, s.len() as int).0 == TokenView::EndOfFile);
    reveal_with_fuel(crate::lexer::lex_all, 4);
    let ts = lex_all(s, 0);
    let btok = if b {
        TokenView::True
    } else {
        TokenView::False
    };
    assert(ts =~= seq![btok, TokenView::Semicolon, TokenView::EndOfFile]);
    assert(tok(ts, 0) == btok);
    assert(tok(ts, 1) == TokenView::Semicolon);
    assert(tok(ts, 2) == TokenView::EndOfFile);
    assert(!sp_folds(ts, 0, Precedences::Lowest));
    assert(sp_infix_loop(ts, ExpressionView::Boolean(b), 0, Precedences::Lowest) == (
        Ok::<ExpressionView, ParserErrorView>(ExpressionView::Boolean(b)),
        0int,
    ));
    assert(sp_expression(ts, 0, Precedences::Lowest) == (
        Ok::<ExpressionView, ParserErrorView>(ExpressionView::Boolean(b)),
        0int,
    ));
    assert(sp_expr_stmt(ts, 0) == (Ok::<StatementView, ParserErrorView>(st), 1int));
    assert(sp_statement(ts, 0) == (Ok::<StatementView, ParserErrorView>(st), 1int));
    assert(sp_program(ts, 2).0 == Ok::<Seq<StatementView>, ParserErrorView>(
        Seq::<StatementView>::empty(),
    ));
    assert(seq![st] + Seq::<StatementView>::empty() =~= seq![st]);
    assert(sp_program(ts, 0).0 == Ok::<Seq<StatementView>, ParserErrorView>(seq![st]));
}

/// The same round-trip slice for an identifier statement: the rendered form
/// of a bare identifier that is no keyword scans and parses back to exactly
/// that statement.
pub proof fn lemma_round_trip_identifier_statement(name: Seq<char>)
    requires
        name.len() >= 1,
        crate::lexer::is_letter_char(name[0]),
        forall|k: int| 0 <= k < name.len() ==> crate::lexer::is_ident_char(#[trigger] name[k]),
        name != "fn"@,
        name != "let"@,
        name != "true"@,
        name != "false"@,
        name != "if"@,
        name != "else"@,
        name != "return"@,
    ensures
        ({
            let st = StatementView::Expression(ExpressionView::Identifier(name));
            let text = crate::ast::stmt_code_spec(st);
            sp_program(lex_all(text, 0), 0).0 == Ok::<Seq<StatementView>, ParserErrorView>(
                seq![st],
            )
        }),
{
    let st = StatementView::Expression(ExpressionView::Identifier(name));
    let text = crate::ast::stmt_code_spec(st);
    reveal_strlit(";");
    let s = text;
    assert(s =~= name + seq![';']);
    let n = name.len() as int;
    assert(!crate::lexer::is_ident_char(s[n]));
    assert(crate::lexer::skip_ws_pos(s, 0) == 0);
    crate::lexer::lemma_scan_ident_run(s, 0, n);
    assert(s.subrange(0, n) =~= name);
    assert(crate::lexer::keyword_token(name) == TokenView::Identifier(name));
    assert(crate::lexer::lex_next(s, 0) == (TokenView::Identifier(name), n));
    assert(crate::lexer::skip_ws_pos(s, n) == n);
    assert(crate::lexer::lex_next(s, n) == (TokenView::Semicolon, s.len() as int));
    assert(crate::lexer::skip_ws_pos(s, s.len() as int) == s.len() as int);
    assert(crate::lexer::char_at(s, s.len() as int) == '\u{0}');
    assert(crate::lexer::lex_next(s, s.len() as int).0 == TokenView::EndOfFile);
    reveal_with_fuel(crate::lexer::lex_all, 4);
    let ts = lex_all(s, 0);
    assert(ts =~= seq![TokenView::Identifier(name), TokenView::Semicolon, TokenView::EndOfFile]);
    assert(tok(ts, 0) == TokenView::Identifier(name));
    assert(tok(ts, 1) == TokenView::Semicolon);
    assert(tok(ts, 2) == TokenView::EndOfFile);
    assert(!sp_folds(ts, 0, Precedences::Lowest));
    assert(sp_infix_loop(ts, ExpressionView::Identifier(name), 0, Precedences::Lowest) == (
        Ok::<ExpressionView, ParserErrorView>(ExpressionView::Identifier(name)),
        0int,
    ));
    assert(sp_expression(ts, 0, Precedences::Lowest) == (
        Ok::<ExpressionView, ParserErrorView>(ExpressionView::Identifier(name)),
        0int,
    ));
    assert(sp_expr_stmt(ts, 0) == (Ok::<StatementView, ParserErrorView>(st), 1int));
    assert(sp_statement(ts, 0) == (Ok::<StatementView, ParserErrorView>(st), 1int));
    assert(sp_program(ts, 2).0 == Ok::<Seq<StatementView>, ParserErrorView>(
        Seq::<StatementView>::empty(),
    ));
    assert(seq![st] + Seq::<StatementView>::empty() =~= seq![st]);
    assert(sp_program(ts, 0).0 == Ok::<Seq<StatementView>, ParserErrorView>(seq![st]));
}

} // verus!
