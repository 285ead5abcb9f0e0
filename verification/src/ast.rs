//! The abstract syntax tree: `Statement` and `Expression` variant families,
//! a `Program` as an ordered list of statements, and a textual round-trip
//! renderer that prints every tree back in fully parenthesised source form.
//!
//! Each tree type has a ghost mirror (`ExpressionView`, `StatementView`) over
//! `Seq` and mathematical values; every contract of the crate speaks of those
//! views.
use vstd::prelude::*;

use crate::operator;
use crate::operator::{infix_code_spec, prefix_code_spec, Infix, Prefix};
use crate::text;
use crate::text::int_code_spec;

verus! {

/// A parsed program: its top-level statements in source order.
pub struct Program {
    pub statements: Vec<Statement>,
}

/// A statement of the language.
#[derive(Debug, PartialEq)]
pub enum Statement {
    Let { identifier: Expression, value: Expression },
    Return(Expression),
    Expression(Expression),
    Block(Vec<Statement>),
}

/// An expression of the language. `Illegal` is a parse-failure placeholder
/// and never appears in a successfully parsed program.
#[derive(Debug, PartialEq)]
pub enum Expression {
    Illegal,
    Identifier(String),
    Integer(i32),
    Boolean(bool),
    PrefixExpression { operator: operator::Prefix, expression: Box<Expression> },
    InfixExpression { left: Box<Expression>, operator: operator::Infix, right: Box<Expression> },
    IfExpression {
        condition: Box<Expression>,
        consequence: Box<Statement>,
        alternative: Option<Box<Statement>>,
    },
    Function { parameters: Vec<Expression>, body: Box<Statement> },
    Call { function: Box<Expression>, args: Vec<Expression> },
}

/// The mathematical mirror of `Expression`.
pub ghost enum ExpressionView {
    Illegal,
    Identifier(Seq<char>),
    Integer(i32),
    Boolean(bool),
    PrefixExpression { operator: Prefix, expression: Box<ExpressionView> },
    InfixExpression { left: Box<ExpressionView>, operator: Infix, right: Box<ExpressionView> },
    IfExpression {
        condition: Box<ExpressionView>,
        consequence: Box<StatementView>,
        alternative: Option<Box<StatementView>>,
    },
    Function { parameters: Seq<ExpressionView>, body: Box<StatementView> },
    Call { function: Box<ExpressionView>, args: Seq<ExpressionView> },
}

/// The mathematical mirror of `Statement`.
pub ghost enum StatementView {
    Let { identifier: ExpressionView, value: ExpressionView },
    Return(ExpressionView),
    Expression(ExpressionView),
    Block(Seq<StatementView>),
}

/// The view of an expression tree.
pub open spec fn expr_view(e: Expression) -> ExpressionView
    decreases e,
{
    match e {
        Expression::Illegal => ExpressionView::Illegal,
        Expression::Identifier(name) => ExpressionView::Identifier(name@),
        Expression::Integer(i) => ExpressionView::Integer(i),
        Expression::Boolean(b) => ExpressionView::Boolean(b),
        Expression::PrefixExpression { operator, expression } => ExpressionView::PrefixExpression {
            operator,
            expression: Box::new(expr_view(*expression)),
        },
        Expression::InfixExpression { left, operator, right } => ExpressionView::InfixExpression {
            left: Box::new(expr_view(*left)),
            operator,
            right: Box::new(expr_view(*right)),
        },
        Expression::IfExpression { condition, consequence, alternative } => ExpressionView::IfExpression {
            condition: Box::new(expr_view(*condition)),
            consequence: Box::new(stmt_view(*consequence)),
            alternative: match alternative {
                Some(alt) => Some(Box::new(stmt_view(*alt))),
                None => None,
            },
        },
        Expression::Function { parameters, body } => ExpressionView::Function {
            parameters: exprs_view(parameters@),
            body: Box::new(stmt_view(*body)),
        },
        Expression::Call { function, args } => ExpressionView::Call {
            function: Box::new(expr_view(*function)),
            args: exprs_view(args@),
        },
    }
}

/// The view of a statement tree.
pub open spec fn stmt_view(s: Statement) -> StatementView
    decreases s,
{
    match s {
        Statement::Let { identifier, value } => StatementView::Let {
            identifier: expr_view(identifier),
            value: expr_view(value),
        },
        Statement::Return(e) => StatementView::Return(expr_view(e)),
        Statement::Expression(e) => StatementView::Expression(expr_view(e)),
        Statement::Block(ss) => StatementView::Block(stmts_view(ss@)),
    }
}

/// The element-wise view of an expression list.
pub open spec fn exprs_view(s: Seq<Expression>) -> Seq<ExpressionView>
    decreases s,
{
    if s.len() == 0 {
        Seq::<ExpressionView>::empty()
    } else {
        exprs_view(s.drop_last()).push(expr_view(s.last()))
    }
}

/// The element-wise view of a statement list.
pub open spec fn stmts_view(s: Seq<Statement>) -> Seq<StatementView>
    decreases s,
{
    if s.len() == 0 {
        Seq::<StatementView>::empty()
    } else {
        stmts_view(s.drop_last()).push(stmt_view(s.last()))
    }
}

/// `exprs_view` is the element-wise image of `expr_view`.
pub broadcast proof fn lemma_exprs_view(s: Seq<Expression>)
    ensures
        (#[trigger] exprs_view(s)).len() == s.len(),
        forall|i: int| 0 <= i < s.len() ==> exprs_view(s)[i] == expr_view(s[i]),
    decreases s,
{
    if s.len() > 0 {
        lemma_exprs_view(s.drop_last());
    }
}

/// `stmts_view` is the element-wise image of `stmt_view`.
pub broadcast proof fn lemma_stmts_view(s: Seq<Statement>)
    ensures
        (#[trigger] stmts_view(s)).len() == s.len(),
        forall|i: int| 0 <= i < s.len() ==> stmts_view(s)[i] == stmt_view(s[i]),
    decreases s,
{
    if s.len() > 0 {
        lemma_stmts_view(s.drop_last());
    }
}

/// The size of an expression tree, for termination measures: every node
/// counts one.
pub open spec fn expr_size(e: ExpressionView) -> nat
    decreases e,
{
    match e {
        ExpressionView::Illegal => 1,
        ExpressionView::Identifier(_) => 1,
        ExpressionView::Integer(_) => 1,
        ExpressionView::Boolean(_) => 1,
        ExpressionView::PrefixExpression { operator, expression } => 1 + expr_size(*expression),
        ExpressionView::InfixExpression { left, operator, right } => 1 + expr_size(*left)
            + expr_size(*right),
        ExpressionView::IfExpression { condition, consequence, alternative } => 1 + expr_size(
            *condition,
        ) + stmt_size(*consequence) + (match alternative {
            Some(alt) => stmt_size(*alt),
            None => 0,
        }),
        ExpressionView::Function { parameters, body } => 1 + exprs_size(parameters) + stmt_size(
            *body,
        ),
        ExpressionView::Call { function, args } => 1 + expr_size(*function) + exprs_size(args),
    }
}

/// The size of a statement tree.
pub open spec fn stmt_size(s: StatementView) -> nat
    decreases s,
{
    match s {
        StatementView::Let { identifier, value } => 1 + expr_size(identifier) + expr_size(value),
        StatementView::Return(e) => 1 + expr_size(e),
        StatementView::Expression(e) => 1 + expr_size(e),
        StatementView::Block(ss) => 1 + stmts_size(ss),
    }
}

/// The summed size of an expression list.
pub open spec fn exprs_size(s: Seq<ExpressionView>) -> nat
    decreases s,
{
    if s.len() == 0 {
        0
    } else {
        expr_size(s[0]) + exprs_size(s.drop_first())
    }
}

/// The summed size of a statement list.
pub open spec fn stmts_size(s: Seq<StatementView>) -> nat
    decreases s,
{
    if s.len() == 0 {
        0
    } else {
        stmt_size(s[0]) + stmts_size(s.drop_first())
    }
}

/// Every expression weighs at least one.
pub proof fn lemma_expr_size_pos(e: ExpressionView)
    ensures
        expr_size(e) >= 1,
{
}

/// Every statement weighs at least one.
pub proof fn lemma_stmt_size_pos(s: StatementView)
    ensures
        stmt_size(s) >= 1,
{
}

/// No element of a list outweighs the whole list.
pub proof fn lemma_exprs_size_elem(s: Seq<ExpressionView>, i: int)
    requires
        0 <= i < s.len(),
    ensures
        expr_size(s[i]) <= exprs_size(s),
    decreases s,
{
    if i > 0 {
        lemma_exprs_size_elem(s.drop_first(), i - 1);
    }
}

/// No element of a list outweighs the whole list.
pub proof fn lemma_stmts_size_elem(s: Seq<StatementView>, i: int)
    requires
        0 <= i < s.len(),
    ensures
        stmt_size(s[i]) <= stmts_size(s),
    decreases s,
{
    if i > 0 {
        lemma_stmts_size_elem(s.drop_first(), i - 1);
    }
}

/// Appending an expression extends the list's view by the element's view.
pub proof fn lemma_exprs_view_push(v: Seq<Expression>, e: Expression)
    ensures
        exprs_view(v.push(e)) == exprs_view(v).push(expr_view(e)),
{
    assert(v.push(e).drop_last() =~= v);
    assert(v.push(e).last() == e);
}

/// Appending a statement extends the list's view by the element's view.
pub proof fn lemma_stmts_view_push(v: Seq<Statement>, s: Statement)
    ensures
        stmts_view(v.push(s)) == stmts_view(v).push(stmt_view(s)),
{
    assert(v.push(s).drop_last() =~= v);
    assert(v.push(s).last() == s);
}

impl View for Expression {
    type V = ExpressionView;

    open spec fn view(&self) -> ExpressionView {
        expr_view(*self)
    }
}

impl View for Statement {
    type V = StatementView;

    open spec fn view(&self) -> StatementView {
        stmt_view(*self)
    }
}

impl View for Program {
    type V = Seq<StatementView>;

    open spec fn view(&self) -> Seq<StatementView> {
        stmts_view(self.statements@)
    }
}

impl Clone for Expression {
    /// A deep copy whose view equals the original's.
    fn clone(&self) -> (r: Self)
        ensures
            r@ == self@,
        decreases *self,
    {
        match self {
            Expression::Illegal => Expression::Illegal,
            Expression::Identifier(name) => Expression::Identifier(name.clone()),
            Expression::Integer(i) => Expression::Integer(*i),
            Expression::Boolean(b) => Expression::Boolean(*b),
            Expression::PrefixExpression { operator, expression } => {
                Expression::PrefixExpression {
                    operator: *operator,
                    expression: Box::new((**expression).clone()),
                }
            },
            Expression::InfixExpression { left, operator, right } => {
                Expression::InfixExpression {
                    left: Box::new((**left).clone()),
                    operator: *operator,
                    right: Box::new((**right).clone()),
                }
            },
            Expression::IfExpression { condition, consequence, alternative } => {
                Expression::IfExpression {
                    condition: Box::new((**condition).clone()),
                    consequence: Box::new((**consequence).clone()),
                    alternative: match alternative {
                        Some(alt) => Some(Box::new((**alt).clone())),
                        None => None,
                    },
                }
            },
            Expression::Function { parameters, body } => {
                let r = Expression::Function {
                    parameters: clone_expressions(parameters),
                    body: Box::new((**body).clone()),
                };
                proof {
                    assert(r@ == self@);
                }
                r
            },
            Expression::Call { function, args } => {
                let r = Expression::Call {
                    function: Box::new((**function).clone()),
                    args: clone_expressions(args),
                };
                proof {
                    assert(r@ == self@);
                }
                r
            },
        }
    }
}

impl Clone for Statement {
    /// A deep copy whose view equals the original's.
    fn clone(&self) -> (r: Self)
        ensures
            r@ == self@,
        decreases *self,
    {
        match self {
            Statement::Let { identifier, value } => {
                Statement::Let { identifier: identifier.clone(), value: value.clone() }
            },
            Statement::Return(e) => Statement::Return(e.clone()),
            Statement::Expression(e) => Statement::Expression(e.clone()),
            Statement::Block(ss) => {
                let r = Statement::Block(clone_statements(ss));
                proof {
                    assert(r@ == self@);
                }
                r
            },
        }
    }
}

pub(crate) fn clone_expressions(v: &Vec<Expression>) -> (r: Vec<Expression>)
    ensures
        exprs_view(r@) == exprs_view(v@),
    decreases v@,
{
    let mut r: Vec<Expression> = Vec::new();
    let mut i: usize = 0;
    while i < v.len()
        invariant
            i <= v.len(),
            r@.len() == i,
            forall|j: int| 0 <= j < i ==> r@[j]@ == v@[j]@,
        decreases v.len() - i,
    {
        r.push(v[i].clone());
        i = i + 1;
    }
    proof {
        lemma_exprs_view(r@);
        lemma_exprs_view(v@);
        assert(exprs_view(r@) =~= exprs_view(v@));
    }
    r
}

pub(crate) fn clone_statements(v: &Vec<Statement>) -> (r: Vec<Statement>)
    ensures
        stmts_view(r@) == stmts_view(v@),
    decreases v@,
{
    let mut r: Vec<Statement> = Vec::new();
    let mut i: usize = 0;
    while i < v.len()
        invariant
            i <= v.len(),
            r@.len() == i,
            forall|j: int| 0 <= j < i ==> r@[j]@ == v@[j]@,
        decreases v.len() - i,
    {
        r.push(v[i].clone());
        i = i + 1;
    }
    proof {
        lemma_stmts_view(r@);
        lemma_stmts_view(v@);
        assert(stmts_view(r@) =~= stmts_view(v@));
    }
    r
}

/// Whether every expression of the list is a bare identifier, as a
/// function-literal parameter list must be.
pub open spec fn all_identifiers(ps: Seq<ExpressionView>) -> bool {
    forall|i: int| 0 <= i < ps.len() ==> ps[i] is Identifier
}

/// Structural well-formedness of an expression: the name of every `let` and
/// every function-literal parameter is a bare identifier. The parser only
/// builds such trees; the evaluator requires them.
pub open spec fn expr_wf(e: ExpressionView) -> bool
    decreases e,
{
    match e {
        ExpressionView::Illegal => true,
        ExpressionView::Identifier(_) => true,
        ExpressionView::Integer(_) => true,
        ExpressionView::Boolean(_) => true,
        ExpressionView::PrefixExpression { operator, expression } => expr_wf(*expression),
        ExpressionView::InfixExpression { left, operator, right } => expr_wf(*left) && expr_wf(
            *right,
        ),
        ExpressionView::IfExpression { condition, consequence, alternative } => expr_wf(*condition)
            && stmt_wf(*consequence) && (match alternative {
            Some(alt) => stmt_wf(*alt),
            None => true,
        }),
        ExpressionView::Function { parameters, body } => all_identifiers(parameters) && stmt_wf(
            *body,
        ),
        ExpressionView::Call { function, args } => expr_wf(*function) && exprs_wf(args),
    }
}

/// Structural well-formedness of a statement.
pub open spec fn stmt_wf(s: StatementView) -> bool
    decreases s,
{
    match s {
        StatementView::Let { identifier, value } => identifier is Identifier && expr_wf(value),
        StatementView::Return(e) => expr_wf(e),
        StatementView::Expression(e) => expr_wf(e),
        StatementView::Block(ss) => stmts_wf(ss),
    }
}

/// Structural well-formedness of every expression of a list.
pub open spec fn exprs_wf(s: Seq<ExpressionView>) -> bool
    decreases s,
{
    if s.len() == 0 {
        true
    } else {
        exprs_wf(s.drop_last()) && expr_wf(s.last())
    }
}

/// Structural well-formedness of every statement of a list.
pub open spec fn stmts_wf(s: Seq<StatementView>) -> bool
    decreases s,
{
    if s.len() == 0 {
        true
    } else {
        stmts_wf(s.drop_last()) && stmt_wf(s.last())
    }
}

/// A list of expressions is well formed exactly when each element is.
pub broadcast proof fn lemma_exprs_wf(s: Seq<ExpressionView>)
    ensures
        #[trigger] exprs_wf(s) <==> (forall|i: int| 0 <= i < s.len() ==> expr_wf(#[trigger] s[i])),
    decreases s,
{
    if s.len() > 0 {
        lemma_exprs_wf(s.drop_last());
        assert(forall|i: int| 0 <= i < s.len() - 1 ==> s.drop_last()[i] == s[i]);
    }
}

/// A list of statements is well formed exactly when each element is.
pub broadcast proof fn lemma_stmts_wf(s: Seq<StatementView>)
    ensures
        #[trigger] stmts_wf(s) <==> (forall|i: int| 0 <= i < s.len() ==> stmt_wf(#[trigger] s[i])),
    decreases s,
{
    if s.len() > 0 {
        lemma_stmts_wf(s.drop_last());
        assert(forall|i: int| 0 <= i < s.len() - 1 ==> s.drop_last()[i] == s[i]);
    }
}

impl Expression {
    /// Decides structural well-formedness.
    pub fn is_well_formed(&self) -> (r: bool)
        ensures
            r == expr_wf(self@),
        decreases *self,
    {
        match self {
            Expression::Illegal => true,
            Expression::Identifier(_) => true,
            Expression::Integer(_) => true,
            Expression::Boolean(_) => true,
            Expression::PrefixExpression { operator, expression } => {
                (**expression).is_well_formed()
            },
            Expression::InfixExpression { left, operator, right } => {
                (**left).is_well_formed() && (**right).is_well_formed()
            },
            Expression::IfExpression { condition, consequence, alternative } => {
                (**condition).is_well_formed() && (**consequence).is_well_formed() && (
                match alternative {
                    Some(alt) => (**alt).is_well_formed(),
                    None => true,
                })
            },
            Expression::Function { parameters, body } => {
                identifiers_only(parameters) && (**body).is_well_formed()
            },
            Expression::Call { function, args } => {
                (**function).is_well_formed() && expressions_well_formed(args)
            },
        }
    }
}

impl Statement {
    /// Decides structural well-formedness.
    pub fn is_well_formed(&self) -> (r: bool)
        ensures
            r == stmt_wf(self@),
        decreases *self,
    {
        match self {
            Statement::Let { identifier, value } => {
                (matches!(identifier, Expression::Identifier(_))) && value.is_well_formed()
            },
            Statement::Return(e) => e.is_well_formed(),
            Statement::Expression(e) => e.is_well_formed(),
            Statement::Block(ss) => statements_well_formed(ss),
        }
    }
}

impl Program {
    /// Decides structural well-formedness of the whole program.
    pub fn is_well_formed(&self) -> (r: bool)
        ensures
            r == stmts_wf(self@),
    {
        statements_well_formed(&self.statements)
    }
}

fn identifiers_only(ps: &Vec<Expression>) -> (r: bool)
    ensures
        r == all_identifiers(exprs_view(ps@)),
    decreases ps@,
{
    let mut i: usize = 0;
    while i < ps.len()
        invariant
            i <= ps.len(),
            forall|j: int|
                0 <= j < i ==> exprs_view(ps@)[j] is Identifier,
        decreases ps.len() - i,
    {
        proof {
            lemma_exprs_view(ps@);
        }
        match &ps[i] {
            Expression::Identifier(_) => {},
            _ => {
                proof {
                    lemma_exprs_view(ps@);
                    assert(exprs_view(ps@)[i as int] == expr_view(ps@[i as int]));
                    assert(!all_identifiers(exprs_view(ps@)));
                }
                return false;
            },
        }
        proof {
            lemma_exprs_view(ps@);
            assert(exprs_view(ps@)[i as int] is Identifier);
        }
        i = i + 1;
    }
    proof {
        lemma_exprs_view(ps@);
    }
    true
}

fn expressions_well_formed(v: &Vec<Expression>) -> (r: bool)
    ensures
        r == exprs_wf(exprs_view(v@)),
    decreases v@,
{
    let mut i: usize = 0;
    while i < v.len()
        invariant
            i <= v.len(),
            forall|j: int| 0 <= j < i ==> expr_wf(#[trigger] exprs_view(v@)[j]),
        decreases v.len() - i,
    {
        proof {
            lemma_exprs_view(v@);
        }
        if !v[i].is_well_formed() {
            proof {
                lemma_exprs_view(v@);
                lemma_exprs_wf(exprs_view(v@));
                assert(exprs_view(v@)[i as int] == expr_view(v@[i as int]));
                assert(!exprs_wf(exprs_view(v@)));
            }
            return false;
        }
        proof {
            lemma_exprs_view(v@);
            assert(expr_wf(exprs_view(v@)[i as int]));
        }
        i = i + 1;
    }
    proof {
        lemma_exprs_view(v@);
        lemma_exprs_wf(exprs_view(v@));
    }
    true
}

fn statements_well_formed(v: &Vec<Statement>) -> (r: bool)
    ensures
        r == stmts_wf(stmts_view(v@)),
    decreases v@,
{
    let mut i: usize = 0;
    while i < v.len()
        invariant
            i <= v.len(),
            forall|j: int| 0 <= j < i ==> stmt_wf(#[trigger] stmts_view(v@)[j]),
        decreases v.len() - i,
    {
        proof {
            lemma_stmts_view(v@);
        }
        if !v[i].is_well_formed() {
            proof {
                lemma_stmts_view(v@);
                lemma_stmts_wf(stmts_view(v@));
                assert(stmts_view(v@)[i as int] == stmt_view(v@[i as int]));
                assert(!stmts_wf(stmts_view(v@)));
            }
            return false;
        }
        proof {
            lemma_stmts_view(v@);
            assert(stmt_wf(stmts_view(v@)[i as int]));
        }
        i = i + 1;
    }
    proof {
        lemma_stmts_view(v@);
        lemma_stmts_wf(stmts_view(v@));
    }
    true
}

/// The textual form of a boolean literal.
pub open spec fn bool_code_spec(b: bool) -> Seq<char> {
    if b {
        "true"@
    } else {
        "false"@
    }
}

/// The rendered form of an expression: every unary and binary application is
/// wrapped in parentheses, so the text shows the grouping unambiguously.
pub open spec fn expr_code_spec(e: ExpressionView) -> Seq<char>
    decreases e,
{
    match e {
        ExpressionView::Illegal => "[illegal expression]"@,
        ExpressionView::Identifier(name) => name,
        ExpressionView::Integer(i) => int_code_spec(i as int),
        ExpressionView::Boolean(b) => bool_code_spec(b),
        ExpressionView::PrefixExpression { operator, expression } => "("@ + prefix_code_spec(
            operator,
        ) + expr_code_spec(*expression) + ")"@,
        ExpressionView::InfixExpression { left, operator, right } => "("@ + expr_code_spec(*left)
            + " "@ + infix_code_spec(operator) + " "@ + expr_code_spec(*right) + ")"@,
        ExpressionView::IfExpression { condition, consequence, alternative } => "if "@
            + expr_code_spec(*condition) + " "@ + stmt_code_spec(*consequence) + " "@ + (
        match alternative {
            Some(alt) => "else "@ + stmt_code_spec(*alt),
            None => Seq::<char>::empty(),
        }),
        ExpressionView::Function { parameters, body } => "fn("@ + params_code_spec(parameters)
            + ")"@ + stmt_code_spec(*body),
        ExpressionView::Call { function, args } => expr_code_spec(*function) + "("@
            + params_code_spec(args) + ")"@,
    }
}

/// A comma-and-space separated rendering of an expression list.
pub open spec fn params_code_spec(ps: Seq<ExpressionView>) -> Seq<char>
    decreases ps,
{
    if ps.len() == 0 {
        Seq::<char>::empty()
    } else if ps.len() == 1 {
        expr_code_spec(ps[0])
    } else {
        params_code_spec(ps.drop_last()) + ", "@ + expr_code_spec(ps.last())
    }
}

/// The rendered form of a statement.
pub open spec fn stmt_code_spec(s: StatementView) -> Seq<char>
    decreases s,
{
    match s {
        StatementView::Let { identifier, value } => "let "@ + expr_code_spec(identifier) + " = "@
            + expr_code_spec(value) + ";"@,
        StatementView::Return(e) => "return "@ + expr_code_spec(e) + ";"@,
        StatementView::Expression(e) => expr_code_spec(e) + ";"@,
        StatementView::Block(ss) => "{"@ + block_body_code_spec(ss) + "\n}"@,
    }
}

/// The inside of a rendered block: each statement on a line of its own,
/// preceded by a newline.
pub open spec fn block_body_code_spec(ss: Seq<StatementView>) -> Seq<char>
    decreases ss,
{
    if ss.len() == 0 {
        Seq::<char>::empty()
    } else {
        block_body_code_spec(ss.drop_last()) + "\n"@ + stmt_code_spec(ss.last())
    }
}

/// The rendered form of a whole program: each statement followed by a
/// newline.
pub open spec fn program_code_spec(ss: Seq<StatementView>) -> Seq<char>
    decreases ss,
{
    if ss.len() == 0 {
        Seq::<char>::empty()
    } else {
        program_code_spec(ss.drop_last()) + stmt_code_spec(ss.last()) + "\n"@
    }
}

fn push_expr(out: &mut String, e: &Expression)
    ensures
        final(out)@ == old(out)@ + expr_code_spec(e@),
    decreases *e,
{
    match e {
        Expression::Illegal => {
            out.append("[illegal expression]");
        },
        Expression::Identifier(name) => {
            out.append(name.as_str());
        },
        Expression::Integer(i) => {
            text::push_i32_dec(out, *i);
        },
        Expression::Boolean(b) => {
            if *b {
                out.append("true");
            } else {
                out.append("false");
            }
        },
        Expression::PrefixExpression { operator, expression } => {
            out.append("(");
            let op = operator.to_code();
            out.append(op.as_str());
            push_expr(out, expression);
            out.append(")");
            proof {
                assert(out@ =~= old(out)@ + expr_code_spec(e@));
            }
        },
        Expression::InfixExpression { left, operator, right } => {
            out.append("(");
            push_expr(out, left);
            out.append(" ");
            let op = operator.to_code();
            out.append(op.as_str());
            out.append(" ");
            push_expr(out, right);
            out.append(")");
            proof {
                assert(out@ =~= old(out)@ + expr_code_spec(e@));
            }
        },
        Expression::IfExpression { condition, consequence, alternative } => {
            out.append("if ");
            push_expr(out, condition);
            out.append(" ");
            push_stmt(out, consequence);
            out.append(" ");
            match alternative {
                Some(alt) => {
                    out.append("else ");
                    push_stmt(out, alt);
                },
                None => {},
            }
            proof {
                assert(out@ =~= old(out)@ + expr_code_spec(e@));
            }
        },
        Expression::Function { parameters, body } => {
            out.append("fn(");
            push_params(out, parameters);
            out.append(")");
            push_stmt(out, body);
            proof {
                assert(out@ =~= old(out)@ + expr_code_spec(e@));
            }
        },
        Expression::Call { function, args } => {
            push_expr(out, function);
            out.append("(");
            push_params(out, args);
            out.append(")");
            proof {
                assert(out@ =~= old(out)@ + expr_code_spec(e@));
            }
        },
    }
}

pub(crate) fn push_params(out: &mut String, ps: &Vec<Expression>)
    ensures
        final(out)@ == old(out)@ + params_code_spec(exprs_view(ps@)),
    decreases ps@,
{
    let ghost base = out@;
    let ghost pvs = exprs_view(ps@);
    let mut i: usize = 0;
    while i < ps.len()
        invariant
            i <= ps.len(),
            pvs == exprs_view(ps@),
            out@ == base + params_code_spec(pvs.take(i as int)),
        decreases ps.len() - i,
    {
        if i > 0 {
            out.append(", ");
        }
        push_expr(out, &ps[i]);
        proof {
            lemma_exprs_view(ps@);
            assert(pvs.take(i + 1).drop_last() =~= pvs.take(i as int));
            assert(pvs.take(i + 1).last() == pvs[i as int]);
            assert(out@ =~= base + params_code_spec(pvs.take(i + 1)));
        }
        i = i + 1;
    }
    proof {
        lemma_exprs_view(ps@);
        assert(pvs.take(ps@.len() as int) =~= pvs);
    }
}

pub(crate) fn push_stmt(out: &mut String, s: &Statement)
    ensures
        final(out)@ == old(out)@ + stmt_code_spec(s@),
    decreases *s,
{
    match s {
        Statement::Let { identifier, value } => {
            out.append("let ");
            push_expr(out, identifier);
            out.append(" = ");
            push_expr(out, value);
            out.append(";");
            proof {
                assert(out@ =~= old(out)@ + stmt_code_spec(s@));
            }
        },
        Statement::Return(e) => {
            out.append("return ");
            push_expr(out, e);
            out.append(";");
            proof {
                assert(out@ =~= old(out)@ + stmt_code_spec(s@));
            }
        },
        Statement::Expression(e) => {
            push_expr(out, e);
            out.append(";");
            proof {
                assert(out@ =~= old(out)@ + stmt_code_spec(s@));
            }
        },
        Statement::Block(ss) => {
            out.append("{");
            push_block_body(out, ss);
            out.append("\n}");
            proof {
                assert(out@ =~= old(out)@ + stmt_code_spec(s@));
            }
        },
    }
}

fn push_block_body(out: &mut String, ss: &Vec<Statement>)
    ensures
        final(out)@ == old(out)@ + block_body_code_spec(stmts_view(ss@)),
    decreases ss@,
{
    let ghost base = out@;
    let ghost svs = stmts_view(ss@);
    let mut i: usize = 0;
    while i < ss.len()
        invariant
            i <= ss.len(),
            svs == stmts_view(ss@),
            out@ == base + block_body_code_spec(svs.take(i as int)),
        decreases ss.len() - i,
    {
        out.append("\n");
        push_stmt(out, &ss[i]);
        proof {
            lemma_stmts_view(ss@);
            assert(svs.take(i + 1).drop_last() =~= svs.take(i as int));
            assert(svs.take(i + 1).last() == svs[i as int]);
            assert(out@ =~= base + block_body_code_spec(svs.take(i + 1)));
        }
        i = i + 1;
    }
    proof {
        lemma_stmts_view(ss@);
        assert(svs.take(ss@.len() as int) =~= svs);
    }
}

impl Program {
    /// An empty program.
    pub fn new() -> (r: Program)
        ensures
            r@ =~= Seq::<StatementView>::empty(),
    {
        Program { statements: Vec::new() }
    }

    /// Renders the whole program back to source text, one statement per
    /// line.
    pub fn to_code(&self) -> (r: String)
        ensures
            r@ == program_code_spec(self@),
    {
        let mut code = String::new();
        let ghost svs = stmts_view(self.statements@);
        let mut i: usize = 0;
        while i < self.statements.len()
            invariant
                i <= self.statements.len(),
                svs == stmts_view(self.statements@),
                code@ == program_code_spec(svs.take(i as int)),
            decreases self.statements.len() - i,
        {
            push_stmt(&mut code, &self.statements[i]);
            code.append("\n");
            proof {
                lemma_stmts_view(self.statements@);
                assert(svs.take(i + 1).drop_last() =~= svs.take(i as int));
                assert(svs.take(i + 1).last() == svs[i as int]);
                assert(code@ =~= program_code_spec(svs.take(i + 1)));
            }
            i = i + 1;
        }
        proof {
            lemma_stmts_view(self.statements@);
            assert(svs.take(self.statements@.len() as int) =~= svs);
        }
        code
    }
}

impl Statement {
    /// Renders the statement back to source form.
    pub fn to_code(&self) -> (r: String)
        ensures
            r@ == stmt_code_spec(self@),
    {
        let mut code = String::new();
        push_stmt(&mut code, self);
        proof {
            assert(code@ =~= stmt_code_spec(self@));
        }
        code
    }
}

impl Expression {
    /// Renders the expression back to source form, fully parenthesised.
    pub fn to_code(&self) -> (r: String)
        ensures
            r@ == expr_code_spec(self@),
    {
        let mut code = String::new();
        push_expr(&mut code, self);
        proof {
            assert(code@ =~= expr_code_spec(self@));
        }
        code
    }
}

} // verus!
