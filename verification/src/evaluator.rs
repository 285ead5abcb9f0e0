//! The tree-walking evaluator: structural dispatch over the syntax tree
//! against the scope arena, producing a runtime value or a typed error. The
//! whole evaluation is specified by the `ev_*` functions; every method is
//! proved to return exactly what they say.
//!
//! Where the language leaves behaviour open, this evaluator settles it:
//! integer arithmetic wraps in 32 bits, a zero divisor is the recoverable
//! `DivisionByZero` error, applying a value that is no function is the
//! recoverable `CalledNonFunction` error, and every call consumes one unit
//! of a caller-supplied budget whose exhaustion is `RecursionLimitExceeded`
//! (in place of the host stack overflow unbounded recursion would cause).
use vstd::prelude::*;

use crate::ast::{
    expr_size, expr_wf, exprs_size, exprs_view, exprs_wf, lemma_expr_size_pos,
    lemma_exprs_size_elem, lemma_exprs_view, lemma_exprs_wf, lemma_stmt_size_pos,
    lemma_stmts_size_elem, lemma_stmts_view, lemma_stmts_wf, stmt_size, stmt_wf, stmts_size,
    stmts_view, stmts_wf, Expression, ExpressionView, Program, Statement, StatementView,
};
use crate::environment::{env_lookup, env_push, env_set, env_wf, Environment, ScopeView};
use crate::error::{EvaluatorError, EvaluatorErrorView};
use crate::object::{
    lemma_obj_wf_grow, lemma_objs_view, lemma_objs_view_push, obj_truthy, obj_wf, objs_view,
    objs_wf, Object, ObjectView,
};
use crate::operator::{Infix, Prefix};

verus! {

/// What the truthiness-negation operator `!` yields: booleans flip, null is
/// falsy so it negates to true, and every other value is truthy so it
/// negates to false.
pub open spec fn ev_exclamation(o: ObjectView) -> ObjectView {
    ObjectView::Boolean(!obj_truthy(o))
}

/// What prefix `-` yields: integers negate (the minimum value wraps to
/// itself); any other operand is an unknown-operator error.
pub open spec fn ev_minus(o: ObjectView) -> Result<ObjectView, EvaluatorErrorView> {
    match o {
        ObjectView::Integer(i) => Ok(
            ObjectView::Integer(
                if i == i32::MIN {
                    i32::MIN
                } else {
                    (-(i as int)) as i32
                },
            ),
        ),
        _ => Err(EvaluatorErrorView::UnknownPrefixOperator { operator: Prefix::Minus, right: o }),
    }
}

/// What a prefix operator yields on an evaluated operand.
pub open spec fn ev_prefix(op: Prefix, o: ObjectView) -> Result<ObjectView, EvaluatorErrorView> {
    match op {
        Prefix::Exclamation => Ok(ev_exclamation(o)),
        Prefix::Minus => ev_minus(o),
    }
}

/// What an infix operator yields on two integers: 32-bit wrapping
/// arithmetic for `+ - *`; truncating division for `/`, where a zero
/// divisor is an error and the one overflowing quotient wraps to the
/// minimum; comparisons yield booleans.
pub open spec fn ev_int_infix(a: i32, op: Infix, b: i32) -> Result<
    ObjectView,
    EvaluatorErrorView,
> {
    match op {
        Infix::Plus => Ok(ObjectView::Integer(vstd::wrapping::i32_specs::wrapping_add(a, b))),
        Infix::Minus => Ok(ObjectView::Integer(vstd::wrapping::i32_specs::wrapping_sub(a, b))),
        Infix::Asterisk => Ok(ObjectView::Integer(vstd::wrapping::i32_specs::wrapping_mul(a, b))),
        Infix::Slash => if b == 0 {
            Err(
                EvaluatorErrorView::DivisionByZero {
                    left: ObjectView::Integer(a),
                    right: ObjectView::Integer(b),
                },
            )
        } else {
            match a.checked_div(b) {
                Some(q) => Ok(ObjectView::Integer(q)),
                None => Ok(ObjectView::Integer(i32::MIN)),
            }
        },
        Infix::LessThan => Ok(ObjectView::Boolean(a < b)),
        Infix::GreaterThan => Ok(ObjectView::Boolean(a > b)),
        Infix::Equal => Ok(ObjectView::Boolean(a == b)),
        Infix::NotEqual => Ok(ObjectView::Boolean(a != b)),
    }
}

/// What an infix operator yields on two booleans: only equality and
/// inequality have meaning.
pub open spec fn ev_bool_infix(a: bool, op: Infix, b: bool) -> Result<
    ObjectView,
    EvaluatorErrorView,
> {
    match op {
        Infix::Equal => Ok(ObjectView::Boolean(a == b)),
        Infix::NotEqual => Ok(ObjectView::Boolean(a != b)),
        _ => Err(
            EvaluatorErrorView::UnknownInfixOperator {
                left: ObjectView::Boolean(a),
                operator: op,
                right: ObjectView::Boolean(b),
            },
        ),
    }
}

/// What an infix operator yields: both operands must be integers or both
/// booleans; mixed operand types are a type mismatch.
pub open spec fn ev_infix(l: ObjectView, op: Infix, r: ObjectView) -> Result<
    ObjectView,
    EvaluatorErrorView,
> {
    match (l, r) {
        (ObjectView::Integer(a), ObjectView::Integer(b)) => ev_int_infix(a, op, b),
        (ObjectView::Boolean(a), ObjectView::Boolean(b)) => ev_bool_infix(a, op, b),
        _ => Err(EvaluatorErrorView::TypeMismatch { left: l, operator: op, right: r }),
    }
}

/// The arena after the parameters are bound, positionally, to the
/// arguments in the given scope: extra arguments are ignored, missing ones
/// bind nothing.
pub open spec fn bind_params(
    env: Seq<ScopeView>,
    scope: usize,
    params: Seq<ExpressionView>,
    vals: Seq<ObjectView>,
) -> Seq<ScopeView>
    decreases params.len(),
{
    if params.len() == 0 || vals.len() == 0 {
        env
    } else {
        let env1 = match params[0] {
            ExpressionView::Identifier(name) => env_set(env, scope, name, vals[0]),
            _ => env,
        };
        bind_params(env1, scope, params.drop_first(), vals.drop_first())
    }
}

/// The termination weight of applying a value: a function's body and one
/// step more.
pub open spec fn apply_size(f: ObjectView) -> nat {
    match f {
        ObjectView::Function { parameters, body, environment } => stmt_size(*body) + 1,
        _ => 0,
    }
}

/// The evaluation of a statement sequence: statements run in order; a
/// return wrapper stops the run at once and is unwrapped at the program
/// root but passed on unchanged inside a nested block; otherwise the last
/// statement's value (null for an empty sequence) is the result.
pub open spec fn ev_stmts(
    stmts: Seq<StatementView>,
    is_root: bool,
    env: Seq<ScopeView>,
    scope: usize,
    fuel: nat,
) -> (Result<ObjectView, EvaluatorErrorView>, Seq<ScopeView>)
    decreases fuel, stmts_size(stmts), 2int
        via ev_stmts_decreases
{
    if stmts.len() == 0 {
        (Ok(ObjectView::Null), env)
    } else {
        let (r, env1) = ev_stmt(stmts[0], env, scope, fuel);
        match r {
            Err(e) => (Err(e), env1),
            Ok(o) => match o {
                ObjectView::ReturnValue(inner) => if is_root {
                    (Ok(*inner), env1)
                } else {
                    (Ok(o), env1)
                },
                _ => if stmts.len() == 1 {
                    (Ok(o), env1)
                } else {
                    ev_stmts(stmts.drop_first(), is_root, env1, scope, fuel)
                },
            },
        }
    }
}

#[via_fn]
proof fn ev_stmts_decreases(
    stmts: Seq<StatementView>,
    is_root: bool,
    env: Seq<ScopeView>,
    scope: usize,
    fuel: nat,
) {
    if stmts.len() > 0 {
        lemma_stmt_size_pos(stmts[0]);
    }
}

/// The evaluation of one statement: `let` binds in the current scope and
/// yields null, `return` wraps its value, an expression statement yields
/// its value, and a block runs its statements in non-root mode.
pub open spec fn ev_stmt(st: StatementView, env: Seq<ScopeView>, scope: usize, fuel: nat) -> (Result<
    ObjectView,
    EvaluatorErrorView,
>, Seq<ScopeView>)
    decreases fuel, stmt_size(st), 1int,
{
    match st {
        StatementView::Let { identifier, value } => match identifier {
            ExpressionView::Identifier(name) => {
                let (r, env1) = ev_expr(value, env, scope, fuel);
                match r {
                    Err(e) => (Err(e), env1),
                    Ok(v) => (Ok(ObjectView::Null), env_set(env1, scope, name, v)),
                }
            },
            _ => (Ok(ObjectView::Null), env),
        },
        StatementView::Return(e) => {
            let (r, env1) = ev_expr(e, env, scope, fuel);
            match r {
                Err(e2) => (Err(e2), env1),
                Ok(v) => (Ok(ObjectView::ReturnValue(Box::new(v))), env1),
            }
        },
        StatementView::Expression(e) => ev_expr(e, env, scope, fuel),
        StatementView::Block(ss) => ev_stmts(ss, false, env, scope, fuel),
    }
}

/// The evaluation of one expression against the arena, in the given scope.
/// A function literal captures the scope at hand by its handle; a call
/// evaluates callee and arguments in the caller's scope, then applies.
pub open spec fn ev_expr(e: ExpressionView, env: Seq<ScopeView>, scope: usize, fuel: nat) -> (Result<
    ObjectView,
    EvaluatorErrorView,
>, Seq<ScopeView>)
    decreases fuel, expr_size(e), 0int,
{
    match e {
        ExpressionView::Illegal => (Ok(ObjectView::Null), env),
        ExpressionView::Identifier(name) => match env_lookup(env, scope as int, name) {
            Some(v) => (Ok(v), env),
            None => (Err(EvaluatorErrorView::NotFoundIdentifier { identifier: name }), env),
        },
        ExpressionView::Integer(i) => (Ok(ObjectView::Integer(i)), env),
        ExpressionView::Boolean(b) => (Ok(ObjectView::Boolean(b)), env),
        ExpressionView::PrefixExpression { operator, expression } => {
            let (r, env1) = ev_expr(*expression, env, scope, fuel);
            match r {
                Err(e2) => (Err(e2), env1),
                Ok(o) => (ev_prefix(operator, o), env1),
            }
        },
        ExpressionView::InfixExpression { left, operator, right } => {
            let (rl, env1) = ev_expr(*left, env, scope, fuel);
            match rl {
                Err(e2) => (Err(e2), env1),
                Ok(lv) => {
                    let (rr, env2) = ev_expr(*right, env1, scope, fuel);
                    match rr {
                        Err(e2) => (Err(e2), env2),
                        Ok(rv) => (ev_infix(lv, operator, rv), env2),
                    }
                },
            }
        },
        ExpressionView::IfExpression { condition, consequence, alternative } => {
            let (rc, env1) = ev_expr(*condition, env, scope, fuel);
            match rc {
                Err(e2) => (Err(e2), env1),
                Ok(c) => if obj_truthy(c) {
                    ev_stmt(*consequence, env1, scope, fuel)
                } else {
                    match alternative {
                        Some(alt) => ev_stmt(*alt, env1, scope, fuel),
                        None => (Ok(ObjectView::Null), env1),
                    }
                },
            }
        },
        ExpressionView::Function { parameters, body } => (
            Ok(ObjectView::Function { parameters, body, environment: scope }),
            env,
        ),
        ExpressionView::Call { function, args } => {
            let (rf, env1) = ev_expr(*function, env, scope, fuel);
            match rf {
                Err(e2) => (Err(e2), env1),
                Ok(f) => {
                    let (ra, env2) = ev_exprs(args, env1, scope, fuel);
                    match ra {
                        Err(e2) => (Err(e2), env2),
                        Ok(vals) => if fuel == 0 {
                            (Err(EvaluatorErrorView::RecursionLimitExceeded), env2)
                        } else {
                            ev_apply(f, vals, env2, (fuel - 1) as nat)
                        },
                    }
                },
            }
        },
    }
}

/// The evaluation of an expression list, left to right, each in the arena
/// the previous one left behind.
pub open spec fn ev_exprs(
    es: Seq<ExpressionView>,
    env: Seq<ScopeView>,
    scope: usize,
    fuel: nat,
) -> (Result<Seq<ObjectView>, EvaluatorErrorView>, Seq<ScopeView>)
    decreases fuel, exprs_size(es), 2int
        via ev_exprs_decreases
{
    if es.len() == 0 {
        (Ok(Seq::<ObjectView>::empty()), env)
    } else {
        let (r, env1) = ev_expr(es[0], env, scope, fuel);
        match r {
            Err(e) => (Err(e), env1),
            Ok(v) => {
                let (r2, env2) = ev_exprs(es.drop_first(), env1, scope, fuel);
                match r2 {
                    Err(e) => (Err(e), env2),
                    Ok(rest) => (Ok(seq![v] + rest), env2),
                }
            },
        }
    }
}

#[via_fn]
proof fn ev_exprs_decreases(
    es: Seq<ExpressionView>,
    env: Seq<ScopeView>,
    scope: usize,
    fuel: nat,
) {
    if es.len() > 0 {
        lemma_expr_size_pos(es[0]);
    }
}

/// The application of a value to arguments: a function value gets a fresh
/// scope enclosing its captured one, the parameters are bound positionally,
/// the body runs there, and a return wrapper is unwrapped; any other value
/// is an error.
pub open spec fn ev_apply(
    f: ObjectView,
    vals: Seq<ObjectView>,
    env: Seq<ScopeView>,
    fuel: nat,
) -> (Result<ObjectView, EvaluatorErrorView>, Seq<ScopeView>)
    decreases fuel, apply_size(f), 3int,
{
    match f {
        ObjectView::Function { parameters, body, environment } => {
            let ns = env.len() as usize;
            let env1 = env_push(env, environment);
            let env2 = bind_params(env1, ns, parameters, vals);
            let (r, env3) = ev_stmt(*body, env2, ns, fuel);
            match r {
                Err(e) => (Err(e), env3),
                Ok(o) => match o {
                    ObjectView::ReturnValue(inner) => (Ok(*inner), env3),
                    _ => (Ok(o), env3),
                },
            }
        },
        _ => (Err(EvaluatorErrorView::CalledNonFunction { found: f }), env),
    }
}

/// The evaluator: structural recursion over the tree, dispatching on each
/// node's tag.
pub struct Evaluator {}

impl Evaluator {
    /// Evaluates a whole program in the arena's top-level scope. `fuel`
    /// bounds how deeply function calls may nest; each call consumes one
    /// unit.
    pub fn eval(root: &Program, env: &mut Environment, fuel: u64) -> (r: Result<
        Object,
        EvaluatorError,
    >)
        requires
            env_wf(old(env)@),
            old(env)@.len() >= 1,
            stmts_wf(root@),
        ensures
            env_wf(final(env)@),
            old(env)@.len() <= final(env)@.len(),
            ({
                let (r0, envf) = ev_stmts(root@, true, old(env)@, 0, fuel as nat);
                final(env)@ == envf && match r {
                    Ok(o) => r0 == Ok::<ObjectView, EvaluatorErrorView>(o@) && obj_wf(
                        o@,
                        final(env)@.len() as nat,
                    ),
                    Err(e) => r0 == Err::<ObjectView, EvaluatorErrorView>(e@),
                }
            }),
    {
        Evaluator::eval_statements(&root.statements, true, env, 0, fuel)
    }

    #[verifier::loop_isolation(false)]
    #[verifier::rlimit(75)]
    fn eval_statements(
        statements: &Vec<Statement>,
        is_root: bool,
        env: &mut Environment,
        scope: usize,
        fuel: u64,
    ) -> (r: Result<Object, EvaluatorError>)
        requires
            env_wf(old(env)@),
            scope < old(env)@.len(),
            stmts_wf(stmts_view(statements@)),
        ensures
            env_wf(final(env)@),
            old(env)@.len() <= final(env)@.len(),
            ({
                let (r0, envf) = ev_stmts(
                    stmts_view(statements@),
                    is_root,
                    old(env)@,
                    scope,
                    fuel as nat,
                );
                final(env)@ == envf && match r {
                    Ok(o) => r0 == Ok::<ObjectView, EvaluatorErrorView>(o@) && obj_wf(
                        o@,
                        final(env)@.len() as nat,
                    ),
                    Err(e) => r0 == Err::<ObjectView, EvaluatorErrorView>(e@),
                }
            }),
        decreases fuel, stmts_size(stmts_view(statements@)), 2int,
    {
        let ghost sv = stmts_view(statements@);
        let ghost env0 = env@;
        proof {
            lemma_stmts_view(statements@);
        }
        let mut result = Object::Null;
        let mut i: usize = 0;
        proof {
            if statements@.len() > 0 {
                assert(sv.skip(0) =~= sv);
            }
        }
        while i < statements.len()
            invariant
                env_wf(env@),
                env0.len() <= env@.len(),
                scope < env@.len(),
                i <= statements.len(),
                obj_wf(result@, env@.len() as nat),
                ({
                    let full = ev_stmts(sv, is_root, env0, scope, fuel as nat);
                    let rest = ev_stmts(sv.skip(i as int), is_root, env@, scope, fuel as nat);
                    if i == statements.len() {
                        full == (Ok::<ObjectView, EvaluatorErrorView>(result@), env@)
                    } else {
                        full == rest
                    }
                }),
            decreases statements.len() - i,
        {
            proof {
                lemma_stmts_view(statements@);
                lemma_stmts_size_elem(sv, i as int);
                lemma_stmts_wf(sv);
                assert(sv.skip(i as int)[0] == sv[i as int]);
            }
            match Evaluator::eval_statement(&statements[i], env, scope, fuel) {
                Ok(o) => {
                    match o {
                        Object::ReturnValue(inner) => {
                            if is_root {
                                return Ok(*inner);
                            } else {
                                return Ok(Object::ReturnValue(inner));
                            }
                        },
                        other => {
                            result = other;
                        },
                    }
                    proof {
                        if i + 1 < statements.len() {
                            assert(sv.skip(i as int).drop_first() =~= sv.skip(i + 1));
                        }
                    }
                    i = i + 1;
                },
                Err(e) => {
                    return Err(e);
                },
            }
        }
        Ok(result)
    }

    #[verifier::rlimit(75)]
    fn eval_statement(
        statement: &Statement,
        env: &mut Environment,
        scope: usize,
        fuel: u64,
    ) -> (r: Result<Object, EvaluatorError>)
        requires
            env_wf(old(env)@),
            scope < old(env)@.len(),
            stmt_wf(statement@),
        ensures
            env_wf(final(env)@),
            old(env)@.len() <= final(env)@.len(),
            ({
                let (r0, envf) = ev_stmt(statement@, old(env)@, scope, fuel as nat);
                final(env)@ == envf && match r {
                    Ok(o) => r0 == Ok::<ObjectView, EvaluatorErrorView>(o@) && obj_wf(
                        o@,
                        final(env)@.len() as nat,
                    ),
                    Err(e) => r0 == Err::<ObjectView, EvaluatorErrorView>(e@),
                }
            }),
        decreases fuel, stmt_size(statement@), 1int,
    {
        match statement {
            Statement::Let { identifier, value } => {
                match identifier {
                    Expression::Identifier(name) => {
                        let v = match Evaluator::eval_expression(value, env, scope, fuel) {
                            Ok(v) => v,
                            Err(e) => {
                                return Err(e);
                            },
                        };
                        env.set(scope, name.clone(), v);
                        Ok(Object::Null)
                    },
                    _ => Ok(Object::Null),
                }
            },
            Statement::Return(expression) => {
                let v = match Evaluator::eval_expression(expression, env, scope, fuel) {
                    Ok(v) => v,
                    Err(e) => {
                        return Err(e);
                    },
                };
                Ok(Object::ReturnValue(Box::new(v)))
            },
            Statement::Expression(expression) => Evaluator::eval_expression(
                expression,
                env,
                scope,
                fuel,
            ),
            Statement::Block(statements) => Evaluator::eval_statements(
                statements,
                false,
                env,
                scope,
                fuel,
            ),
        }
    }

    #[verifier::rlimit(75)]
    fn eval_expression(
        expression: &Expression,
        env: &mut Environment,
        scope: usize,
        fuel: u64,
    ) -> (r: Result<Object, EvaluatorError>)
        requires
            env_wf(old(env)@),
            scope < old(env)@.len(),
            expr_wf(expression@),
        ensures
            env_wf(final(env)@),
            old(env)@.len() <= final(env)@.len(),
            ({
                let (r0, envf) = ev_expr(expression@, old(env)@, scope, fuel as nat);
                final(env)@ == envf && match r {
                    Ok(o) => r0 == Ok::<ObjectView, EvaluatorErrorView>(o@) && obj_wf(
                        o@,
                        final(env)@.len() as nat,
                    ),
                    Err(e) => r0 == Err::<ObjectView, EvaluatorErrorView>(e@),
                }
            }),
        decreases fuel, expr_size(expression@), 0int,
    {
        match expression {
            Expression::Illegal => Ok(Object::Null),
            Expression::Identifier(identifier) => {
                match env.get(scope, identifier) {
                    Some(object) => Ok(object),
                    None => Err(
                        EvaluatorError::NotFoundIdentifier { identifier: identifier.clone() },
                    ),
                }
            },
            Expression::Integer(integer) => Ok(Object::Integer(*integer)),
            Expression::Boolean(boolean) => Ok(Object::Boolean(*boolean)),
            Expression::PrefixExpression { operator, expression } => {
                let object = match Evaluator::eval_expression(expression, env, scope, fuel) {
                    Ok(o) => o,
                    Err(e) => {
                        return Err(e);
                    },
                };
                Evaluator::eval_prefix_expression(*operator, &object)
            },
            Expression::InfixExpression { left, operator, right } => {
                let lv = match Evaluator::eval_expression(left, env, scope, fuel) {
                    Ok(o) => o,
                    Err(e) => {
                        return Err(e);
                    },
                };
                let rv = match Evaluator::eval_expression(right, env, scope, fuel) {
                    Ok(o) => o,
                    Err(e) => {
                        return Err(e);
                    },
                };
                Evaluator::eval_infix_expression(&lv, *operator, &rv)
            },
            Expression::IfExpression { condition, consequence, alternative } => {
                let c = match Evaluator::eval_expression(condition, env, scope, fuel) {
                    Ok(o) => o,
                    Err(e) => {
                        return Err(e);
                    },
                };
                Evaluator::eval_if_expression(&c, consequence, alternative, env, scope, fuel)
            },
            Expression::Function { parameters, body } => {
                Ok(
                    Object::Function {
                        parameters: crate::ast::clone_expressions(parameters),
                        body: Box::new((**body).clone()),
                        environment: scope,
                    },
                )
            },
            Expression::Call { function, args } => {
                let f = match Evaluator::eval_expression(function, env, scope, fuel) {
                    Ok(o) => o,
                    Err(e) => {
                        return Err(e);
                    },
                };
                let ghost len_f = env@.len();
                let vals = match Evaluator::eval_expressions(args, env, scope, fuel) {
                    Ok(vs) => vs,
                    Err(e) => {
                        return Err(e);
                    },
                };
                if fuel == 0 {
                    return Err(EvaluatorError::RecursionLimitExceeded);
                }
                proof {
                    lemma_obj_wf_grow(f@, len_f as nat, env@.len() as nat);
                }
                Evaluator::apply_function(f, vals, env, fuel - 1)
            },
        }
    }

    #[verifier::loop_isolation(false)]
    #[verifier::rlimit(75)]
    fn eval_expressions(
        expressions: &Vec<Expression>,
        env: &mut Environment,
        scope: usize,
        fuel: u64,
    ) -> (r: Result<Vec<Object>, EvaluatorError>)
        requires
            env_wf(old(env)@),
            scope < old(env)@.len(),
            exprs_wf(exprs_view(expressions@)),
        ensures
            env_wf(final(env)@),
            old(env)@.len() <= final(env)@.len(),
            ({
                let (r0, envf) = ev_exprs(
                    exprs_view(expressions@),
                    old(env)@,
                    scope,
                    fuel as nat,
                );
                final(env)@ == envf && match r {
                    Ok(vs) => r0 == Ok::<Seq<ObjectView>, EvaluatorErrorView>(objs_view(vs@))
                        && objs_wf(objs_view(vs@), final(env)@.len() as nat),
                    Err(e) => r0 == Err::<Seq<ObjectView>, EvaluatorErrorView>(e@),
                }
            }),
        decreases fuel, exprs_size(exprs_view(expressions@)), 2int,
    {
        let ghost ev = exprs_view(expressions@);
        let ghost env0 = env@;
        proof {
            lemma_exprs_view(expressions@);
        }
        let mut result: Vec<Object> = Vec::new();
        let mut i: usize = 0;
        proof {
            assert(ev.skip(0) =~= ev);
            assert(objs_view(result@) =~= Seq::<ObjectView>::empty());
        }
        while i < expressions.len()
            invariant
                env_wf(env@),
                env0.len() <= env@.len(),
                scope < env@.len(),
                i <= expressions.len(),
                result@.len() == i,
                objs_wf(objs_view(result@), env@.len() as nat),
                ({
                    let full = ev_exprs(ev, env0, scope, fuel as nat);
                    let rest = ev_exprs(ev.skip(i as int), env@, scope, fuel as nat);
                    full.1 == rest.1 && full.0 == (match rest.0 {
                        Ok(more) => Ok::<Seq<ObjectView>, EvaluatorErrorView>(
                            objs_view(result@) + more,
                        ),
                        Err(e) => Err(e),
                    })
                }),
            decreases expressions.len() - i,
        {
            let ghost pre_env = env@;
            let ghost acc = result@;
            proof {
                lemma_exprs_view(expressions@);
                lemma_exprs_size_elem(ev, i as int);
                lemma_exprs_wf(ev);
                assert(ev.skip(i as int)[0] == ev[i as int]);
            }
            match Evaluator::eval_expression(&expressions[i], env, scope, fuel) {
                Ok(v) => {
                    let ghost vv = v@;
                    result.push(v);
                    proof {
                        lemma_objs_view_push(acc, result@.last());
                        assert(result@.drop_last() =~= acc);
                        assert(ev.skip(i as int).drop_first() =~= ev.skip(i + 1));
                        lemma_objs_view(acc);
                        lemma_objs_view(result@);
                        assert forall|k: int|
                            0 <= k < objs_view(result@).len() implies obj_wf(
                            #[trigger] objs_view(result@)[k],
                            env@.len() as nat,
                        ) by {
                            if k < acc.len() {
                                assert(objs_view(result@)[k] == objs_view(acc)[k]);
                                assert(obj_wf(objs_view(acc)[k], pre_env.len() as nat));
                                lemma_obj_wf_grow(
                                    objs_view(acc)[k],
                                    pre_env.len() as nat,
                                    env@.len() as nat,
                                );
                            }
                        }
                        let rest2 = ev_exprs(ev.skip(i + 1), env@, scope, fuel as nat);
                        match rest2.0 {
                            Ok(more2) => {
                                assert(objs_view(acc) + (seq![vv] + more2) =~= objs_view(result@)
                                    + more2);
                            },
                            Err(_) => {},
                        }
                    }
                    i = i + 1;
                },
                Err(e) => {
                    return Err(e);
                },
            }
        }
        proof {
            assert(ev.skip(i as int).len() == 0);
            assert(ev.skip(i as int) =~= Seq::<ExpressionView>::empty());
            assert(objs_view(result@) + Seq::<ObjectView>::empty() =~= objs_view(result@));
        }
        Ok(result)
    }

    /// Yields what the prefix operator gives on the evaluated operand.
    fn eval_prefix_expression(operator: Prefix, object: &Object) -> (r: Result<
        Object,
        EvaluatorError,
    >)
        ensures
            ({
                match r {
                    Ok(o) => ev_prefix(operator, object@) == Ok::<ObjectView, EvaluatorErrorView>(
                        o@,
                    ) && (o@ is Integer || o@ is Boolean),
                    Err(e) => ev_prefix(operator, object@) == Err::<
                        ObjectView,
                        EvaluatorErrorView,
                    >(e@),
                }
            }),
    {
        match operator {
            Prefix::Exclamation => Evaluator::eval_exclamation_operator(object),
            Prefix::Minus => Evaluator::eval_minus_prefix_operator(object),
        }
    }

    /// Yields what the infix operator gives on the evaluated operands.
    fn eval_infix_expression(left: &Object, operator: Infix, right: &Object) -> (r: Result<
        Object,
        EvaluatorError,
    >)
        ensures
            ({
                match r {
                    Ok(o) => ev_infix(left@, operator, right@) == Ok::<
                        ObjectView,
                        EvaluatorErrorView,
                    >(o@) && (o@ is Integer || o@ is Boolean),
                    Err(e) => ev_infix(left@, operator, right@) == Err::<
                        ObjectView,
                        EvaluatorErrorView,
                    >(e@),
                }
            }),
    {
        match (left, right) {
            (Object::Integer(a), Object::Integer(b)) => Evaluator::eval_integer_infix_expression(
                *a,
                operator,
                *b,
            ),
            (Object::Boolean(a), Object::Boolean(b)) => Evaluator::eval_boolean_infix_expression(
                *a,
                operator,
                *b,
            ),
            _ => Err(
                EvaluatorError::TypeMismatch {
                    left: left.clone(),
                    operator,
                    right: right.clone(),
                },
            ),
        }
    }

    /// Integer arithmetic and comparison, with the wrapping and division
    /// policy stated by `ev_int_infix`.
    fn eval_integer_infix_expression(left: i32, operator: Infix, right: i32) -> (r: Result<
        Object,
        EvaluatorError,
    >)
        ensures
            ({
                match r {
                    Ok(o) => ev_int_infix(left, operator, right) == Ok::<
                        ObjectView,
                        EvaluatorErrorView,
                    >(o@) && (o@ is Integer || o@ is Boolean),
                    Err(e) => ev_int_infix(left, operator, right) == Err::<
                        ObjectView,
                        EvaluatorErrorView,
                    >(e@),
                }
            }),
    {
        match operator {
            Infix::Plus => Ok(Object::Integer(left.wrapping_add(right))),
            Infix::Minus => Ok(Object::Integer(left.wrapping_sub(right))),
            Infix::Asterisk => Ok(Object::Integer(left.wrapping_mul(right))),
            Infix::Slash => {
                if right == 0 {
                    Err(
                        EvaluatorError::DivisionByZero {
                            left: Object::Integer(left),
                            right: Object::Integer(right),
                        },
                    )
                } else {
                    match left.checked_div(right) {
                        Some(q) => Ok(Object::Integer(q)),
                        None => Ok(Object::Integer(i32::MIN)),
                    }
                }
            },
            Infix::LessThan => Ok(Object::Boolean(left < right)),
            Infix::GreaterThan => Ok(Object::Boolean(left > right)),
            Infix::Equal => Ok(Object::Boolean(left == right)),
            Infix::NotEqual => Ok(Object::Boolean(left != right)),
        }
    }

    /// Boolean comparison: only equality and inequality have meaning on
    /// booleans.
    fn eval_boolean_infix_expression(left: bool, operator: Infix, right: bool) -> (r: Result<
        Object,
        EvaluatorError,
    >)
        ensures
            ({
                match r {
                    Ok(o) => ev_bool_infix(left, operator, right) == Ok::<
                        ObjectView,
                        EvaluatorErrorView,
                    >(o@) && o@ is Boolean,
                    Err(e) => ev_bool_infix(left, operator, right) == Err::<
                        ObjectView,
                        EvaluatorErrorView,
                    >(e@),
                }
            }),
    {
        match operator {
            Infix::Equal => Ok(Object::Boolean(left == right)),
            Infix::NotEqual => Ok(Object::Boolean(left != right)),
            _ => Err(
                EvaluatorError::UnknownInfixOperator {
                    left: Object::Boolean(left),
                    operator,
                    right: Object::Boolean(right),
                },
            ),
        }
    }

    /// Branches on the truthiness of the evaluated condition: the
    /// consequence block when truthy, else the alternative block, else
    /// null.
    fn eval_if_expression(
        condition: &Object,
        consequence: &Statement,
        alternative: &Option<Box<Statement>>,
        env: &mut Environment,
        scope: usize,
        fuel: u64,
    ) -> (r: Result<Object, EvaluatorError>)
        requires
            env_wf(old(env)@),
            scope < old(env)@.len(),
            stmt_wf(consequence@),
            (match alternative {
                Some(alt) => stmt_wf((**alt)@),
                None => true,
            }),
        ensures
            env_wf(final(env)@),
            old(env)@.len() <= final(env)@.len(),
            ({
                let (r0, envf) = if obj_truthy(condition@) {
                    ev_stmt(consequence@, old(env)@, scope, fuel as nat)
                } else {
                    match alternative {
                        Some(alt) => ev_stmt((**alt)@, old(env)@, scope, fuel as nat),
                        None => (Ok(ObjectView::Null), old(env)@),
                    }
                };
                final(env)@ == envf && match r {
                    Ok(o) => r0 == Ok::<ObjectView, EvaluatorErrorView>(o@) && obj_wf(
                        o@,
                        final(env)@.len() as nat,
                    ),
                    Err(e) => r0 == Err::<ObjectView, EvaluatorErrorView>(e@),
                }
            }),
        decreases fuel, stmt_size(consequence@) + (match alternative {
            Some(alt) => stmt_size((**alt)@),
            None => 0nat,
        }), 2int,
    {
        if condition.is_truthly() {
            Evaluator::eval_statement(consequence, env, scope, fuel)
        } else {
            match alternative {
                Some(alt) => Evaluator::eval_statement(alt, env, scope, fuel),
                None => Ok(Object::Null),
            }
        }
    }

    /// Applies a function value: binds the arguments in a fresh scope that
    /// encloses the function's captured scope, evaluates the body there,
    /// and unwraps an early return.
    #[verifier::loop_isolation(false)]
    #[verifier::rlimit(75)]
    fn apply_function(object: Object, args: Vec<Object>, env: &mut Environment, fuel: u64) -> (r:
        Result<Object, EvaluatorError>)
        requires
            env_wf(old(env)@),
            obj_wf(object@, old(env)@.len() as nat),
            objs_wf(objs_view(args@), old(env)@.len() as nat),
        ensures
            env_wf(final(env)@),
            old(env)@.len() <= final(env)@.len(),
            ({
                let (r0, envf) = ev_apply(object@, objs_view(args@), old(env)@, fuel as nat);
                final(env)@ == envf && match r {
                    Ok(o) => r0 == Ok::<ObjectView, EvaluatorErrorView>(o@) && obj_wf(
                        o@,
                        final(env)@.len() as nat,
                    ),
                    Err(e) => r0 == Err::<ObjectView, EvaluatorErrorView>(e@),
                }
            }),
        decreases fuel, apply_size(object@), 3int,
    {
        let ghost env0 = env@;
        match object {
            Object::Function { parameters, body, environment } => {
                let ns = env.create_enclosed_environment(environment);
                let ghost pushed = env@;
                let ghost pv = exprs_view(parameters@);
                let ghost av = objs_view(args@);
                proof {
                    lemma_exprs_view(parameters@);
                    lemma_objs_view(args@);
                    assert(pushed == env_push(env0, environment));
                    assert(ns as nat == env0.len());
                    assert(pv.skip(0) =~= pv);
                    assert(av.skip(0) =~= av);
                    assert forall|k: int| 0 <= k < av.len() implies obj_wf(
                        #[trigger] av[k],
                        env@.len() as nat,
                    ) by {
                        lemma_obj_wf_grow(av[k], env0.len() as nat, env@.len() as nat);
                    }
                }
                let count = if parameters.len() < args.len() {
                    parameters.len()
                } else {
                    args.len()
                };
                let mut i: usize = 0;
                while i < count
                    invariant
                        env_wf(env@),
                        env@.len() == pushed.len(),
                        ns < env@.len(),
                        i <= count,
                        objs_wf(av, env@.len() as nat),
                        bind_params(pushed, ns, pv, av) == bind_params(
                            env@,
                            ns,
                            pv.skip(i as int),
                            av.skip(i as int),
                        ),
                    decreases count - i,
                {
                    proof {
                        lemma_exprs_view(parameters@);
                        lemma_objs_view(args@);
                        assert(pv.skip(i as int)[0] == pv[i as int]);
                        assert(av.skip(i as int)[0] == av[i as int]);
                        assert(pv.skip(i as int).drop_first() =~= pv.skip(i + 1));
                        assert(av.skip(i as int).drop_first() =~= av.skip(i + 1));
                        assert(obj_wf(av[i as int], env@.len() as nat));
                    }
                    match &parameters[i] {
                        Expression::Identifier(name) => {
                            env.set(ns, name.clone(), args[i].clone());
                        },
                        _ => {},
                    }
                    i = i + 1;
                }
                proof {
                    if parameters.len() <= args.len() {
                        assert(pv.skip(count as int).len() == 0);
                    } else {
                        assert(av.skip(count as int).len() == 0);
                    }
                    assert(bind_params(pushed, ns, pv, av) == env@);
                }
                let evaluated = match Evaluator::eval_statement(&*body, env, ns, fuel) {
                    Ok(o) => o,
                    Err(e) => {
                        return Err(e);
                    },
                };
                match evaluated {
                    Object::ReturnValue(o) => Ok(*o),
                    other => Ok(other),
                }
            },
            other => Err(EvaluatorError::CalledNonFunction { found: other }),
        }
    }

    /// Truthiness negation: booleans flip, null negates to true, every
    /// other value negates to false.
    fn eval_exclamation_operator(object: &Object) -> (r: Result<Object, EvaluatorError>)
        ensures
            ({
                match r {
                    Ok(o) => o@ == ObjectView::Boolean(!obj_truthy(object@)) && ev_prefix(
                        Prefix::Exclamation,
                        object@,
                    ) == Ok::<ObjectView, EvaluatorErrorView>(o@),
                    Err(_) => false,
                }
            }),
    {
        match object {
            Object::Boolean(boolean) => Ok(Object::Boolean(!*boolean)),
            Object::Null => Ok(Object::Boolean(true)),
            _ => Ok(Object::Boolean(false)),
        }
    }

    /// Arithmetic negation: integers negate, the minimum value wrapping to
    /// itself; any other operand is an unknown-operator error.
    fn eval_minus_prefix_operator(object: &Object) -> (r: Result<Object, EvaluatorError>)
        ensures
            ({
                match r {
                    Ok(o) => ev_minus(object@) == Ok::<ObjectView, EvaluatorErrorView>(o@) && o@
                        is Integer,
                    Err(e) => ev_minus(object@) == Err::<ObjectView, EvaluatorErrorView>(e@),
                }
            }),
    {
        match object {
            Object::Integer(integer) => {
                let v = *integer;
                if v == i32::MIN {
                    Ok(Object::Integer(v))
                } else {
                    Ok(Object::Integer(-v))
                }
            },
            _ => Err(
                EvaluatorError::UnknownPrefixOperator {
                    operator: Prefix::Minus,
                    right: object.clone(),
                },
            ),
        }
    }
}

} // verus!
