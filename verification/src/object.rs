//! The runtime values of the language: a tagged union of integers, booleans,
//! null, an internal return-signal wrapper, and function values that carry
//! their captured environment as a scope handle into the arena.
use vstd::prelude::*;

use crate::ast;
use crate::ast::{
    all_identifiers, bool_code_spec, exprs_view, params_code_spec, stmt_code_spec, stmt_view,
    stmt_wf, Expression, ExpressionView, Statement, StatementView,
};
use crate::text::int_code_spec;

verus! {

/// A runtime value. `ReturnValue` is an internal control-flow wrapper that
/// propagates an early `return` and is never a first-class value a program
/// can hold. A `Function` keeps the parameter list and body of its literal
/// and the handle of the environment scope captured at its evaluation.
#[derive(Debug, PartialEq)]
pub enum Object {
    Integer(i32),
    Boolean(bool),
    Null,
    ReturnValue(Box<Object>),
    Function { parameters: Vec<Expression>, body: Box<Statement>, environment: usize },
}

/// The mathematical mirror of `Object`.
pub ghost enum ObjectView {
    Integer(i32),
    Boolean(bool),
    Null,
    ReturnValue(Box<ObjectView>),
    Function { parameters: Seq<ExpressionView>, body: Box<StatementView>, environment: usize },
}

/// The view of a runtime value.
pub open spec fn obj_view(o: Object) -> ObjectView
    decreases o,
{
    match o {
        Object::Integer(i) => ObjectView::Integer(i),
        Object::Boolean(b) => ObjectView::Boolean(b),
        Object::Null => ObjectView::Null,
        Object::ReturnValue(inner) => ObjectView::ReturnValue(Box::new(obj_view(*inner))),
        Object::Function { parameters, body, environment } => ObjectView::Function {
            parameters: exprs_view(parameters@),
            body: Box::new(stmt_view(*body)),
            environment,
        },
    }
}

impl View for Object {
    type V = ObjectView;

    open spec fn view(&self) -> ObjectView {
        obj_view(*self)
    }
}

/// Well-formedness of a runtime value against an arena of `n` scopes: every
/// environment handle points into the arena, and every function value holds
/// an identifier-only parameter list and a well-formed body.
pub open spec fn obj_wf(o: ObjectView, n: nat) -> bool
    decreases o,
{
    match o {
        ObjectView::Integer(_) => true,
        ObjectView::Boolean(_) => true,
        ObjectView::Null => true,
        ObjectView::ReturnValue(inner) => obj_wf(*inner, n),
        ObjectView::Function { parameters, body, environment } => environment < n
            && all_identifiers(parameters) && stmt_wf(*body),
    }
}

/// A value well formed against an arena stays well formed when the arena
/// grows.
pub broadcast proof fn lemma_obj_wf_grow(o: ObjectView, n: nat, m: nat)
    requires
        #[trigger] obj_wf(o, n),
        n <= m,
    ensures
        #[trigger] obj_wf(o, m),
    decreases o,
{
    match o {
        ObjectView::ReturnValue(inner) => {
            lemma_obj_wf_grow(*inner, n, m);
        },
        _ => {},
    }
}

/// The element-wise view of a value list.
pub open spec fn objs_view(s: Seq<Object>) -> Seq<ObjectView>
    decreases s,
{
    if s.len() == 0 {
        Seq::<ObjectView>::empty()
    } else {
        objs_view(s.drop_last()).push(obj_view(s.last()))
    }
}

/// `objs_view` is the element-wise image of the value view.
pub broadcast proof fn lemma_objs_view(s: Seq<Object>)
    ensures
        (#[trigger] objs_view(s)).len() == s.len(),
        forall|i: int| 0 <= i < s.len() ==> objs_view(s)[i] == obj_view(s[i]),
    decreases s,
{
    if s.len() > 0 {
        lemma_objs_view(s.drop_last());
    }
}

/// Appending a value extends the list's view by the element's view.
pub proof fn lemma_objs_view_push(v: Seq<Object>, o: Object)
    ensures
        objs_view(v.push(o)) == objs_view(v).push(obj_view(o)),
{
    assert(v.push(o).drop_last() =~= v);
    assert(v.push(o).last() == o);
}

/// Well-formedness of every value of a list against an arena of `n` scopes.
pub open spec fn objs_wf(vals: Seq<ObjectView>, n: nat) -> bool {
    forall|i: int| 0 <= i < vals.len() ==> obj_wf(#[trigger] vals[i], n)
}

impl Clone for Object {
    /// A deep copy whose view equals the original's.
    fn clone(&self) -> (r: Self)
        ensures
            r@ == self@,
        decreases *self,
    {
        match self {
            Object::Integer(i) => Object::Integer(*i),
            Object::Boolean(b) => Object::Boolean(*b),
            Object::Null => Object::Null,
            Object::ReturnValue(inner) => Object::ReturnValue(Box::new((**inner).clone())),
            Object::Function { parameters, body, environment } => {
                let r = Object::Function {
                    parameters: crate::ast::clone_expressions(parameters),
                    body: Box::new((**body).clone()),
                    environment: *environment,
                };
                proof {
                    assert(r@ == self@);
                }
                r
            },
        }
    }
}

/// The truthiness rule of the language: `false` and `null` are falsy, every
/// other value is truthy. In particular every integer is truthy, zero
/// included.
pub open spec fn obj_truthy(o: ObjectView) -> bool {
    match o {
        ObjectView::Boolean(b) => b,
        ObjectView::Null => false,
        _ => true,
    }
}

/// The display form of a value: the decimal integer, `true`/`false`, the
/// empty string for null, the unwrapped inner value of a return wrapper, and
/// the rendered literal (plus a line break) for a function.
pub open spec fn inspect_spec(o: ObjectView) -> Seq<char>
    decreases o,
{
    match o {
        ObjectView::Integer(i) => int_code_spec(i as int),
        ObjectView::Boolean(b) => bool_code_spec(b),
        ObjectView::Null => Seq::<char>::empty(),
        ObjectView::ReturnValue(inner) => inspect_spec(*inner),
        ObjectView::Function { parameters, body, environment } => "fn("@ + params_code_spec(
            parameters,
        ) + ")"@ + stmt_code_spec(*body) + "\n"@,
    }
}

impl Object {
    /// Decides truthiness as the `if` condition and the `!` operator see it.
    pub fn is_truthly(&self) -> (r: bool)
        ensures
            r == obj_truthy(self@),
    {
        match self {
            Object::Boolean(b) => *b,
            Object::Null => false,
            _ => true,
        }
    }

    /// Renders the value for display.
    pub fn inspect(&self) -> (r: String)
        ensures
            r@ == inspect_spec(self@),
        decreases *self,
    {
        match self {
            Object::Integer(i) => crate::text::i32_to_code(*i),
            Object::Boolean(b) => {
                if *b {
                    String::from_str("true")
                } else {
                    String::from_str("false")
                }
            },
            Object::Null => String::new(),
            Object::ReturnValue(inner) => (**inner).inspect(),
            Object::Function { parameters, body, environment } => {
                let mut result = String::new();
                result.append("fn(");
                ast::push_params(&mut result, parameters);
                result.append(")");
                ast::push_stmt(&mut result, body);
                result.append("\n");
                proof {
                    assert(result@ =~= inspect_spec(self@));
                }
                result
            },
        }
    }
}

} // verus!
