//! The evaluator: what an expression means in a chain of scopes, and the
//! function that computes it.
//!
//! Evaluation is bounded by a depth: a list may be entered only while depth
//! is left, and every list that is entered uses up one level of it. The
//! bound stands for the room that nested evaluation has on the call stack.

use vstd::prelude::*;
use crate::env::Env;
use crate::error::EvalError;
use crate::misc::text_eq;
use crate::model::Evaluated;
use crate::model::Failure;
use crate::model::Name;
use crate::model::Outcome;
use crate::model::Scopes;
use crate::model::Sexp;
use crate::model::done;
use crate::model::failed;
use crate::parse::Value;
use crate::parse::lemma_views;
use crate::parse::views;

pub mod function;
pub mod misc;
pub mod op;
pub mod quote;

verus! {

/// The kinds of list that the evaluator tells apart by the head symbol.
#[derive(Clone, Copy, Debug, PartialEq, Eq)]
pub enum Form {
    Arithmetic,
    Comparison,
    Logic,
    ListOp,
    If,
    Def,
    Lambda,
    Macro,
    MacroExpand,
    Let,
    Quote,
    Quasiquote,
    /// Every other head: the list applies a function or a macro.
    Call,
}

/// The kind of list that a head symbol selects.
pub open spec fn form_of(name: Name) -> Form {
    if op::arithmetic_op(name) is Some {
        Form::Arithmetic
    } else if op::comparison_op(name) is Some {
        Form::Comparison
    } else if op::logic_op(name) is Some {
        Form::Logic
    } else if op::list_op(name) is Some {
        Form::ListOp
    } else if name == "if"@ {
        Form::If
    } else if name == "def"@ {
        Form::Def
    } else if name == "lambda"@ {
        Form::Lambda
    } else if name == "macro"@ {
        Form::Macro
    } else if name == "macroexpand"@ {
        Form::MacroExpand
    } else if name == "let"@ {
        Form::Let
    } else if name == "quote"@ {
        Form::Quote
    } else if name == "quasiquote"@ {
        Form::Quasiquote
    } else {
        Form::Call
    }
}

/// What a non-empty list evaluates to, once it was entered.
pub open spec fn list_evaluation(items: Seq<Sexp>, scopes: Scopes, depth: nat) -> Outcome
    decreases depth, 6nat, 0nat,
{
    if items.len() == 0 {
        done(Sexp::Nil, scopes)
    } else {
        match items[0] {
            Sexp::Symbol(name) => match form_of(name) {
                Form::Arithmetic => op::arithmetic(items, scopes, depth),
                Form::Comparison => op::comparison(items, scopes, depth),
                Form::Logic => op::logic(items, scopes, depth),
                Form::ListOp => op::list_operation(items, scopes, depth),
                Form::If => misc::conditional(items, scopes, depth),
                Form::Def => misc::definition(items, scopes, depth),
                Form::Lambda => function::lambda_definition(items, scopes),
                Form::Macro => function::macro_definition(items, scopes),
                Form::MacroExpand => function::macro_expansion(items, scopes, depth),
                Form::Let => misc::let_block(items, scopes, depth),
                Form::Quote => quote::quotation(items, scopes),
                Form::Quasiquote => quote::quasiquotation(items, scopes, depth),
                Form::Call => function::application(items, scopes, depth),
            },
            _ => function::application(items, scopes, depth),
        }
    }
}

/// What an expression evaluates to in a chain of scopes, with `depth`
/// levels of lists left to enter: the result or the failure, and the scopes
/// as the evaluation leaves them.
///
/// Atoms and functions are their own value, the empty list is `Nil`, a
/// keyword is itself and any other symbol is looked up.
pub open spec fn evaluation(value: Sexp, scopes: Scopes, depth: nat) -> Outcome
    decreases depth, 0nat, 0nat,
{
    match value {
        Sexp::Symbol(name) => misc::symbol_value(name, scopes),
        Sexp::List(items) => if items.len() == 0 {
            done(Sexp::Nil, scopes)
        } else if depth == 0 {
            failed(Failure::DepthExceeded, scopes)
        } else {
            list_evaluation(items, scopes, (depth - 1) as nat)
        },
        _ => done(value, scopes),
    }
}

/// What the result of an evaluation stands for.
pub open spec fn result_view(result: Result<Value, EvalError>) -> Result<Sexp, Failure> {
    match result {
        Ok(value) => Ok(value@),
        Err(error) => Err(error@),
    }
}

/// The outcome that a result and the scopes left behind stand for.
pub open spec fn outcome(result: Result<Value, EvalError>, scopes: Scopes) -> Outcome {
    Evaluated { result: result_view(result), scopes }
}

/// The kind of list that a head symbol selects.
pub fn classify(name: &str) -> (r: Form)
    ensures
        r == form_of(name@),
{
    if op::arithmetic_named(name).is_some() {
        Form::Arithmetic
    } else if op::comparison_named(name).is_some() {
        Form::Comparison
    } else if op::logic_named(name).is_some() {
        Form::Logic
    } else if op::list_named(name).is_some() {
        Form::ListOp
    } else if text_eq(name, "if") {
        Form::If
    } else if text_eq(name, "def") {
        Form::Def
    } else if text_eq(name, "lambda") {
        Form::Lambda
    } else if text_eq(name, "macro") {
        Form::Macro
    } else if text_eq(name, "macroexpand") {
        Form::MacroExpand
    } else if text_eq(name, "let") {
        Form::Let
    } else if text_eq(name, "quote") {
        Form::Quote
    } else if text_eq(name, "quasiquote") {
        Form::Quasiquote
    } else {
        Form::Call
    }
}

/// Evaluates a list that was entered: a special form by its own rules, any
/// other list as the application of a function or macro.
pub fn eval_list(list: &[Value], env: &mut Env<'_>, depth: usize) -> (r: Result<Value, EvalError>)
    ensures
        outcome(r, final(env)@) == list_evaluation(views(list@), old(env)@, depth as nat),
    decreases depth, 6nat, 0nat,
{
    proof {
        lemma_views(list@);
    }
    if list.len() == 0 {
        return Ok(Value::Nil);
    }
    match &list[0] {
        Value::Symbol(name) => match classify(name.as_str()) {
            Form::Arithmetic => op::eval_arithmetic_op(list, env, depth),
            Form::Comparison => op::eval_comparison_op(list, env, depth),
            Form::Logic => op::eval_logic_op(list, env, depth),
            Form::ListOp => op::eval_list_op(list, env, depth),
            Form::If => misc::eval_if(list, env, depth),
            Form::Def => misc::eval_def(list, env, depth),
            Form::Lambda => function::eval_fun_definition(list, &*env),
            Form::Macro => function::eval_macro_definition(list, &*env),
            Form::MacroExpand => function::eval_macro_expand(list, env, depth),
            Form::Let => misc::eval_let(list, env, depth),
            Form::Quote => quote::eval_quote(list, &*env),
            Form::Quasiquote => quote::eval_quasiquote(list, env, depth),
            Form::Call => function::eval_fun_call(list, env, depth),
        },
        _ => function::eval_fun_call(list, env, depth),
    }
}

/// Evaluates an expression in a scope, entering lists at most `depth`
/// levels deep.
pub fn eval_value(value: &Value, env: &mut Env<'_>, depth: usize) -> (r: Result<Value, EvalError>)
    ensures
        outcome(r, final(env)@) == evaluation(value@, old(env)@, depth as nat),
    decreases depth, 0nat, 0nat,
{
    match value {
        Value::Symbol(name) => misc::eval_symbol(name, &*env),
        Value::List(items) => {
            proof {
                lemma_views(items@);
            }
            if items.len() == 0 {
                Ok(Value::Nil)
            } else if depth == 0 {
                Err(EvalError::DepthExceeded)
            } else {
                eval_list(items.as_slice(), env, depth - 1)
            }
        },
        _ => Ok(value.clone()),
    }
}

} // verus!
