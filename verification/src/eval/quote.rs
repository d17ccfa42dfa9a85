//! `quote` and `quasiquote`.

use vstd::prelude::*;
use crate::env::Env;
use crate::error::EvalError;
use crate::eval::eval_value;
use crate::eval::evaluation;
use crate::eval::outcome;
use crate::misc::text_eq;
use crate::model::Failure;
use crate::model::Outcome;
use crate::model::Scopes;
use crate::model::Sexp;
use crate::model::done;
use crate::model::failed;
use crate::parse::Value;
use crate::parse::lemma_views;
use crate::parse::lemma_views_concat;
use crate::parse::lemma_views_push;
use crate::parse::views;

verus! {

/// What `(quote x)` evaluates to: `x` as it is written.
pub open spec fn quotation(items: Seq<Sexp>, scopes: Scopes) -> Outcome {
    if items.len() != 2 {
        failed(Failure::Arity, scopes)
    } else {
        done(items[1], scopes)
    }
}

/// Whether a list begins with the symbol `unquote`.
pub open spec fn heads_unquote(items: Seq<Sexp>) -> bool {
    items.len() > 0 && items[0] == Sexp::Symbol("unquote"@)
}

/// Whether a list begins with the symbol `splice-unquote`.
pub open spec fn heads_splice(items: Seq<Sexp>) -> bool {
    items.len() > 0 && items[0] == Sexp::Symbol("splice-unquote"@)
}

/// Whether an element of a template is `(splice-unquote x)`.
pub open spec fn splices(item: Sexp) -> bool {
    item is List && item->List_0.len() == 2 && heads_splice(item->List_0)
}

/// What a template expands to.
///
/// Anything but a list is itself. `(unquote x)` is the value of `x`. A list
/// that begins with `splice-unquote` has no list to splice into and fails,
/// as does an `unquote` with another number of arguments than one. Any other
/// list expands element by element, one level of depth further in.
pub open spec fn template(value: Sexp, scopes: Scopes, depth: nat) -> Outcome
    decreases depth, 2nat, 0nat,
{
    match value {
        Sexp::List(items) => if items.len() == 0 {
            done(value, scopes)
        } else if heads_unquote(items) {
            if items.len() == 2 {
                evaluation(items[1], scopes, depth)
            } else {
                failed(Failure::InvalidQuasiquote, scopes)
            }
        } else if heads_splice(items) {
            failed(Failure::InvalidQuasiquote, scopes)
        } else if depth == 0 {
            failed(Failure::DepthExceeded, scopes)
        } else {
            template_items(items, 0, Seq::empty(), scopes, (depth - 1) as nat)
        },
        _ => done(value, scopes),
    }
}

/// The elements of a template list from `items[i]` on, after `built`. An
/// element `(splice-unquote x)` adds the members of the value of `x` if
/// that is a list, and the value itself if not; every other element adds
/// what it expands to. The order of the elements is kept.
pub open spec fn template_items(
    items: Seq<Sexp>,
    i: int,
    built: Seq<Sexp>,
    scopes: Scopes,
    depth: nat,
) -> Outcome
    decreases depth, 3nat, items.len() - i,
{
    if i < 0 || i >= items.len() {
        done(Sexp::List(built), scopes)
    } else if splices(items[i]) {
        let piece = evaluation(items[i]->List_0[1], scopes, depth);
        match piece.result {
            Err(_) => piece,
            Ok(Sexp::List(members)) => template_items(
                items,
                i + 1,
                built + members,
                piece.scopes,
                depth,
            ),
            Ok(value) => template_items(items, i + 1, built.push(value), piece.scopes, depth),
        }
    } else {
        let piece = template(items[i], scopes, depth);
        match piece.result {
            Err(_) => piece,
            Ok(value) => template_items(items, i + 1, built.push(value), piece.scopes, depth),
        }
    }
}

/// What `(quasiquote x)` evaluates to: the expansion of the template `x`.
pub open spec fn quasiquotation(items: Seq<Sexp>, scopes: Scopes, depth: nat) -> Outcome
    decreases depth, 5nat, 0nat,
{
    if items.len() != 2 {
        failed(Failure::Arity, scopes)
    } else {
        template(items[1], scopes, depth)
    }
}

/// Whether a value is the symbol of the given name.
pub fn is_symbol_named(value: &Value, name: &str) -> (r: bool)
    ensures
        r == (value@ == Sexp::Symbol(name@)),
{
    match value {
        Value::Symbol(symbol) => text_eq(symbol.as_str(), name),
        _ => false,
    }
}

/// Evaluates `(quote x)`.
pub fn eval_quote(list: &[Value], env: &Env<'_>) -> (r: Result<Value, EvalError>)
    ensures
        outcome(r, env@) == quotation(views(list@), env@),
{
    proof {
        lemma_views(list@);
    }
    if list.len() != 2 {
        return Err(EvalError::Arity);
    }
    Ok(list[1].clone())
}

/// Expands a template in a scope.
pub fn eval_quasiquote_value(value: &Value, env: &mut Env<'_>, depth: usize) -> (r: Result<
    Value,
    EvalError,
>)
    ensures
        outcome(r, final(env)@) == template(value@, old(env)@, depth as nat),
    decreases depth, 2nat, 0nat,
{
    let list = match value {
        Value::List(list) => list,
        _ => {
            return Ok(value.clone());
        },
    };
    proof {
        lemma_views(list@);
    }
    if list.len() == 0 {
        return Ok(value.clone());
    }
    if is_symbol_named(&list[0], "unquote") {
        if list.len() == 2 {
            return eval_value(&list[1], env, depth);
        } else {
            return Err(EvalError::InvalidQuasiquote);
        }
    }
    if is_symbol_named(&list[0], "splice-unquote") {
        return Err(EvalError::InvalidQuasiquote);
    }
    if depth == 0 {
        return Err(EvalError::DepthExceeded);
    }
    let ghost items = views(list@);
    let ghost whole = template_items(items, 0, Seq::empty(), old(env)@, (depth - 1) as nat);
    let mut built: Vec<Value> = Vec::new();
    let mut i: usize = 0;
    while i < list.len()
        invariant
            i <= list.len(),
            depth > 0,
            template(value@, old(env)@, depth as nat) == whole,
            items == views(list@),
            items.len() == list.len(),
            whole == template_items(items, 0, Seq::empty(), old(env)@, (depth - 1) as nat),
            template_items(items, i as int, views(built@), env@, (depth - 1) as nat) == whole,
        decreases list.len() - i,
    {
        proof {
            lemma_views(list@);
        }
        let spliced = match &list[i] {
            Value::List(sub) => {
                proof {
                    lemma_views(sub@);
                }
                sub.len() == 2 && is_symbol_named(&sub[0], "splice-unquote")
            },
            _ => false,
        };
        if spliced {
            let sub = match &list[i] {
                Value::List(sub) => sub,
                _ => {
                    return Err(EvalError::InvalidQuasiquote);
                },
            };
            match eval_value(&sub[1], env, depth - 1) {
                Err(error) => {
                    return Err(error);
                },
                Ok(Value::List(mut members)) => {
                    proof {
                        lemma_views_concat(built@, members@);
                    }
                    built.append(&mut members);
                },
                Ok(piece) => {
                    proof {
                        lemma_views_push(built@, piece);
                    }
                    built.push(piece);
                },
            }
        } else {
            match eval_quasiquote_value(&list[i], env, depth - 1) {
                Err(error) => {
                    return Err(error);
                },
                Ok(piece) => {
                    proof {
                        lemma_views_push(built@, piece);
                    }
                    built.push(piece);
                },
            }
        }
        i += 1;
    }
    Ok(Value::List(built))
}

/// Evaluates `(quasiquote x)`.
pub fn eval_quasiquote(list: &[Value], env: &mut Env<'_>, depth: usize) -> (r: Result<
    Value,
    EvalError,
>)
    ensures
        outcome(r, final(env)@) == quasiquotation(views(list@), old(env)@, depth as nat),
    decreases depth, 5nat, 0nat,
{
    proof {
        lemma_views(list@);
    }
    if list.len() != 2 {
        return Err(EvalError::Arity);
    }
    eval_quasiquote_value(&list[1], env, depth)
}

} // verus!
