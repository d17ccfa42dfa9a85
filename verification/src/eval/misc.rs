//! Symbols and the special forms `if`, `def` and `let`.

use vstd::prelude::*;
use crate::env::Env;
use crate::error::EvalError;
use crate::eval::eval_value;
use crate::eval::evaluation;
use crate::eval::outcome;
use crate::misc::is_keyword;
use crate::misc::starts_with_colon;
use crate::model::Defect;
use crate::model::Evaluated;
use crate::model::Expected;
use crate::model::Failure;
use crate::model::Frame;
use crate::model::Name;
use crate::model::Outcome;
use crate::model::Scopes;
use crate::model::Sexp;
use crate::model::bind;
use crate::model::done;
use crate::model::failed;
use crate::model::lookup;
use crate::parse::Value;
use crate::parse::lemma_views;
use crate::parse::views;

verus! {

/// What a symbol evaluates to: itself if it is a keyword, else the value
/// that the scopes give it; with none, the symbol is unbound.
pub open spec fn symbol_value(name: Name, scopes: Scopes) -> Outcome {
    if is_keyword(name) {
        done(Sexp::Symbol(name), scopes)
    } else {
        match lookup(scopes, name) {
            Some(value) => done(value, scopes),
            None => failed(Failure::UnboundSymbol(name), scopes),
        }
    }
}

/// What `(if cond then [else])` evaluates to. The condition must give `T`
/// or `Nil`. With `Nil` and no third branch the form fails: it has no
/// default value.
pub open spec fn conditional(items: Seq<Sexp>, scopes: Scopes, depth: nat) -> Outcome
    decreases depth, 5nat, 0nat,
{
    if items.len() != 3 && items.len() != 4 {
        failed(Failure::Arity, scopes)
    } else {
        let cond = evaluation(items[1], scopes, depth);
        match cond.result {
            Err(_) => cond,
            Ok(Sexp::T) => evaluation(items[2], cond.scopes, depth),
            Ok(Sexp::Nil) => if items.len() == 4 {
                evaluation(items[3], cond.scopes, depth)
            } else {
                failed(Failure::Malformed(Defect::MissingElse), cond.scopes)
            },
            Ok(_) => failed(Failure::Type(Expected::Bool), cond.scopes),
        }
    }
}

/// What `(def name value)` evaluates to: the value, which the current scope
/// binds to the name from then on.
pub open spec fn definition(items: Seq<Sexp>, scopes: Scopes, depth: nat) -> Outcome
    decreases depth, 5nat, 0nat,
{
    if items.len() != 3 {
        failed(Failure::Arity, scopes)
    } else {
        match items[1] {
            Sexp::Symbol(name) => {
                let value = evaluation(items[2], scopes, depth);
                match value.result {
                    Err(_) => value,
                    Ok(v) => done(v, bind(value.scopes, name, v)),
                }
            },
            _ => failed(Failure::Malformed(Defect::DefinedName), scopes),
        }
    }
}

/// The bindings of a `let` from `bindings[i]` on, added to `frame`. Each is
/// a list of a symbol and an expression, and each expression is evaluated
/// in the scopes around the `let`: no binding sees another.
pub open spec fn bindings_from(
    bindings: Seq<Sexp>,
    i: int,
    frame: Frame,
    scopes: Scopes,
    depth: nat,
) -> Evaluated<Frame>
    decreases depth, 1nat, bindings.len() - i,
{
    if i < 0 || i >= bindings.len() {
        done(frame, scopes)
    } else {
        match bindings[i] {
            Sexp::List(pair) => if pair.len() != 2 {
                failed(Failure::Malformed(Defect::Binding), scopes)
            } else {
                match pair[0] {
                    Sexp::Symbol(name) => {
                        let value = evaluation(pair[1], scopes, depth);
                        match value.result {
                            Err(e) => failed(e, value.scopes),
                            Ok(v) => bindings_from(
                                bindings,
                                i + 1,
                                frame.insert(name, v),
                                value.scopes,
                                depth,
                            ),
                        }
                    },
                    _ => failed(Failure::Malformed(Defect::BindingName), scopes),
                }
            },
            _ => failed(Failure::Malformed(Defect::Binding), scopes),
        }
    }
}

/// The expressions from `items[i]` on, evaluated in order, `last` being the
/// value of the one before: the value of the last of them.
pub open spec fn sequence_from(
    items: Seq<Sexp>,
    i: int,
    last: Sexp,
    scopes: Scopes,
    depth: nat,
) -> Outcome
    decreases depth, 1nat, items.len() - i,
{
    if i < 0 || i >= items.len() {
        done(last, scopes)
    } else {
        let next = evaluation(items[i], scopes, depth);
        match next.result {
            Err(_) => next,
            Ok(value) => sequence_from(items, i + 1, value, next.scopes, depth),
        }
    }
}

/// What `(let (bindings...) body...)` evaluates to: the value of the last
/// body expression, evaluated in a new scope that holds the bindings, or
/// `Nil` without a body. The new scope is gone afterwards.
pub open spec fn let_block(items: Seq<Sexp>, scopes: Scopes, depth: nat) -> Outcome
    decreases depth, 5nat, 0nat,
{
    if items.len() < 2 {
        failed(Failure::Arity, scopes)
    } else {
        match items[1] {
            Sexp::List(bindings) => {
                let bound = bindings_from(bindings, 0, Map::empty(), scopes, depth);
                match bound.result {
                    Err(e) => failed(e, bound.scopes),
                    Ok(frame) => {
                        let body = sequence_from(
                            items,
                            2,
                            Sexp::Nil,
                            bound.scopes.push(frame),
                            depth,
                        );
                        Evaluated { result: body.result, scopes: bound.scopes }
                    },
                }
            },
            _ => failed(Failure::Malformed(Defect::BindingList), scopes),
        }
    }
}

/// Evaluates a symbol.
pub fn eval_symbol(symbol: &String, env: &Env<'_>) -> (r: Result<Value, EvalError>)
    ensures
        outcome(r, env@) == symbol_value(symbol@, env@),
{
    if starts_with_colon(symbol.as_str()) {
        return Ok(Value::Symbol(symbol.clone()));
    }
    match env.get(symbol.as_str()) {
        Some(value) => Ok(value),
        None => Err(EvalError::UnboundSymbol(symbol.clone())),
    }
}

/// Evaluates `(if cond then [else])`.
pub fn eval_if(list: &[Value], env: &mut Env<'_>, depth: usize) -> (r: Result<Value, EvalError>)
    ensures
        outcome(r, final(env)@) == conditional(views(list@), old(env)@, depth as nat),
    decreases depth, 5nat, 0nat,
{
    proof {
        lemma_views(list@);
    }
    if list.len() != 3 && list.len() != 4 {
        return Err(EvalError::Arity);
    }
    match eval_value(&list[1], env, depth) {
        Err(error) => Err(error),
        Ok(Value::T) => eval_value(&list[2], env, depth),
        Ok(Value::Nil) => {
            if list.len() == 4 {
                eval_value(&list[3], env, depth)
            } else {
                Err(EvalError::MalformedSpecialForm(Defect::MissingElse))
            }
        },
        Ok(_) => Err(EvalError::Type(Expected::Bool)),
    }
}

/// Evaluates `(def name value)`.
pub fn eval_def(list: &[Value], env: &mut Env<'_>, depth: usize) -> (r: Result<Value, EvalError>)
    ensures
        outcome(r, final(env)@) == definition(views(list@), old(env)@, depth as nat),
    decreases depth, 5nat, 0nat,
{
    proof {
        lemma_views(list@);
    }
    if list.len() != 3 {
        return Err(EvalError::Arity);
    }
    match &list[1] {
        Value::Symbol(name) => {
            match eval_value(&list[2], env, depth) {
                Err(error) => Err(error),
                Ok(value) => {
                    env.set(name.as_str(), value.clone());
                    Ok(value)
                },
            }
        },
        _ => Err(EvalError::MalformedSpecialForm(Defect::DefinedName)),
    }
}

/// Evaluates `(let (bindings...) body...)`.
pub fn eval_let(list: &[Value], env: &mut Env<'_>, depth: usize) -> (r: Result<Value, EvalError>)
    ensures
        outcome(r, final(env)@) == let_block(views(list@), old(env)@, depth as nat),
    decreases depth, 5nat, 0nat,
{
    proof {
        lemma_views(list@);
    }
    if list.len() < 2 {
        return Err(EvalError::Arity);
    }
    let bindings = match &list[1] {
        Value::List(bindings) => bindings,
        _ => {
            return Err(EvalError::MalformedSpecialForm(Defect::BindingList));
        },
    };
    let ghost items = views(list@);
    let ghost pairs = views(bindings@);
    let ghost bound = bindings_from(pairs, 0, Map::empty(), old(env)@, depth as nat);
    proof {
        lemma_views(bindings@);
    }
    let mut scope = Env::new();
    let mut i: usize = 0;
    while i < bindings.len()
        invariant
            i <= bindings.len(),
            list.len() >= 2,
            items == views(list@),
            items.len() == list.len(),
            pairs == views(bindings@),
            pairs.len() == bindings.len(),
            items[1] == Sexp::List(pairs),
            scope@.len() == 1,
            bindings_from(pairs, i as int, scope@.last(), env@, depth as nat) == bound,
            bound == bindings_from(pairs, 0, Map::empty(), old(env)@, depth as nat),
        decreases bindings.len() - i,
    {
        proof {
            lemma_views(bindings@);
        }
        match &bindings[i] {
            Value::List(pair) => {
                proof {
                    lemma_views(pair@);
                }
                if pair.len() != 2 {
                    return Err(EvalError::MalformedSpecialForm(Defect::Binding));
                }
                match &pair[0] {
                    Value::Symbol(name) => {
                        match eval_value(&pair[1], env, depth) {
                            Err(error) => {
                                return Err(error);
                            },
                            Ok(value) => {
                                scope.set(name.as_str(), value);
                            },
                        }
                    },
                    _ => {
                        return Err(EvalError::MalformedSpecialForm(Defect::BindingName));
                    },
                }
            },
            _ => {
                return Err(EvalError::MalformedSpecialForm(Defect::Binding));
            },
        }
        i += 1;
    }
    let ghost frame = scope@.last();
    let mut child = scope.nest(&*env);
    let mut last = Value::Nil;
    let mut j: usize = 2;
    let ghost body = sequence_from(items, 2, Sexp::Nil, env@.push(frame), depth as nat);
    while j < list.len()
        invariant
            2 <= j <= list.len(),
            items == views(list@),
            items.len() == list.len(),
            items[1] == Sexp::List(pairs),
            bound == done(frame, env@),
            bound == bindings_from(pairs, 0, Map::empty(), old(env)@, depth as nat),
            body == sequence_from(items, 2, Sexp::Nil, env@.push(frame), depth as nat),
            sequence_from(items, j as int, last@, child@, depth as nat) == body,
        decreases list.len() - j,
    {
        proof {
            lemma_views(list@);
        }
        match eval_value(&list[j], &mut child, depth) {
            Err(error) => {
                return Err(error);
            },
            Ok(value) => {
                last = value;
            },
        }
        j += 1;
    }
    Ok(last)
}

} // verus!
