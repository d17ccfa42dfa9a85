//! Comparison, logic and list operators.

use vstd::prelude::*;
use crate::env::Env;
use crate::error::EvalError;
use crate::eval::eval_value;
use crate::eval::evaluation;
use crate::eval::outcome;
use crate::misc::text_eq;
use crate::model::Expected;
use crate::model::Failure;
use crate::model::Name;
use crate::model::Outcome;
use crate::model::Scopes;
use crate::model::Sexp;
use crate::model::done;
use crate::model::failed;
use crate::number::Comparison;
use crate::number::Number;
use crate::parse::Value;
use crate::parse::lemma_views;
use crate::parse::views;

verus! {

/// The four arithmetic operators.
#[derive(Clone, Copy, Debug, PartialEq, Eq)]
pub enum ArithmeticOp {
    Add,
    Subtract,
    Multiply,
    Divide,
}

/// The arithmetic operator that a head symbol names.
pub open spec fn arithmetic_op(name: Name) -> Option<ArithmeticOp> {
    if name == "+"@ {
        Some(ArithmeticOp::Add)
    } else if name == "-"@ {
        Some(ArithmeticOp::Subtract)
    } else if name == "*"@ {
        Some(ArithmeticOp::Multiply)
    } else if name == "/"@ {
        Some(ArithmeticOp::Divide)
    } else {
        None
    }
}

/// An operator applied to two numbers.
pub open spec fn applied(op: ArithmeticOp, a: Number, b: Number) -> Number {
    match op {
        ArithmeticOp::Add => a.plus(b),
        ArithmeticOp::Subtract => a.minus(b),
        ArithmeticOp::Multiply => a.times(b),
        ArithmeticOp::Divide => a.over(b),
    }
}

/// The fold of an operator over the operands from `items[i]` on, from the
/// left, `acc` being the result so far. Each operand is evaluated in turn
/// and must give a number.
pub open spec fn fold_from(
    op: ArithmeticOp,
    items: Seq<Sexp>,
    i: int,
    acc: Number,
    scopes: Scopes,
    depth: nat,
) -> Outcome
    decreases depth, 1nat, items.len() - i,
{
    if i < 1 || i >= items.len() {
        done(Sexp::Number(acc), scopes)
    } else {
        let operand = evaluation(items[i], scopes, depth);
        match operand.result {
            Err(_) => operand,
            Ok(Sexp::Number(n)) => fold_from(
                op,
                items,
                i + 1,
                applied(op, acc, n),
                operand.scopes,
                depth,
            ),
            Ok(_) => failed(Failure::Type(Expected::Number), operand.scopes),
        }
    }
}

/// What an arithmetic form evaluates to. `+` and `*` fold all operands
/// from 0 and from 1. `-` and `/` need an operand and fold the others from
/// the first; `-` with one operand alone is its opposite.
pub open spec fn arithmetic(items: Seq<Sexp>, scopes: Scopes, depth: nat) -> Outcome
    decreases depth, 5nat, 0nat,
{
    match head_name(items) {
        Some(name) => match arithmetic_op(name) {
            Some(ArithmeticOp::Add) => fold_from(
                ArithmeticOp::Add,
                items,
                1,
                Number::zero(),
                scopes,
                depth,
            ),
            Some(ArithmeticOp::Multiply) => fold_from(
                ArithmeticOp::Multiply,
                items,
                1,
                Number::one(),
                scopes,
                depth,
            ),
            Some(op) => if items.len() < 2 {
                failed(Failure::Arity, scopes)
            } else {
                let first = evaluation(items[1], scopes, depth);
                match first.result {
                    Err(_) => first,
                    Ok(Sexp::Number(n)) => if op == ArithmeticOp::Subtract && items.len() == 2 {
                        done(Sexp::Number(n.negated()), first.scopes)
                    } else {
                        fold_from(op, items, 2, n, first.scopes, depth)
                    },
                    Ok(_) => failed(Failure::Type(Expected::Number), first.scopes),
                }
            },
            None => failed(Failure::NotCallable, scopes),
        },
        None => failed(Failure::NotCallable, scopes),
    }
}

/// The three list operators.
#[derive(Clone, Copy, Debug, PartialEq, Eq)]
pub enum ListOp {
    Car,
    Cdr,
    Len,
}

/// The list operator that a head symbol names.
pub open spec fn list_op(name: Name) -> Option<ListOp> {
    if name == "car"@ {
        Some(ListOp::Car)
    } else if name == "cdr"@ {
        Some(ListOp::Cdr)
    } else if name == "len"@ {
        Some(ListOp::Len)
    } else {
        None
    }
}

/// A list operator applied to a list. `car` is the first element, and `Nil`
/// of the empty list. `cdr` is the list without its first element, and
/// `Nil` of a list with fewer than two. `len` is the number of elements.
pub open spec fn list_result(op: ListOp, members: Seq<Sexp>) -> Sexp {
    match op {
        ListOp::Car => if members.len() == 0 {
            Sexp::Nil
        } else {
            members[0]
        },
        ListOp::Cdr => if members.len() < 2 {
            Sexp::Nil
        } else {
            Sexp::List(members.skip(1))
        },
        ListOp::Len => Sexp::Number(Number::of_count(members.len())),
    }
}

/// What a list form evaluates to: it takes one operand, which must give
/// a list.
pub open spec fn list_operation(items: Seq<Sexp>, scopes: Scopes, depth: nat) -> Outcome
    decreases depth, 5nat, 0nat,
{
    match head_name(items) {
        Some(name) => match list_op(name) {
            Some(op) => if items.len() != 2 {
                failed(Failure::Arity, scopes)
            } else {
                let operand = evaluation(items[1], scopes, depth);
                match operand.result {
                    Err(_) => operand,
                    Ok(Sexp::List(members)) => done(list_result(op, members), operand.scopes),
                    Ok(_) => failed(Failure::Type(Expected::List), operand.scopes),
                }
            },
            None => failed(Failure::NotCallable, scopes),
        },
        None => failed(Failure::NotCallable, scopes),
    }
}

/// The comparison that a head symbol names.
pub open spec fn comparison_op(name: Name) -> Option<Comparison> {
    if name == "="@ {
        Some(Comparison::Equal)
    } else if name == "!="@ {
        Some(Comparison::NotEqual)
    } else if name == "<"@ {
        Some(Comparison::Less)
    } else if name == ">"@ {
        Some(Comparison::Greater)
    } else if name == "<="@ {
        Some(Comparison::LessOrEqual)
    } else if name == ">="@ {
        Some(Comparison::GreaterOrEqual)
    } else {
        None
    }
}

/// The head symbol of a list, if it has one.
pub open spec fn head_name(items: Seq<Sexp>) -> Option<Name> {
    if items.len() > 0 && items[0] is Symbol {
        Some(items[0]->Symbol_0)
    } else {
        None
    }
}

/// A chain of comparisons from the pair that ends at `items[i]` on: each
/// pair of neighbours is evaluated, the left one first, and must give two
/// numbers; the first pair that does not compare ends the chain with `Nil`,
/// and the later elements are not evaluated.
pub open spec fn chain_from(
    op: Comparison,
    items: Seq<Sexp>,
    i: int,
    scopes: Scopes,
    depth: nat,
) -> Outcome
    decreases depth, 1nat, items.len() - i,
{
    if i < 2 || i >= items.len() {
        done(Sexp::T, scopes)
    } else {
        let left = evaluation(items[i - 1], scopes, depth);
        match left.result {
            Err(_) => left,
            Ok(a) => {
                let right = evaluation(items[i], left.scopes, depth);
                match right.result {
                    Err(_) => right,
                    Ok(b) => match (a, b) {
                        (Sexp::Number(x), Sexp::Number(y)) => if x.compares(op, y) {
                            chain_from(op, items, i + 1, right.scopes, depth)
                        } else {
                            done(Sexp::Nil, right.scopes)
                        },
                        _ => failed(Failure::Type(Expected::Number), right.scopes),
                    },
                }
            },
        }
    }
}

/// What a comparison evaluates to: with fewer than two operands an arity
/// failure, else `T` if every pair of neighbours compares and `Nil` if one
/// does not.
pub open spec fn comparison(items: Seq<Sexp>, scopes: Scopes, depth: nat) -> Outcome
    decreases depth, 5nat, 0nat,
{
    match head_name(items) {
        Some(name) => match comparison_op(name) {
            Some(op) => if items.len() < 3 {
                failed(Failure::Arity, scopes)
            } else {
                chain_from(op, items, 2, scopes, depth)
            },
            None => failed(Failure::NotCallable, scopes),
        },
        None => failed(Failure::NotCallable, scopes),
    }
}

/// The three logic operators.
#[derive(Clone, Copy, Debug, PartialEq, Eq)]
pub enum LogicOp {
    And,
    Or,
    Not,
}

/// The logic operator that a head symbol names.
pub open spec fn logic_op(name: Name) -> Option<LogicOp> {
    if name == "and"@ {
        Some(LogicOp::And)
    } else if name == "or"@ {
        Some(LogicOp::Or)
    } else if name == "not"@ {
        Some(LogicOp::Not)
    } else {
        None
    }
}

/// `and` from `items[i]` on, `last` being the value of the element before:
/// the first `Nil` ends it, else it is the value of the last element.
pub open spec fn and_from(items: Seq<Sexp>, i: int, last: Sexp, scopes: Scopes, depth: nat) -> Outcome
    decreases depth, 1nat, items.len() - i,
{
    if i < 1 || i >= items.len() {
        done(last, scopes)
    } else {
        let next = evaluation(items[i], scopes, depth);
        match next.result {
            Err(_) => next,
            Ok(Sexp::Nil) => next,
            Ok(value) => and_from(items, i + 1, value, next.scopes, depth),
        }
    }
}

/// `or` from `items[i]` on: the first value that is not `Nil` ends it, and
/// with none it is `Nil`.
pub open spec fn or_from(items: Seq<Sexp>, i: int, scopes: Scopes, depth: nat) -> Outcome
    decreases depth, 1nat, items.len() - i,
{
    if i < 1 || i >= items.len() {
        done(Sexp::Nil, scopes)
    } else {
        let next = evaluation(items[i], scopes, depth);
        match next.result {
            Err(_) => next,
            Ok(Sexp::Nil) => or_from(items, i + 1, next.scopes, depth),
            Ok(_) => next,
        }
    }
}

/// What a logic form evaluates to. `and` needs at least one operand. `not`
/// takes one operand and looks at it as it is written, without evaluating
/// it: only a literal `Nil` gives `T`.
pub open spec fn logic(items: Seq<Sexp>, scopes: Scopes, depth: nat) -> Outcome
    decreases depth, 5nat, 0nat,
{
    match head_name(items) {
        Some(name) => match logic_op(name) {
            Some(LogicOp::And) => if items.len() < 2 {
                failed(Failure::Arity, scopes)
            } else {
                and_from(items, 1, Sexp::Nil, scopes, depth)
            },
            Some(LogicOp::Or) => or_from(items, 1, scopes, depth),
            Some(LogicOp::Not) => if items.len() != 2 {
                failed(Failure::Arity, scopes)
            } else if items[1] is Nil {
                done(Sexp::T, scopes)
            } else {
                done(Sexp::Nil, scopes)
            },
            None => failed(Failure::NotCallable, scopes),
        },
        None => failed(Failure::NotCallable, scopes),
    }
}

/// The comparison that a head symbol names.
pub fn comparison_named(name: &str) -> (r: Option<Comparison>)
    ensures
        r == comparison_op(name@),
{
    if text_eq(name, "=") {
        Some(Comparison::Equal)
    } else if text_eq(name, "!=") {
        Some(Comparison::NotEqual)
    } else if text_eq(name, "<") {
        Some(Comparison::Less)
    } else if text_eq(name, ">") {
        Some(Comparison::Greater)
    } else if text_eq(name, "<=") {
        Some(Comparison::LessOrEqual)
    } else if text_eq(name, ">=") {
        Some(Comparison::GreaterOrEqual)
    } else {
        None
    }
}

/// The logic operator that a head symbol names.
pub fn logic_named(name: &str) -> (r: Option<LogicOp>)
    ensures
        r == logic_op(name@),
{
    if text_eq(name, "and") {
        Some(LogicOp::And)
    } else if text_eq(name, "or") {
        Some(LogicOp::Or)
    } else if text_eq(name, "not") {
        Some(LogicOp::Not)
    } else {
        None
    }
}

/// The head symbol of a list, if it has one.
pub fn head_symbol(list: &[Value]) -> (r: Option<&String>)
    ensures
        match r {
            Some(name) => head_name(views(list@)) == Some(name@),
            None => head_name(views(list@)) is None,
        },
{
    proof {
        lemma_views(list@);
    }
    if list.len() == 0 {
        return None;
    }
    match &list[0] {
        Value::Symbol(name) => Some(name),
        _ => None,
    }
}

/// Evaluates a comparison: `(op a b ...)` with `op` one of
/// `= != < > <= >=`.
pub fn eval_comparison_op(list: &[Value], env: &mut Env<'_>, depth: usize) -> (r: Result<
    Value,
    EvalError,
>)
    ensures
        outcome(r, final(env)@) == comparison(views(list@), old(env)@, depth as nat),
    decreases depth, 5nat, 0nat,
{
    proof {
        lemma_views(list@);
    }
    let name = match head_symbol(list) {
        Some(name) => name,
        None => {
            return Err(EvalError::NotCallable);
        },
    };
    let op = match comparison_named(name.as_str()) {
        Some(op) => op,
        None => {
            return Err(EvalError::NotCallable);
        },
    };
    if list.len() < 3 {
        return Err(EvalError::Arity);
    }
    let ghost items = views(list@);
    let mut i: usize = 2;
    while i < list.len()
        invariant
            2 <= i <= list.len(),
            items == views(list@),
            chain_from(op, items, i as int, env@, depth as nat) == comparison(
                items,
                old(env)@,
                depth as nat,
            ),
        decreases list.len() - i,
    {
        proof {
            lemma_views(list@);
        }
        let a = match eval_value(&list[i - 1], env, depth) {
            Ok(value) => value,
            Err(error) => {
                return Err(error);
            },
        };
        let b = match eval_value(&list[i], env, depth) {
            Ok(value) => value,
            Err(error) => {
                return Err(error);
            },
        };
        match (a, b) {
            (Value::Number(x), Value::Number(y)) => {
                if !x.compare(op, y) {
                    return Ok(Value::Nil);
                }
            },
            _ => {
                return Err(EvalError::Type(Expected::Number));
            },
        }
        i += 1;
    }
    Ok(Value::T)
}

/// Evaluates `(and a ...)`, `(or a ...)` or `(not a)`.
pub fn eval_logic_op(list: &[Value], env: &mut Env<'_>, depth: usize) -> (r: Result<
    Value,
    EvalError,
>)
    ensures
        outcome(r, final(env)@) == logic(views(list@), old(env)@, depth as nat),
    decreases depth, 5nat, 0nat,
{
    proof {
        lemma_views(list@);
    }
    let name = match head_symbol(list) {
        Some(name) => name,
        None => {
            return Err(EvalError::NotCallable);
        },
    };
    let ghost items = views(list@);
    match logic_named(name.as_str()) {
        Some(LogicOp::And) => {
            if list.len() < 2 {
                return Err(EvalError::Arity);
            }
            let mut last = Value::Nil;
            let mut i: usize = 1;
            while i < list.len()
                invariant
                    1 <= i <= list.len(),
                    items == views(list@),
                    and_from(items, i as int, last@, env@, depth as nat) == logic(
                        items,
                        old(env)@,
                        depth as nat,
                    ),
                decreases list.len() - i,
            {
                proof {
                    lemma_views(list@);
                }
                match eval_value(&list[i], env, depth) {
                    Ok(Value::Nil) => {
                        return Ok(Value::Nil);
                    },
                    Ok(value) => {
                        last = value;
                    },
                    Err(error) => {
                        return Err(error);
                    },
                }
                i += 1;
            }
            Ok(last)
        },
        Some(LogicOp::Or) => {
            let mut i: usize = 1;
            while i < list.len()
                invariant
                    1 <= i <= list.len(),
                    items == views(list@),
                    or_from(items, i as int, env@, depth as nat) == logic(
                        items,
                        old(env)@,
                        depth as nat,
                    ),
                decreases list.len() - i,
            {
                proof {
                    lemma_views(list@);
                }
                match eval_value(&list[i], env, depth) {
                    Ok(Value::Nil) => {},
                    Ok(value) => {
                        return Ok(value);
                    },
                    Err(error) => {
                        return Err(error);
                    },
                }
                i += 1;
            }
            Ok(Value::Nil)
        },
        Some(LogicOp::Not) => {
            if list.len() != 2 {
                return Err(EvalError::Arity);
            }
            match &list[1] {
                Value::Nil => Ok(Value::T),
                _ => Ok(Value::Nil),
            }
        },
        None => Err(EvalError::NotCallable),
    }
}

/// The arithmetic operator that a head symbol names.
pub fn arithmetic_named(name: &str) -> (r: Option<ArithmeticOp>)
    ensures
        r == arithmetic_op(name@),
{
    if text_eq(name, "+") {
        Some(ArithmeticOp::Add)
    } else if text_eq(name, "-") {
        Some(ArithmeticOp::Subtract)
    } else if text_eq(name, "*") {
        Some(ArithmeticOp::Multiply)
    } else if text_eq(name, "/") {
        Some(ArithmeticOp::Divide)
    } else {
        None
    }
}

/// The list operator that a head symbol names.
pub fn list_named(name: &str) -> (r: Option<ListOp>)
    ensures
        r == list_op(name@),
{
    if text_eq(name, "car") {
        Some(ListOp::Car)
    } else if text_eq(name, "cdr") {
        Some(ListOp::Cdr)
    } else if text_eq(name, "len") {
        Some(ListOp::Len)
    } else {
        None
    }
}

/// Applies an operator to two numbers.
pub fn apply(op: ArithmeticOp, a: Number, b: Number) -> (r: Number)
    ensures
        r == applied(op, a, b),
{
    match op {
        ArithmeticOp::Add => a.add(b),
        ArithmeticOp::Subtract => a.sub(b),
        ArithmeticOp::Multiply => a.mul(b),
        ArithmeticOp::Divide => a.div(b),
    }
}

/// One step of the fold.
proof fn lemma_fold_step(
    op: ArithmeticOp,
    items: Seq<Sexp>,
    i: int,
    acc: Number,
    scopes: Scopes,
    depth: nat,
)
    requires
        1 <= i < items.len(),
    ensures
        fold_from(op, items, i, acc, scopes, depth) == ({
            let operand = evaluation(items[i], scopes, depth);
            match operand.result {
                Err(_) => operand,
                Ok(Sexp::Number(n)) => fold_from(
                    op,
                    items,
                    i + 1,
                    applied(op, acc, n),
                    operand.scopes,
                    depth,
                ),
                Ok(_) => failed(Failure::Type(Expected::Number), operand.scopes),
            }
        }),
{
}

/// Evaluates `(op a ...)` with `op` one of `+ - * /`.
pub fn eval_arithmetic_op(list: &[Value], env: &mut Env<'_>, depth: usize) -> (r: Result<
    Value,
    EvalError,
>)
    ensures
        outcome(r, final(env)@) == arithmetic(views(list@), old(env)@, depth as nat),
    decreases depth, 5nat, 0nat,
{
    proof {
        lemma_views(list@);
    }
    let name = match head_symbol(list) {
        Some(name) => name,
        None => {
            return Err(EvalError::NotCallable);
        },
    };
    let op = match arithmetic_named(name.as_str()) {
        Some(op) => op,
        None => {
            return Err(EvalError::NotCallable);
        },
    };
    let ghost items = views(list@);
    let ghost whole = arithmetic(items, old(env)@, depth as nat);
    let mut acc: Number;
    let mut i: usize;
    match op {
        ArithmeticOp::Add => {
            acc = Number::from_bits(0);
            i = 1;
        },
        ArithmeticOp::Multiply => {
            acc = Number::from_bits(0x3FF0_0000_0000_0000);
            i = 1;
        },
        _ => {
            if list.len() < 2 {
                return Err(EvalError::Arity);
            }
            match eval_value(&list[1], env, depth) {
                Err(error) => {
                    return Err(error);
                },
                Ok(Value::Number(n)) => {
                    match op {
                        ArithmeticOp::Subtract => {
                            if list.len() == 2 {
                                return Ok(Value::Number(n.negate()));
                            }
                        },
                        _ => {},
                    }
                    acc = n;
                    i = 2;
                },
                Ok(_) => {
                    return Err(EvalError::Type(Expected::Number));
                },
            }
        },
    }
    while i < list.len()
        invariant
            1 <= i,
            items == views(list@),
            items.len() == list.len(),
            whole == arithmetic(items, old(env)@, depth as nat),
            fold_from(op, items, i as int, acc, env@, depth as nat) == whole,
        decreases list.len() - i,
    {
        proof {
            lemma_views(list@);
        }
        let ghost before = env@;
        let ghost sofar = acc;
        proof {
            lemma_fold_step(op, items, i as int, sofar, before, depth as nat);
        }
        match eval_value(&list[i], env, depth) {
            Err(error) => {
                return Err(error);
            },
            Ok(Value::Number(n)) => {
                acc = apply(op, acc, n);
            },
            Ok(_) => {
                return Err(EvalError::Type(Expected::Number));
            },
        }
        i += 1;
    }
    Ok(Value::Number(acc))
}

/// The members of a list from the second on.
fn tail_of(members: &Vec<Value>) -> (r: Vec<Value>)
    requires
        members.len() >= 1,
    ensures
        views(r@) == views(members@).skip(1),
{
    let mut out: Vec<Value> = Vec::new();
    let mut i: usize = 1;
    while i < members.len()
        invariant
            1 <= i <= members.len(),
            out.len() == i - 1,
            forall|j: int| 0 <= j < out.len() ==> (#[trigger] out@[j])@ == members@[j + 1]@,
        decreases members.len() - i,
    {
        out.push(members[i].clone());
        i += 1;
    }
    proof {
        lemma_views(members@);
        lemma_views(out@);
    }
    out
}

/// Evaluates `(car x)`, `(cdr x)` or `(len x)`.
pub fn eval_list_op(list: &[Value], env: &mut Env<'_>, depth: usize) -> (r: Result<Value, EvalError>)
    ensures
        outcome(r, final(env)@) == list_operation(views(list@), old(env)@, depth as nat),
    decreases depth, 5nat, 0nat,
{
    proof {
        lemma_views(list@);
    }
    let name = match head_symbol(list) {
        Some(name) => name,
        None => {
            return Err(EvalError::NotCallable);
        },
    };
    let op = match list_named(name.as_str()) {
        Some(op) => op,
        None => {
            return Err(EvalError::NotCallable);
        },
    };
    if list.len() != 2 {
        return Err(EvalError::Arity);
    }
    let members = match eval_value(&list[1], env, depth) {
        Err(error) => {
            return Err(error);
        },
        Ok(Value::List(members)) => members,
        Ok(_) => {
            return Err(EvalError::Type(Expected::List));
        },
    };
    proof {
        lemma_views(members@);
    }
    match op {
        ListOp::Car => {
            if members.len() == 0 {
                Ok(Value::Nil)
            } else {
                Ok(members[0].clone())
            }
        },
        ListOp::Cdr => {
            if members.len() < 2 {
                Ok(Value::Nil)
            } else {
                Ok(Value::List(tail_of(&members)))
            }
        },
        ListOp::Len => Ok(Value::Number(Number::from_usize(members.len()))),
    }
}

} // verus!
