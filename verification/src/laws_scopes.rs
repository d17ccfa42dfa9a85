//! The law of scopes: evaluation writes the current scope only.
//!
//! Whatever an expression does, the chain of scopes is as long afterwards
//! as it was before, and every scope but the current one holds what it held.
//! The scopes that calls and `let` blocks open are gone when they end.

use vstd::prelude::*;
use crate::eval::Form;
use crate::eval::evaluation;
use crate::eval::form_of;
use crate::eval::function::application;
use crate::eval::function::binding;
use crate::eval::function::callee;
use crate::eval::function::initial_frame;
use crate::eval::function::invocation;
use crate::eval::function::is_tag;
use crate::eval::function::macro_expansion;
use crate::eval::function::scan_from;
use crate::eval::function::values_from;
use crate::eval::function::with_positional;
use crate::eval::list_evaluation;
use crate::eval::misc::bindings_from;
use crate::eval::misc::conditional;
use crate::eval::misc::definition;
use crate::eval::misc::let_block;
use crate::eval::op::ArithmeticOp;
use crate::eval::op::LogicOp;
use crate::eval::op::and_from;
use crate::eval::op::applied;
use crate::eval::op::arithmetic;
use crate::eval::op::arithmetic_op;
use crate::eval::op::chain_from;
use crate::eval::op::comparison;
use crate::eval::op::comparison_op;
use crate::eval::op::fold_from;
use crate::eval::op::head_name;
use crate::eval::op::list_operation;
use crate::eval::op::logic;
use crate::eval::op::logic_op;
use crate::eval::op::or_from;
use crate::eval::quote::heads_splice;
use crate::eval::quote::heads_unquote;
use crate::eval::quote::quasiquotation;
use crate::eval::quote::splices;
use crate::eval::quote::template;
use crate::eval::quote::template_items;
use crate::model::Frame;
use crate::model::Name;
use crate::model::ParamSpec;
use crate::model::Scopes;
use crate::model::Sexp;
use crate::number::Comparison;
use crate::number::Number;

verus! {

/// Whether two chains have the same length and the same scopes but for the
/// current one.
pub open spec fn same_outer(after: Scopes, before: Scopes) -> bool {
    &&& after.len() == before.len()
    &&& forall|i: int| 0 <= i < before.len() - 1 ==> after[i] == before[i]
}

/// Evaluating an expression leaves every scope but the current one as it
/// was, and opens or closes none for good.
pub proof fn law_evaluation_writes_the_current_scope_only(value: Sexp, scopes: Scopes, depth: nat)
    ensures
        same_outer(evaluation(value, scopes, depth).scopes, scopes),
    decreases depth, 0nat, 0nat,
{
    match value {
        Sexp::List(items) => {
            if items.len() > 0 && depth > 0 {
                lemma_list(items, scopes, (depth - 1) as nat);
            }
        },
        _ => {},
    }
}

// The lemmas below say the same of each part of evaluation, and are proved
// together with the law, each from the others at the depth or the length
// below.

proof fn lemma_list(items: Seq<Sexp>, scopes: Scopes, depth: nat)
    ensures
        same_outer(list_evaluation(items, scopes, depth).scopes, scopes),
    decreases depth, 6nat, 0nat,
{
    if items.len() > 0 {
        match items[0] {
            Sexp::Symbol(name) => match form_of(name) {
                Form::Arithmetic => lemma_arithmetic(items, scopes, depth),
                Form::Comparison => lemma_comparison(items, scopes, depth),
                Form::Logic => lemma_logic(items, scopes, depth),
                Form::ListOp => lemma_list_operation(items, scopes, depth),
                Form::If => lemma_conditional(items, scopes, depth),
                Form::Def => lemma_definition(items, scopes, depth),
                Form::Lambda => {},
                Form::Macro => {},
                Form::MacroExpand => lemma_macro_expansion(items, scopes, depth),
                Form::Let => lemma_let_block(items, scopes, depth),
                Form::Quote => {},
                Form::Quasiquote => lemma_quasiquotation(items, scopes, depth),
                Form::Call => lemma_application(items, scopes, depth),
            },
            _ => lemma_application(items, scopes, depth),
        }
    }
}

proof fn lemma_fold(
    op: ArithmeticOp,
    items: Seq<Sexp>,
    i: int,
    acc: Number,
    scopes: Scopes,
    depth: nat,
)
    ensures
        same_outer(fold_from(op, items, i, acc, scopes, depth).scopes, scopes),
    decreases depth, 1nat, items.len() - i,
{
    if !(i < 1 || i >= items.len()) {
        law_evaluation_writes_the_current_scope_only(items[i], scopes, depth);
        let operand = evaluation(items[i], scopes, depth);
        match operand.result {
            Ok(Sexp::Number(n)) => {
                lemma_fold(op, items, i + 1, applied(op, acc, n), operand.scopes, depth);
            },
            _ => {},
        }
    }
}

proof fn lemma_arithmetic(items: Seq<Sexp>, scopes: Scopes, depth: nat)
    ensures
        same_outer(arithmetic(items, scopes, depth).scopes, scopes),
    decreases depth, 5nat, 0nat,
{
    match head_name(items) {
        Some(name) => match arithmetic_op(name) {
            Some(ArithmeticOp::Add) => {
                lemma_fold(ArithmeticOp::Add, items, 1, Number::zero(), scopes, depth);
            },
            Some(ArithmeticOp::Multiply) => {
                lemma_fold(ArithmeticOp::Multiply, items, 1, Number::one(), scopes, depth);
            },
            Some(op) => {
                if items.len() >= 2 {
                    law_evaluation_writes_the_current_scope_only(items[1], scopes, depth);
                    let first = evaluation(items[1], scopes, depth);
                    match first.result {
                        Ok(Sexp::Number(n)) => {
                            lemma_fold(op, items, 2, n, first.scopes, depth);
                        },
                        _ => {},
                    }
                }
            },
            None => {},
        },
        None => {},
    }
}

proof fn lemma_chain(op: Comparison, items: Seq<Sexp>, i: int, scopes: Scopes, depth: nat)
    ensures
        same_outer(chain_from(op, items, i, scopes, depth).scopes, scopes),
    decreases depth, 1nat, items.len() - i,
{
    if !(i < 2 || i >= items.len()) {
        law_evaluation_writes_the_current_scope_only(items[i - 1], scopes, depth);
        let left = evaluation(items[i - 1], scopes, depth);
        if left.result is Ok {
            law_evaluation_writes_the_current_scope_only(items[i], left.scopes, depth);
            let right = evaluation(items[i], left.scopes, depth);
            if right.result is Ok {
                lemma_chain(op, items, i + 1, right.scopes, depth);
            }
        }
    }
}

proof fn lemma_comparison(items: Seq<Sexp>, scopes: Scopes, depth: nat)
    ensures
        same_outer(comparison(items, scopes, depth).scopes, scopes),
    decreases depth, 5nat, 0nat,
{
    match head_name(items) {
        Some(name) => match comparison_op(name) {
            Some(op) => {
                if items.len() >= 3 {
                    lemma_chain(op, items, 2, scopes, depth);
                }
            },
            None => {},
        },
        None => {},
    }
}

proof fn lemma_and(items: Seq<Sexp>, i: int, last: Sexp, scopes: Scopes, depth: nat)
    ensures
        same_outer(and_from(items, i, last, scopes, depth).scopes, scopes),
    decreases depth, 1nat, items.len() - i,
{
    if !(i < 1 || i >= items.len()) {
        law_evaluation_writes_the_current_scope_only(items[i], scopes, depth);
        let next = evaluation(items[i], scopes, depth);
        match next.result {
            Err(_) => {},
            Ok(Sexp::Nil) => {},
            Ok(value) => {
                lemma_and(items, i + 1, value, next.scopes, depth);
            },
        }
    }
}

proof fn lemma_or(items: Seq<Sexp>, i: int, scopes: Scopes, depth: nat)
    ensures
        same_outer(or_from(items, i, scopes, depth).scopes, scopes),
    decreases depth, 1nat, items.len() - i,
{
    if !(i < 1 || i >= items.len()) {
        law_evaluation_writes_the_current_scope_only(items[i], scopes, depth);
        let next = evaluation(items[i], scopes, depth);
        match next.result {
            Ok(Sexp::Nil) => {
                lemma_or(items, i + 1, next.scopes, depth);
            },
            _ => {},
        }
    }
}

proof fn lemma_logic(items: Seq<Sexp>, scopes: Scopes, depth: nat)
    ensures
        same_outer(logic(items, scopes, depth).scopes, scopes),
    decreases depth, 5nat, 0nat,
{
    match head_name(items) {
        Some(name) => match logic_op(name) {
            Some(LogicOp::And) => {
                if items.len() >= 2 {
                    lemma_and(items, 1, Sexp::Nil, scopes, depth);
                }
            },
            Some(LogicOp::Or) => {
                lemma_or(items, 1, scopes, depth);
            },
            _ => {},
        },
        None => {},
    }
}

proof fn lemma_list_operation(items: Seq<Sexp>, scopes: Scopes, depth: nat)
    ensures
        same_outer(list_operation(items, scopes, depth).scopes, scopes),
    decreases depth, 5nat, 0nat,
{
    if items.len() == 2 {
        law_evaluation_writes_the_current_scope_only(items[1], scopes, depth);
    }
}

proof fn lemma_conditional(items: Seq<Sexp>, scopes: Scopes, depth: nat)
    ensures
        same_outer(conditional(items, scopes, depth).scopes, scopes),
    decreases depth, 5nat, 0nat,
{
    if items.len() == 3 || items.len() == 4 {
        law_evaluation_writes_the_current_scope_only(items[1], scopes, depth);
        let cond = evaluation(items[1], scopes, depth);
        match cond.result {
            Ok(Sexp::T) => {
                law_evaluation_writes_the_current_scope_only(items[2], cond.scopes, depth);
            },
            Ok(Sexp::Nil) => {
                if items.len() == 4 {
                    law_evaluation_writes_the_current_scope_only(items[3], cond.scopes, depth);
                }
            },
            _ => {},
        }
    }
}

proof fn lemma_definition(items: Seq<Sexp>, scopes: Scopes, depth: nat)
    ensures
        same_outer(definition(items, scopes, depth).scopes, scopes),
    decreases depth, 5nat, 0nat,
{
    if items.len() == 3 {
        law_evaluation_writes_the_current_scope_only(items[2], scopes, depth);
    }
}

proof fn lemma_bindings(bindings: Seq<Sexp>, i: int, frame: Frame, scopes: Scopes, depth: nat)
    ensures
        same_outer(bindings_from(bindings, i, frame, scopes, depth).scopes, scopes),
    decreases depth, 1nat, bindings.len() - i,
{
    if !(i < 0 || i >= bindings.len()) {
        match bindings[i] {
            Sexp::List(pair) => {
                if pair.len() == 2 {
                    match pair[0] {
                        Sexp::Symbol(name) => {
                            law_evaluation_writes_the_current_scope_only(pair[1], scopes, depth);
                            let value = evaluation(pair[1], scopes, depth);
                            match value.result {
                                Ok(v) => {
                                    lemma_bindings(
                                        bindings,
                                        i + 1,
                                        frame.insert(name, v),
                                        value.scopes,
                                        depth,
                                    );
                                },
                                Err(_) => {},
                            }
                        },
                        _ => {},
                    }
                }
            },
            _ => {},
        }
    }
}

proof fn lemma_let_block(items: Seq<Sexp>, scopes: Scopes, depth: nat)
    ensures
        same_outer(let_block(items, scopes, depth).scopes, scopes),
    decreases depth, 5nat, 0nat,
{
    if items.len() >= 2 {
        match items[1] {
            Sexp::List(bindings) => {
                lemma_bindings(bindings, 0, Map::empty(), scopes, depth);
            },
            _ => {},
        }
    }
}

proof fn lemma_template(value: Sexp, scopes: Scopes, depth: nat)
    ensures
        same_outer(template(value, scopes, depth).scopes, scopes),
    decreases depth, 2nat, 0nat,
{
    match value {
        Sexp::List(items) => {
            if items.len() == 0 {
            } else if heads_unquote(items) {
                if items.len() == 2 {
                    law_evaluation_writes_the_current_scope_only(items[1], scopes, depth);
                }
            } else if heads_splice(items) {
            } else if depth > 0 {
                lemma_template_items(items, 0, Seq::empty(), scopes, (depth - 1) as nat);
            }
        },
        _ => {},
    }
}

proof fn lemma_template_items(
    items: Seq<Sexp>,
    i: int,
    built: Seq<Sexp>,
    scopes: Scopes,
    depth: nat,
)
    ensures
        same_outer(template_items(items, i, built, scopes, depth).scopes, scopes),
    decreases depth, 3nat, items.len() - i,
{
    if !(i < 0 || i >= items.len()) {
        if splices(items[i]) {
            law_evaluation_writes_the_current_scope_only(items[i]->List_0[1], scopes, depth);
            let piece = evaluation(items[i]->List_0[1], scopes, depth);
            match piece.result {
                Err(_) => {},
                Ok(Sexp::List(members)) => {
                    lemma_template_items(items, i + 1, built + members, piece.scopes, depth);
                },
                Ok(value) => {
                    lemma_template_items(items, i + 1, built.push(value), piece.scopes, depth);
                },
            }
        } else {
            lemma_template(items[i], scopes, depth);
            let piece = template(items[i], scopes, depth);
            match piece.result {
                Err(_) => {},
                Ok(value) => {
                    lemma_template_items(items, i + 1, built.push(value), piece.scopes, depth);
                },
            }
        }
    }
}

proof fn lemma_quasiquotation(items: Seq<Sexp>, scopes: Scopes, depth: nat)
    ensures
        same_outer(quasiquotation(items, scopes, depth).scopes, scopes),
    decreases depth, 5nat, 0nat,
{
    if items.len() == 2 {
        lemma_template(items[1], scopes, depth);
    }
}

proof fn lemma_values(items: Seq<Sexp>, i: int, got: Seq<Sexp>, scopes: Scopes, depth: nat)
    ensures
        same_outer(values_from(items, i, got, scopes, depth).scopes, scopes),
    decreases depth, 1nat, items.len() - i,
{
    if !(i < 0 || i >= items.len()) {
        law_evaluation_writes_the_current_scope_only(items[i], scopes, depth);
        let next = evaluation(items[i], scopes, depth);
        match next.result {
            Err(_) => {},
            Ok(value) => {
                lemma_values(items, i + 1, got.push(value), next.scopes, depth);
            },
        }
    }
}

proof fn lemma_scan(
    keywords: Seq<Name>,
    items: Seq<Sexp>,
    values: Seq<Sexp>,
    i: int,
    frame: Frame,
    rest: Seq<Sexp>,
    scopes: Scopes,
    depth: nat,
)
    ensures
        same_outer(
            scan_from(keywords, items, values, i, frame, rest, scopes, depth).scopes,
            scopes,
        ),
    decreases depth, 1nat, values.len() - i,
{
    if !(i < 0 || i >= values.len()) {
        if is_tag(values[i], keywords) && i + 1 < values.len() {
            law_evaluation_writes_the_current_scope_only(items[i + 2], scopes, depth);
            let fresh = evaluation(items[i + 2], scopes, depth);
            match fresh.result {
                Err(_) => {},
                Ok(value) => {
                    lemma_scan(
                        keywords,
                        items,
                        values,
                        i + 2,
                        frame.insert(values[i]->Symbol_0.skip(1), value),
                        rest,
                        fresh.scopes,
                        depth,
                    );
                },
            }
        } else {
            lemma_scan(keywords, items, values, i + 1, frame, rest.push(values[i]), scopes, depth);
        }
    }
}

proof fn lemma_binding(params: ParamSpec, items: Seq<Sexp>, scopes: Scopes, depth: nat)
    ensures
        same_outer(binding(params, items, scopes, depth).scopes, scopes),
    decreases depth, 4nat, 0nat,
{
    lemma_values(items, 1, Seq::empty(), scopes, depth);
    let args = values_from(items, 1, Seq::empty(), scopes, depth);
    match args.result {
        Err(_) => {},
        Ok(values) => {
            let names = params.required + params.optional;
            let count = if values.len() < names.len() {
                values.len() as int
            } else {
                names.len() as int
            };
            let placed = with_positional(initial_frame(params), names, values, count);
            lemma_scan(
                params.keyword,
                items,
                values,
                names.len() as int,
                placed,
                Seq::empty(),
                args.scopes,
                depth,
            );
        },
    }
}

proof fn lemma_invocation(
    params: ParamSpec,
    body: Sexp,
    is_macro: bool,
    items: Seq<Sexp>,
    scopes: Scopes,
    depth: nat,
)
    ensures
        same_outer(invocation(params, body, is_macro, items, scopes, depth).scopes, scopes),
    decreases depth, 4nat, 1nat,
{
    lemma_binding(params, items, scopes, depth);
    let bound = binding(params, items, scopes, depth);
    match bound.result {
        Err(_) => {},
        Ok(frame) => {
            let inner = evaluation(body, bound.scopes.push(frame), depth);
            match inner.result {
                Err(_) => {},
                Ok(value) => {
                    if is_macro {
                        law_evaluation_writes_the_current_scope_only(value, bound.scopes, depth);
                    }
                },
            }
        },
    }
}

proof fn lemma_application(items: Seq<Sexp>, scopes: Scopes, depth: nat)
    ensures
        same_outer(application(items, scopes, depth).scopes, scopes),
    decreases depth, 5nat, 0nat,
{
    if items.len() > 0 {
        law_evaluation_writes_the_current_scope_only(items[0], scopes, depth);
        let head = evaluation(items[0], scopes, depth);
        match head.result {
            Err(_) => {},
            Ok(value) => match callee(value, head.scopes) {
                Err(_) => {},
                Ok(function) => {
                    lemma_invocation(
                        function->params,
                        *function->body,
                        function->is_macro,
                        items,
                        head.scopes,
                        depth,
                    );
                },
            },
        }
    }
}

proof fn lemma_macro_expansion(items: Seq<Sexp>, scopes: Scopes, depth: nat)
    ensures
        same_outer(macro_expansion(items, scopes, depth).scopes, scopes),
    decreases depth, 5nat, 0nat,
{
    if items.len() == 2 {
        law_evaluation_writes_the_current_scope_only(items[1], scopes, depth);
        let form = evaluation(items[1], scopes, depth);
        match form.result {
            Ok(Sexp::List(call)) => {
                if call.len() > 0 {
                    law_evaluation_writes_the_current_scope_only(call[0], form.scopes, depth);
                    let head = evaluation(call[0], form.scopes, depth);
                    match head.result {
                        Ok(Sexp::Lambda { params, body, is_macro }) => {
                            if is_macro {
                                lemma_invocation(params, *body, false, call, head.scopes, depth);
                            }
                        },
                        _ => {},
                    }
                }
            },
            _ => {},
        }
    }
}

} // verus!
