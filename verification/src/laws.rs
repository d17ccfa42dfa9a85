//! Laws of evaluation that hold for every expression and every chain of
//! scopes.

use vstd::prelude::*;
use crate::eval::Form;
use crate::eval::evaluation;
use crate::eval::form_of;
use crate::eval::function::invocation;
use crate::eval::misc::conditional;
use crate::eval::misc::definition;
use crate::eval::op::LogicOp;
use crate::eval::op::arithmetic;
use crate::eval::op::arithmetic_op;
use crate::eval::op::comparison;
use crate::eval::op::ArithmeticOp;
use crate::eval::op::comparison_op;
use crate::eval::op::head_name;
use crate::eval::op::logic;
use crate::eval::op::logic_op;
use crate::eval::quote::quotation;
use crate::misc::is_keyword;
use crate::model::Defect;
use crate::model::Failure;
use crate::model::Name;
use crate::model::Outcome;
use crate::model::ParamSpec;
use crate::model::Scopes;
use crate::model::Sexp;
use crate::model::bind;
use crate::model::done;
use crate::model::failed;
use crate::model::lookup;
use crate::number::Comparison;
use crate::number::Number;

verus! {

/// Whether a value is one of the atoms that evaluate to themselves.
pub open spec fn is_self_evaluating(value: Sexp) -> bool {
    value is Nil || value is T || value is Number || value is Str
}

/// A number, a string, `Nil` and `T` evaluate to themselves at any depth and
/// leave the scopes as they are: evaluating one again gives the same value.
pub proof fn law_atoms_evaluate_to_themselves(value: Sexp, scopes: Scopes, depth: nat)
    requires
        is_self_evaluating(value),
    ensures
        evaluation(value, scopes, depth) == done(value, scopes),
        evaluation(value, evaluation(value, scopes, depth).scopes, depth) == evaluation(
            value,
            scopes,
            depth,
        ),
{
}

/// A symbol that is no keyword and that no scope of the chain binds fails
/// as unbound, and the scopes stay as they are.
pub proof fn law_unbound_symbol_fails(name: Name, scopes: Scopes, depth: nat)
    requires
        !is_keyword(name),
        lookup(scopes, name) is None,
    ensures
        evaluation(Sexp::Symbol(name), scopes, depth) == failed::<Sexp>(
            Failure::UnboundSymbol(name),
            scopes,
        ),
{
}

/// The root scope, as it is created, binds no name.
pub proof fn law_new_root_binds_nothing(name: Name)
    ensures
        lookup(seq![Map::<Name, Sexp>::empty()], name) is None,
{
    let root = seq![Map::<Name, Sexp>::empty()];
    assert(lookup(root, name) == lookup(root.drop_last(), name));
}

/// A name that was bound in the current scope has the bound value, and
/// every other name has the value it had.
pub proof fn law_bind_then_lookup(scopes: Scopes, name: Name, value: Sexp, other: Name)
    requires
        scopes.len() > 0,
    ensures
        lookup(bind(scopes, name, value), name) == Some(value),
        other != name ==> lookup(bind(scopes, name, value), other) == lookup(scopes, other),
{
    let after = bind(scopes, name, value);
    assert(after.drop_last() =~= scopes.drop_last());
}

/// The symbol `if` heads a conditional.
pub proof fn lemma_if_is_a_conditional()
    ensures
        form_of("if"@) == Form::If,
{
    reveal_strlit("if");
    reveal_strlit("+");
    reveal_strlit("-");
    reveal_strlit("*");
    reveal_strlit("/");
    reveal_strlit("=");
    reveal_strlit("!=");
    reveal_strlit("<");
    reveal_strlit(">");
    reveal_strlit("<=");
    reveal_strlit(">=");
    reveal_strlit("and");
    reveal_strlit("or");
    reveal_strlit("not");
    reveal_strlit("car");
    reveal_strlit("cdr");
    reveal_strlit("len");
    assert("if"@[0] == 'i');
}

/// An `if` with two branches fails whenever its condition gives `Nil`: the
/// missing branch has no default value. The failure comes with the scopes
/// as the condition left them.
pub proof fn law_if_without_else_fails(items: Seq<Sexp>, scopes: Scopes, depth: nat)
    requires
        items.len() == 3,
        items[0] == Sexp::Symbol("if"@),
        evaluation(items[1], scopes, depth).result == Ok::<Sexp, Failure>(Sexp::Nil),
    ensures
        conditional(items, scopes, depth) == failed::<Sexp>(
            Failure::Malformed(Defect::MissingElse),
            evaluation(items[1], scopes, depth).scopes,
        ),
        evaluation(Sexp::List(items), scopes, depth + 1) == conditional(items, scopes, depth),
{
    lemma_if_is_a_conditional();
}

/// A keyword evaluates to itself, whatever the scopes bind.
pub proof fn law_keywords_evaluate_to_themselves(name: Name, scopes: Scopes, depth: nat)
    requires
        is_keyword(name),
    ensures
        evaluation(Sexp::Symbol(name), scopes, depth) == done(Sexp::Symbol(name), scopes),
{
}

/// The symbol `quote` heads a quotation.
pub proof fn lemma_quote_is_a_quotation()
    ensures
        form_of("quote"@) == Form::Quote,
{
    reveal_strlit("quote");
    reveal_strlit("+");
    reveal_strlit("-");
    reveal_strlit("*");
    reveal_strlit("/");
    reveal_strlit("=");
    reveal_strlit("!=");
    reveal_strlit("<");
    reveal_strlit(">");
    reveal_strlit("<=");
    reveal_strlit(">=");
    reveal_strlit("and");
    reveal_strlit("or");
    reveal_strlit("not");
    reveal_strlit("car");
    reveal_strlit("cdr");
    reveal_strlit("len");
    reveal_strlit("if");
    reveal_strlit("def");
    reveal_strlit("lambda");
    reveal_strlit("macro");
    reveal_strlit("macroexpand");
    reveal_strlit("let");
    assert("quote"@[0] == 'q');
}

/// `(quote x)` is `x` as it is written, for every `x`, and leaves the
/// scopes as they are.
pub proof fn law_quote_gives_its_argument(x: Sexp, scopes: Scopes, depth: nat)
    ensures
        evaluation(Sexp::List(seq![Sexp::Symbol("quote"@), x]), scopes, depth + 1) == done(
            x,
            scopes,
        ),
{
    let items = seq![Sexp::Symbol("quote"@), x];
    lemma_quote_is_a_quotation();
}

/// A definition that succeeds gives the value of its expression and binds
/// the name to it in the current scope: looking the name up afterwards
/// gives that value.
pub proof fn law_def_binds_its_value(items: Seq<Sexp>, scopes: Scopes, depth: nat)
    requires
        items.len() == 3,
        items[1] is Symbol,
        evaluation(items[2], scopes, depth).result is Ok,
        evaluation(items[2], scopes, depth).scopes.len() > 0,
    ensures
        ({
            let value = evaluation(items[2], scopes, depth);
            let defined = definition(items, scopes, depth);
            &&& defined.result == value.result
            &&& defined.scopes == bind(value.scopes, items[1]->Symbol_0, value.result->Ok_0)
            &&& lookup(defined.scopes, items[1]->Symbol_0) == Some(value.result->Ok_0)
        }),
{
    let value = evaluation(items[2], scopes, depth);
    law_bind_then_lookup(
        value.scopes,
        items[1]->Symbol_0,
        value.result->Ok_0,
        items[1]->Symbol_0,
    );
}

/// What a call gives once the function's own value is known: the value, or
/// for a macro what the value evaluates to.
pub open spec fn expanded_then_evaluated(called: Outcome, is_macro: bool, depth: nat) -> Outcome {
    match called.result {
        Ok(expansion) => if is_macro {
            evaluation(expansion, called.scopes, depth)
        } else {
            called
        },
        Err(_) => called,
    }
}

/// A macro call is its expansion, evaluated: what calling a macro gives is
/// what calling the same parameters and body as a function gives, evaluated
/// once more in the scopes of the call.
pub proof fn law_macro_call_evaluates_its_expansion(
    params: ParamSpec,
    body: Sexp,
    items: Seq<Sexp>,
    scopes: Scopes,
    depth: nat,
)
    ensures
        invocation(params, body, true, items, scopes, depth) == expanded_then_evaluated(
            invocation(params, body, false, items, scopes, depth),
            true,
            depth,
        ),
{
}

/// A comparison ends at the first pair of neighbours that does not
/// compare: it is `Nil` whatever follows the pair, and what follows is not
/// evaluated.
pub proof fn law_comparison_stops_at_the_first_failing_pair(
    items: Seq<Sexp>,
    op: Comparison,
    scopes: Scopes,
    depth: nat,
)
    requires
        items.len() >= 3,
        head_name(items) is Some,
        comparison_op(head_name(items)->0) == Some(op),
        evaluation(items[1], scopes, depth).result is Ok,
        evaluation(items[1], scopes, depth).result->Ok_0 is Number,
        evaluation(items[2], evaluation(items[1], scopes, depth).scopes, depth).result is Ok,
        evaluation(
            items[2],
            evaluation(items[1], scopes, depth).scopes,
            depth,
        ).result->Ok_0 is Number,
        !evaluation(items[1], scopes, depth).result->Ok_0->Number_0.compares(
            op,
            evaluation(
                items[2],
                evaluation(items[1], scopes, depth).scopes,
                depth,
            ).result->Ok_0->Number_0,
        ),
    ensures
        comparison(items, scopes, depth) == done(
            Sexp::Nil,
            evaluation(items[2], evaluation(items[1], scopes, depth).scopes, depth).scopes,
        ),
{
}

/// `and` ends at the first operand that gives `Nil`: it is `Nil` whatever
/// follows.
pub proof fn law_and_stops_at_nil(items: Seq<Sexp>, scopes: Scopes, depth: nat)
    requires
        items.len() >= 2,
        head_name(items) is Some,
        logic_op(head_name(items)->0) == Some(LogicOp::And),
        evaluation(items[1], scopes, depth).result == Ok::<Sexp, Failure>(Sexp::Nil),
    ensures
        logic(items, scopes, depth) == done(
            Sexp::Nil,
            evaluation(items[1], scopes, depth).scopes,
        ),
{
}

/// `or` ends at the first operand that gives a value other than `Nil`: it
/// is that value whatever follows.
pub proof fn law_or_stops_at_the_first_value(items: Seq<Sexp>, scopes: Scopes, depth: nat)
    requires
        items.len() >= 2,
        head_name(items) is Some,
        logic_op(head_name(items)->0) == Some(LogicOp::Or),
        evaluation(items[1], scopes, depth).result is Ok,
        !(evaluation(items[1], scopes, depth).result->Ok_0 is Nil),
    ensures
        logic(items, scopes, depth) == evaluation(items[1], scopes, depth),
{
}

/// A sum of no operands is zero and a product of none is one, in every
/// chain of scopes.
pub proof fn law_empty_sum_and_product(scopes: Scopes, depth: nat)
    ensures
        evaluation(Sexp::List(seq![Sexp::Symbol("+"@)]), scopes, depth + 1) == done(
            Sexp::Number(Number::zero()),
            scopes,
        ),
        evaluation(Sexp::List(seq![Sexp::Symbol("*"@)]), scopes, depth + 1) == done(
            Sexp::Number(Number::one()),
            scopes,
        ),
{
    reveal_strlit("+");
    reveal_strlit("-");
    reveal_strlit("*");
    let sum = seq![Sexp::Symbol("+"@)];
    let product = seq![Sexp::Symbol("*"@)];
    assert(arithmetic_op("+"@) == Some(ArithmeticOp::Add));
    assert("*"@[0] == '*');
    assert(arithmetic_op("*"@) == Some(ArithmeticOp::Multiply));
    assert(form_of("+"@) == Form::Arithmetic);
    assert(form_of("*"@) == Form::Arithmetic);
    assert(head_name(sum) == Some("+"@));
    assert(head_name(product) == Some("*"@));
    assert(arithmetic(sum, scopes, depth) == done(Sexp::Number(Number::zero()), scopes));
    assert(arithmetic(product, scopes, depth) == done(Sexp::Number(Number::one()), scopes));
}
} // verus!
