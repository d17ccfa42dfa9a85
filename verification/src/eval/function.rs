//! Functions and macros: definition, parameter binding, application and
//! one-step expansion.

use vstd::prelude::*;
use crate::env::Env;
use crate::error::EvalError;
use crate::eval::evaluation;
use crate::eval::outcome;
use crate::misc::is_keyword;
use crate::misc::text_eq;
use crate::model::done;
use crate::model::failed;
use crate::model::lookup;
use crate::model::Defect;
use crate::model::Evaluated;
use crate::model::Failure;
use crate::model::Frame;
use crate::model::Name;
use crate::model::Outcome;
use crate::model::ParamSpec;
use crate::model::Scopes;
use crate::model::Sexp;
use crate::parse::LambdaParams;
use crate::parse::Value;
use crate::eval::eval_value;
use crate::eval::result_view;
use crate::misc::holds_name;
use crate::misc::starts_with_colon;
use crate::misc::without_first;
use crate::parse::lemma_views;
use crate::parse::lemma_views_push;
use crate::parse::views;

verus! {

/// The four classes of parameters.
#[derive(Clone, Copy, Debug, PartialEq, Eq)]
pub enum ParamClass {
    Required,
    Optional,
    Keyword,
    Rest,
}

/// The class that a marker symbol opens, if the name is a marker.
pub open spec fn marker_class(name: Name) -> Option<ParamClass> {
    if name == "&optional"@ {
        Some(ParamClass::Optional)
    } else if name == "&key"@ {
        Some(ParamClass::Keyword)
    } else if name == "&rest"@ {
        Some(ParamClass::Rest)
    } else {
        None
    }
}

/// The class that a name at position `i` falls into: that of the nearest
/// marker before it, and required if there is none.
pub open spec fn class_at(names: Seq<Name>, i: int) -> ParamClass
    decreases i,
{
    if i <= 0 || i > names.len() {
        ParamClass::Required
    } else {
        match marker_class(names[i - 1]) {
            Some(class) => class,
            None => class_at(names, i - 1),
        }
    }
}

/// The names of one class among the first `n` names, in their order.
/// Markers are in no class.
pub open spec fn names_of(names: Seq<Name>, class: ParamClass, n: int) -> Seq<Name>
    decreases n,
{
    if n <= 0 || n > names.len() {
        Seq::empty()
    } else {
        let before = names_of(names, class, n - 1);
        if marker_class(names[n - 1]) is None && class_at(names, n - 1) == class {
            before.push(names[n - 1])
        } else {
            before
        }
    }
}

/// How often `&rest` stands among the first `n` names.
pub open spec fn rest_markers(names: Seq<Name>, n: int) -> nat
    decreases n,
{
    if n <= 0 || n > names.len() {
        0
    } else if marker_class(names[n - 1]) == Some(ParamClass::Rest) {
        rest_markers(names, n - 1) + 1
    } else {
        rest_markers(names, n - 1)
    }
}

/// Whether every element is a symbol.
pub open spec fn all_symbols(items: Seq<Sexp>) -> bool {
    forall|i: int| 0 <= i < items.len() ==> (#[trigger] items[i]) is Symbol
}

/// The names of a list of symbols.
pub open spec fn symbol_names(items: Seq<Sexp>) -> Seq<Name> {
    Seq::new(items.len(), |i: int| items[i]->Symbol_0)
}

/// The descriptor of a parameter list. An element that is no symbol makes
/// the list invalid; so does, after that, a second `&rest` marker or a
/// second name in the rest class.
pub open spec fn parameters(items: Seq<Sexp>) -> Result<ParamSpec, Failure> {
    let names = symbol_names(items);
    let n = names.len() as int;
    let rest = names_of(names, ParamClass::Rest, n);
    if !all_symbols(items) {
        Err(Failure::InvalidParameter)
    } else if rest_markers(names, n) > 1 || rest.len() > 1 {
        Err(Failure::DuplicateRest)
    } else {
        Ok(
            ParamSpec {
                required: names_of(names, ParamClass::Required, n),
                optional: names_of(names, ParamClass::Optional, n),
                keyword: names_of(names, ParamClass::Keyword, n),
                rest: if rest.len() == 1 {
                    Some(rest[0])
                } else {
                    None
                },
            },
        )
    }
}

/// Whether no name of a list is a marker.
pub open spec fn holds_no_marker(names: Seq<Name>) -> bool {
    forall|i: int| 0 <= i < names.len() ==> marker_class(#[trigger] names[i]) is None
}

/// Whether a descriptor holds parameter names only: no marker stands in
/// any of its classes.
pub open spec fn well_formed(params: ParamSpec) -> bool {
    &&& holds_no_marker(params.required)
    &&& holds_no_marker(params.optional)
    &&& holds_no_marker(params.keyword)
    &&& params.rest is Some ==> marker_class(params.rest->0) is None
}

/// The names of a class hold no marker.
pub proof fn lemma_names_hold_no_marker(names: Seq<Name>, class: ParamClass, n: int)
    ensures
        holds_no_marker(names_of(names, class, n)),
    decreases n,
{
    if !(n <= 0 || n > names.len()) {
        lemma_names_hold_no_marker(names, class, n - 1);
        let before = names_of(names, class, n - 1);
        if marker_class(names[n - 1]) is None && class_at(names, n - 1) == class {
            let after = before.push(names[n - 1]);
            assert forall|i: int| 0 <= i < after.len() implies marker_class(
                #[trigger] after[i],
            ) is None by {
                if i < before.len() {
                    assert(after[i] == before[i]);
                }
            }
        }
    }
}

/// The descriptor of every valid parameter list is well formed: a marker
/// is in none of its classes.
pub proof fn law_parameters_are_well_formed(items: Seq<Sexp>)
    ensures
        parameters(items) is Ok ==> well_formed(parameters(items)->Ok_0),
{
    let names = symbol_names(items);
    let n = names.len() as int;
    lemma_names_hold_no_marker(names, ParamClass::Required, n);
    lemma_names_hold_no_marker(names, ParamClass::Optional, n);
    lemma_names_hold_no_marker(names, ParamClass::Keyword, n);
    lemma_names_hold_no_marker(names, ParamClass::Rest, n);
}

/// What `(lambda (params...) body)` or `(macro (params...) body)` gives:
/// a function or a macro that holds the body as it is written.
pub open spec fn callable_definition(items: Seq<Sexp>, is_macro: bool, scopes: Scopes) -> Outcome {
    if items.len() != 3 {
        failed(Failure::Arity, scopes)
    } else {
        match items[1] {
            Sexp::List(list) => match parameters(list) {
                Ok(params) => done(
                    Sexp::Lambda { params, body: Box::new(items[2]), is_macro },
                    scopes,
                ),
                Err(failure) => failed(failure, scopes),
            },
            _ => failed(Failure::Malformed(Defect::ParameterList), scopes),
        }
    }
}

/// What `(lambda (params...) body)` evaluates to.
pub open spec fn lambda_definition(items: Seq<Sexp>, scopes: Scopes) -> Outcome {
    callable_definition(items, false, scopes)
}

/// What `(macro (params...) body)` evaluates to.
pub open spec fn macro_definition(items: Seq<Sexp>, scopes: Scopes) -> Outcome {
    callable_definition(items, true, scopes)
}

/// `frame` with each of the first `n` names bound to `Nil`.
pub open spec fn with_defaults(frame: Frame, names: Seq<Name>, n: int) -> Frame
    decreases n,
{
    if n <= 0 || n > names.len() {
        frame
    } else {
        with_defaults(frame, names, n - 1).insert(names[n - 1], Sexp::Nil)
    }
}

/// The scope of a call before any argument is bound: every required,
/// optional and keyword parameter is `Nil`, and the rest parameter is the
/// empty list.
pub open spec fn initial_frame(params: ParamSpec) -> Frame {
    let required = with_defaults(Map::empty(), params.required, params.required.len() as int);
    let optional = with_defaults(required, params.optional, params.optional.len() as int);
    let keyword = with_defaults(optional, params.keyword, params.keyword.len() as int);
    match params.rest {
        Some(rest) => keyword.insert(rest, Sexp::List(Seq::empty())),
        None => keyword,
    }
}

/// The values of the expressions from `items[i]` on, evaluated in order,
/// after `got`.
pub open spec fn values_from(
    items: Seq<Sexp>,
    i: int,
    got: Seq<Sexp>,
    scopes: Scopes,
    depth: nat,
) -> Evaluated<Seq<Sexp>>
    decreases depth, 1nat, items.len() - i,
{
    if i < 0 || i >= items.len() {
        done(got, scopes)
    } else {
        let next = evaluation(items[i], scopes, depth);
        match next.result {
            Err(e) => failed(e, next.scopes),
            Ok(value) => values_from(items, i + 1, got.push(value), next.scopes, depth),
        }
    }
}

/// `frame` with the first `n` names bound to the first `n` values.
pub open spec fn with_positional(frame: Frame, names: Seq<Name>, values: Seq<Sexp>, n: int) -> Frame
    decreases n,
{
    if n <= 0 || n > names.len() || n > values.len() {
        frame
    } else {
        with_positional(frame, names, values, n - 1).insert(names[n - 1], values[n - 1])
    }
}

/// Whether a value is the tag of a keyword parameter: a keyword symbol
/// whose name, without the colon, is one of the keyword parameters.
pub open spec fn is_tag(value: Sexp, keywords: Seq<Name>) -> bool {
    value is Symbol && is_keyword(value->Symbol_0) && keywords.contains(value->Symbol_0.skip(1))
}

/// What the scan of the arguments beyond the positional ones leaves: the
/// scope with the keyword parameters bound, and the values for the rest
/// parameter.
pub struct Scan {
    pub frame: Frame,
    pub rest: Seq<Sexp>,
}

/// The scan from the argument with value `values[i]` on. `values[k]` is the
/// value of the argument `items[k + 1]`. A tag with an argument after it
/// binds its parameter to that argument, evaluated anew, and both leave the
/// scan; any other value goes to the rest.
pub open spec fn scan_from(
    keywords: Seq<Name>,
    items: Seq<Sexp>,
    values: Seq<Sexp>,
    i: int,
    frame: Frame,
    rest: Seq<Sexp>,
    scopes: Scopes,
    depth: nat,
) -> Evaluated<Scan>
    decreases depth, 1nat, values.len() - i,
{
    if i < 0 || i >= values.len() {
        done(Scan { frame, rest }, scopes)
    } else if is_tag(values[i], keywords) && i + 1 < values.len() {
        let fresh = evaluation(items[i + 2], scopes, depth);
        match fresh.result {
            Err(e) => failed(e, fresh.scopes),
            Ok(value) => scan_from(
                keywords,
                items,
                values,
                i + 2,
                frame.insert(values[i]->Symbol_0.skip(1), value),
                rest,
                fresh.scopes,
                depth,
            ),
        }
    } else {
        scan_from(keywords, items, values, i + 1, frame, rest.push(values[i]), scopes, depth)
    }
}

/// The number of arguments that go to parameters by position.
pub open spec fn positional_count(params: ParamSpec, values: Seq<Sexp>) -> int {
    let names = params.required + params.optional;
    if values.len() < names.len() {
        values.len() as int
    } else {
        names.len() as int
    }
}

/// The scope that a call `items` builds for the parameters.
///
/// All arguments are evaluated in order, in the scopes of the call. The
/// first values go to the required parameters and the next to the optional
/// ones, by position; parameters that get none stay `Nil`. The values beyond
/// those are scanned for keyword arguments, and if there are any values
/// beyond and a rest parameter is declared, it is bound to the list of
/// those that no keyword argument took.
pub open spec fn binding(params: ParamSpec, items: Seq<Sexp>, scopes: Scopes, depth: nat) -> Evaluated<
    Frame,
>
    decreases depth, 4nat, 0nat,
{
    let args = values_from(items, 1, Seq::empty(), scopes, depth);
    match args.result {
        Err(e) => failed(e, args.scopes),
        Ok(values) => {
            let names = params.required + params.optional;
            let placed = with_positional(
                initial_frame(params),
                names,
                values,
                positional_count(params, values),
            );
            let scan = scan_from(
                params.keyword,
                items,
                values,
                names.len() as int,
                placed,
                Seq::empty(),
                args.scopes,
                depth,
            );
            match scan.result {
                Err(e) => failed(e, scan.scopes),
                Ok(s) => done(
                    if params.rest is Some && values.len() > names.len() {
                        s.frame.insert(params.rest->0, Sexp::List(s.rest))
                    } else {
                        s.frame
                    },
                    scan.scopes,
                ),
            }
        },
    }
}

/// What calling a function or macro on the arguments of `items` gives.
///
/// The body is evaluated once in a new scope, inside the scopes of the
/// call, that holds the parameters. The value of a function is that of its
/// body. The value of a macro is what the value of its body evaluates to
/// in the scopes of the call. The new scope is gone afterwards.
pub open spec fn invocation(
    params: ParamSpec,
    body: Sexp,
    is_macro: bool,
    items: Seq<Sexp>,
    scopes: Scopes,
    depth: nat,
) -> Outcome
    decreases depth, 4nat, 1nat,
{
    let bound = binding(params, items, scopes, depth);
    match bound.result {
        Err(e) => failed(e, bound.scopes),
        Ok(frame) => {
            let inner = evaluation(body, bound.scopes.push(frame), depth);
            match inner.result {
                Err(e) => failed(e, bound.scopes),
                Ok(value) => if is_macro {
                    evaluation(value, bound.scopes, depth)
                } else {
                    done(value, bound.scopes)
                },
            }
        },
    }
}

/// The function that the value of a list's head stands for: the value
/// itself if it is one, and what the scopes bind it to if it is a symbol.
pub open spec fn callee(head: Sexp, scopes: Scopes) -> Result<Sexp, Failure> {
    match head {
        Sexp::Lambda { .. } => Ok(head),
        Sexp::Symbol(name) => match lookup(scopes, name) {
            None => Err(Failure::UnboundSymbol(name)),
            Some(value) => if value is Lambda {
                Ok(value)
            } else {
                Err(Failure::NotCallable)
            },
        },
        _ => Err(Failure::NotCallable),
    }
}

/// What a list that is no special form evaluates to: its head is
/// evaluated, and must stand for a function or a macro, which is called.
pub open spec fn application(items: Seq<Sexp>, scopes: Scopes, depth: nat) -> Outcome
    decreases depth, 5nat, 0nat,
{
    if items.len() == 0 {
        failed(Failure::NotCallable, scopes)
    } else {
        let head = evaluation(items[0], scopes, depth);
        match head.result {
            Err(_) => head,
            Ok(value) => match callee(value, head.scopes) {
                Err(failure) => failed(failure, head.scopes),
                Ok(function) => invocation(
                    function->params,
                    *function->body,
                    function->is_macro,
                    items,
                    head.scopes,
                    depth,
                ),
            },
        }
    }
}

/// What `(macroexpand x)` evaluates to. If the value of `x` is a list whose
/// head evaluates to a macro, the macro is called on the list's arguments
/// as a function is: the expansion is returned and not evaluated. Any other
/// value of `x` is returned as it is.
pub open spec fn macro_expansion(items: Seq<Sexp>, scopes: Scopes, depth: nat) -> Outcome
    decreases depth, 5nat, 0nat,
{
    if items.len() != 2 {
        failed(Failure::Arity, scopes)
    } else {
        let form = evaluation(items[1], scopes, depth);
        match form.result {
            Err(_) => form,
            Ok(Sexp::List(call)) => if call.len() == 0 {
                form
            } else {
                let head = evaluation(call[0], form.scopes, depth);
                match head.result {
                    Err(_) => head,
                    Ok(Sexp::Lambda { params, body, is_macro }) => if is_macro {
                        invocation(params, *body, false, call, head.scopes, depth)
                    } else {
                        Evaluated { result: form.result, scopes: head.scopes }
                    },
                    Ok(_) => Evaluated { result: form.result, scopes: head.scopes },
                }
            },
            Ok(_) => form,
        }
    }
}

/// The class that a marker symbol opens, if the name is a marker.
pub fn marker_named(name: &str) -> (r: Option<ParamClass>)
    ensures
        r == marker_class(name@),
{
    if text_eq(name, "&optional") {
        Some(ParamClass::Optional)
    } else if text_eq(name, "&key") {
        Some(ParamClass::Keyword)
    } else if text_eq(name, "&rest") {
        Some(ParamClass::Rest)
    } else {
        None
    }
}

/// Adds a copy of a name to a list of names.
fn push_name(names: &mut Vec<String>, name: &String)
    ensures
        final(names).deep_view() == old(names).deep_view().push(name@),
{
    names.push(name.clone());
}

/// What the result of reading a parameter list stands for.
pub open spec fn params_view(result: Result<LambdaParams, EvalError>) -> Result<ParamSpec, Failure> {
    match result {
        Ok(params) => Ok(params@),
        Err(error) => Err(error@),
    }
}

/// Reads a parameter list into its descriptor.
pub fn parse_param_spec(list: &[Value]) -> (r: Result<LambdaParams, EvalError>)
    ensures
        params_view(r) == parameters(views(list@)),
        r is Ok ==> well_formed(r->Ok_0@),
{
    proof {
        law_parameters_are_well_formed(views(list@));
        lemma_views(list@);
    }
    let ghost items = views(list@);
    let mut names: Vec<String> = Vec::new();
    let mut i: usize = 0;
    while i < list.len()
        invariant
            i <= list.len(),
            names.len() == i,
            items == views(list@),
            forall|j: int| 0 <= j < i ==> (#[trigger] items[j]) is Symbol,
            forall|j: int| 0 <= j < i ==> (#[trigger] names@[j])@ == items[j]->Symbol_0,
        decreases list.len() - i,
    {
        proof {
            lemma_views(list@);
        }
        match &list[i] {
            Value::Symbol(name) => {
                names.push(name.clone());
            },
            _ => {
                assert(!(items[i as int] is Symbol));
                return Err(EvalError::InvalidParameter);
            },
        }
        i += 1;
    }
    let ghost all = symbol_names(items);
    let mut class = ParamClass::Required;
    let mut required: Vec<String> = Vec::new();
    let mut optional: Vec<String> = Vec::new();
    let mut keyword: Vec<String> = Vec::new();
    let mut rest: Vec<String> = Vec::new();
    let mut markers: usize = 0;
    let mut k: usize = 0;
    while k < names.len()
        invariant
            k <= names.len(),
            names.deep_view() == all,
            all.len() == names.len(),
            class == class_at(all, k as int),
            required.deep_view() == names_of(all, ParamClass::Required, k as int),
            optional.deep_view() == names_of(all, ParamClass::Optional, k as int),
            keyword.deep_view() == names_of(all, ParamClass::Keyword, k as int),
            rest.deep_view() == names_of(all, ParamClass::Rest, k as int),
            markers == rest_markers(all, k as int),
            markers <= k,
        decreases names.len() - k,
    {
        let name = &names[k];
        match marker_named(name.as_str()) {
            Some(opened) => {
                match opened {
                    ParamClass::Rest => {
                        markers += 1;
                    },
                    _ => {},
                }
                class = opened;
            },
            None => match class {
                ParamClass::Required => push_name(&mut required, name),
                ParamClass::Optional => push_name(&mut optional, name),
                ParamClass::Keyword => push_name(&mut keyword, name),
                ParamClass::Rest => push_name(&mut rest, name),
            },
        }
        k += 1;
    }
    if markers > 1 || rest.len() > 1 {
        return Err(EvalError::DuplicateRest);
    }
    let rest_name = if rest.len() == 1 {
        Some(rest[0].clone())
    } else {
        None
    };
    Ok(LambdaParams { required, optional, keyword, rest: rest_name })
}

/// Evaluates `(lambda (params...) body)`.
pub fn eval_fun_definition(list: &[Value], env: &Env<'_>) -> (r: Result<Value, EvalError>)
    ensures
        outcome(r, env@) == lambda_definition(views(list@), env@),
{
    proof {
        lemma_views(list@);
    }
    if list.len() != 3 {
        return Err(EvalError::Arity);
    }
    let params = match &list[1] {
        Value::List(names) => match parse_param_spec(names.as_slice()) {
            Ok(params) => params,
            Err(error) => {
                return Err(error);
            },
        },
        _ => {
            return Err(EvalError::MalformedSpecialForm(Defect::ParameterList));
        },
    };
    Ok(Value::Lambda { params, body: Box::new(list[2].clone()), is_macro: false })
}

/// Evaluates `(macro (params...) body)`.
pub fn eval_macro_definition(list: &[Value], env: &Env<'_>) -> (r: Result<Value, EvalError>)
    ensures
        outcome(r, env@) == macro_definition(views(list@), env@),
{
    match eval_fun_definition(list, env) {
        Ok(Value::Lambda { params, body, is_macro: _ }) => Ok(
            Value::Lambda { params, body, is_macro: true },
        ),
        other => other,
    }
}

/// Binds each name of a list to `Nil` in a scope.
fn set_defaults(scope: &mut Env<'_>, names: &Vec<String>)
    requires
        old(scope)@.len() == 1,
    ensures
        final(scope)@.len() == 1,
        final(scope)@.last() == with_defaults(
            old(scope)@.last(),
            names.deep_view(),
            names.len() as int,
        ),
{
    let mut i: usize = 0;
    while i < names.len()
        invariant
            i <= names.len(),
            scope@.len() == 1,
            scope@.last() == with_defaults(old(scope)@.last(), names.deep_view(), i as int),
        decreases names.len() - i,
    {
        scope.set(names[i].as_str(), Value::Nil);
        i += 1;
    }
}

/// The scope of a call before any argument is bound.
fn initial_scope(params: &LambdaParams) -> (scope: Env<'static>)
    ensures
        scope@.len() == 1,
        scope@.last() == initial_frame(params@),
{
    let mut scope = Env::new();
    set_defaults(&mut scope, &params.required);
    set_defaults(&mut scope, &params.optional);
    set_defaults(&mut scope, &params.keyword);
    match &params.rest {
        Some(rest) => {
            scope.set(rest.as_str(), Value::List(Vec::new()));
            assert(views(Seq::<Value>::empty()) =~= Seq::<Sexp>::empty());
        },
        None => {},
    }
    scope
}

/// Evaluates the arguments of the call `list` in order.
fn eval_arguments(list: &[Value], env: &mut Env<'_>, depth: usize) -> (r: Result<
    Vec<Value>,
    EvalError,
>)
    requires
        list@.len() > 0,
    ensures
        ({
            let args = values_from(views(list@), 1, Seq::empty(), old(env)@, depth as nat);
            &&& final(env)@ == args.scopes
            &&& match r {
                Ok(values) => args.result == Ok::<Seq<Sexp>, Failure>(views(values@))
                    && values.len() + 1 == list.len(),
                Err(error) => args.result == Err::<Seq<Sexp>, Failure>(error@),
            }
        }),
    decreases depth, 3nat, 0nat,
{
    let ghost items = views(list@);
    let ghost args = values_from(items, 1, Seq::empty(), old(env)@, depth as nat);
    let mut values: Vec<Value> = Vec::new();
    proof {
        lemma_views(list@);
    }
    let mut i: usize = 1;
    while i < list.len()
        invariant
            1 <= i <= list.len(),
            values.len() == i - 1,
            items == views(list@),
            items.len() == list.len(),
            args == values_from(items, 1, Seq::empty(), old(env)@, depth as nat),
            values_from(items, i as int, views(values@), env@, depth as nat) == args,
        decreases list.len() - i,
    {
        proof {
            lemma_views(list@);
        }
        match eval_value(&list[i], env, depth) {
            Err(error) => {
                return Err(error);
            },
            Ok(value) => {
                proof {
                    lemma_views_push(values@, value);
                }
                values.push(value);
            },
        }
        i += 1;
    }
    Ok(values)
}

/// Binds the required and the optional parameters to the first values, and
/// returns how many values that took.
fn place_positional(scope: &mut Env<'_>, params: &LambdaParams, values: &Vec<Value>) -> (k: usize)
    requires
        old(scope)@.len() == 1,
    ensures
        final(scope)@.len() == 1,
        k == positional_count(params@, views(values@)),
        final(scope)@.last() == with_positional(
            old(scope)@.last(),
            params@.required + params@.optional,
            views(values@),
            k as int,
        ),
{
    let ghost names = params@.required + params@.optional;
    let ghost got = views(values@);
    proof {
        lemma_views(values@);
    }
    let mut k: usize = 0;
    while k < values.len() && (k < params.required.len() || k - params.required.len()
        < params.optional.len())
        invariant
            k <= values.len(),
            k <= names.len(),
            names == params@.required + params@.optional,
            names.len() == params.required.len() + params.optional.len(),
            got == views(values@),
            got.len() == values.len(),
            scope@.len() == 1,
            scope@.last() == with_positional(old(scope)@.last(), names, got, k as int),
        decreases values.len() - k,
    {
        proof {
            lemma_views(values@);
        }
        let name = if k < params.required.len() {
            &params.required[k]
        } else {
            &params.optional[k - params.required.len()]
        };
        scope.set(name.as_str(), values[k].clone());
        k += 1;
    }
    k
}

/// Scans the values from `values[start]` on for keyword arguments, binds
/// them in `scope`, and returns the values that none of them took.
fn scan_keywords(
    params: &LambdaParams,
    list: &[Value],
    values: &Vec<Value>,
    start: usize,
    scope: &mut Env<'_>,
    env: &mut Env<'_>,
    depth: usize,
) -> (r: Result<Vec<Value>, EvalError>)
    requires
        old(scope)@.len() == 1,
        list.len() == values.len() + 1,
        start <= values.len(),
    ensures
        ({
            let scan = scan_from(
                params@.keyword,
                views(list@),
                views(values@),
                start as int,
                old(scope)@.last(),
                Seq::empty(),
                old(env)@,
                depth as nat,
            );
            &&& final(env)@ == scan.scopes
            &&& final(scope)@.len() == 1
            &&& match r {
                Ok(rest) => scan.result == Ok::<Scan, Failure>(
                    Scan { frame: final(scope)@.last(), rest: views(rest@) },
                ),
                Err(error) => scan.result == Err::<Scan, Failure>(error@),
            }
        }),
    decreases depth, 3nat, 0nat,
{
    let ghost items = views(list@);
    let ghost got = views(values@);
    let ghost keywords = params@.keyword;
    let ghost whole = scan_from(
        keywords,
        items,
        got,
        start as int,
        old(scope)@.last(),
        Seq::empty(),
        old(env)@,
        depth as nat,
    );
    let mut rest: Vec<Value> = Vec::new();
    let mut j: usize = start;
    proof {
        lemma_views(list@);
        lemma_views(values@);
    }
    while j < values.len()
        invariant
            j <= values.len(),
            list.len() == values.len() + 1,
            keywords == params@.keyword,
            items == views(list@),
            items.len() == list.len(),
            got == views(values@),
            got.len() == values.len(),
            scope@.len() == 1,
            whole == scan_from(
                keywords,
                items,
                got,
                start as int,
                old(scope)@.last(),
                Seq::empty(),
                old(env)@,
                depth as nat,
            ),
            scan_from(
                keywords,
                items,
                got,
                j as int,
                scope@.last(),
                views(rest@),
                env@,
                depth as nat,
            ) == whole,
        decreases values.len() - j,
    {
        proof {
            lemma_views(list@);
            lemma_views(values@);
        }
        let name: Option<String> = match &values[j] {
            Value::Symbol(symbol) => {
                if starts_with_colon(symbol.as_str()) {
                    Some(without_first(symbol.as_str()))
                } else {
                    None
                }
            },
            _ => None,
        };
        let tag: Option<String> = match name {
            Some(name) => {
                if j + 1 < values.len() && holds_name(&params.keyword, name.as_str()) {
                    Some(name)
                } else {
                    None
                }
            },
            None => None,
        };
        match tag {
            Some(name) => {
                match eval_value(&list[j + 2], env, depth) {
                    Err(error) => {
                        return Err(error);
                    },
                    Ok(value) => {
                        scope.set(name.as_str(), value);
                    },
                }
                j += 2;
            },
            None => {
                let kept_value = values[j].clone();
                proof {
                    lemma_views_push(rest@, kept_value);
                }
                rest.push(kept_value);
                j += 1;
            },
        }
    }
    Ok(rest)
}

/// What the scope that a call built stands for.
pub open spec fn scope_view<'a>(result: Result<Env<'a>, EvalError>) -> Result<Frame, Failure> {
    match result {
        Ok(scope) => Ok(scope@.last()),
        Err(error) => Err(error@),
    }
}

/// Evaluates the arguments of the call `list` and builds the scope that
/// holds the parameters. The scope has no parent yet.
pub fn bind_call(params: &LambdaParams, list: &[Value], env: &mut Env<'_>, depth: usize) -> (r:
    Result<Env<'static>, EvalError>)
    requires
        list@.len() > 0,
    ensures
        (Evaluated { result: scope_view(r), scopes: final(env)@ }) == binding(
            params@,
            views(list@),
            old(env)@,
            depth as nat,
        ),
        r is Ok ==> r->Ok_0@.len() == 1,
    decreases depth, 4nat, 0nat,
{
    let values = match eval_arguments(list, env, depth) {
        Ok(values) => values,
        Err(error) => {
            return Err(error);
        },
    };
    let ghost after = env@;
    let ghost got = views(values@);
    let ghost names = params@.required + params@.optional;
    let mut scope = initial_scope(params);
    let k = place_positional(&mut scope, params, &values);
    let ghost placed = scope@.last();
    proof {
        lemma_views(values@);
    }
    if k < values.len() {
        match scan_keywords(params, list, &values, k, &mut scope, env, depth) {
            Err(error) => {
                return Err(error);
            },
            Ok(rest) => {
                match &params.rest {
                    Some(name) => {
                        scope.set(name.as_str(), Value::List(rest));
                    },
                    None => {},
                }
            },
        }
    }
    Ok(scope)
}

/// Calls a function or macro on the arguments of the call `list`.
pub fn invoke(
    params: &LambdaParams,
    body: &Value,
    is_macro: bool,
    list: &[Value],
    env: &mut Env<'_>,
    depth: usize,
) -> (r: Result<Value, EvalError>)
    requires
        list@.len() > 0,
    ensures
        outcome(r, final(env)@) == invocation(
            params@,
            body@,
            is_macro,
            views(list@),
            old(env)@,
            depth as nat,
        ),
    decreases depth, 4nat, 1nat,
{
    let scope = match bind_call(params, list, env, depth) {
        Ok(scope) => scope,
        Err(error) => {
            return Err(error);
        },
    };
    let inner = {
        let mut child = scope.nest(&*env);
        eval_value(body, &mut child, depth)
    };
    match inner {
        Err(error) => Err(error),
        Ok(value) => {
            if is_macro {
                eval_value(&value, env, depth)
            } else {
                Ok(value)
            }
        },
    }
}

/// The function that the value of a list's head stands for.
pub fn resolve_callee(head: Value, env: &Env<'_>) -> (r: Result<Value, EvalError>)
    ensures
        result_view(r) == callee(head@, env@),
        r is Ok ==> r->Ok_0 is Lambda,
{
    match head {
        Value::Lambda { params, body, is_macro } => Ok(Value::Lambda { params, body, is_macro }),
        Value::Symbol(name) => match env.get(name.as_str()) {
            None => Err(EvalError::UnboundSymbol(name)),
            Some(value) => match value {
                Value::Lambda { params, body, is_macro } => Ok(
                    Value::Lambda { params, body, is_macro },
                ),
                _ => Err(EvalError::NotCallable),
            },
        },
        _ => Err(EvalError::NotCallable),
    }
}

/// Evaluates a list that applies a function or a macro.
pub fn eval_fun_call(list: &[Value], env: &mut Env<'_>, depth: usize) -> (r: Result<
    Value,
    EvalError,
>)
    ensures
        outcome(r, final(env)@) == application(views(list@), old(env)@, depth as nat),
    decreases depth, 5nat, 0nat,
{
    proof {
        lemma_views(list@);
    }
    if list.len() == 0 {
        return Err(EvalError::NotCallable);
    }
    let head = match eval_value(&list[0], env, depth) {
        Ok(value) => value,
        Err(error) => {
            return Err(error);
        },
    };
    let function = match resolve_callee(head, &*env) {
        Ok(function) => function,
        Err(error) => {
            return Err(error);
        },
    };
    match &function {
        Value::Lambda { params, body, is_macro } => invoke(
            params,
            &**body,
            *is_macro,
            list,
            env,
            depth,
        ),
        _ => Err(EvalError::NotCallable),
    }
}

/// Evaluates `(macroexpand x)`.
pub fn eval_macro_expand(list: &[Value], env: &mut Env<'_>, depth: usize) -> (r: Result<
    Value,
    EvalError,
>)
    ensures
        outcome(r, final(env)@) == macro_expansion(views(list@), old(env)@, depth as nat),
    decreases depth, 5nat, 0nat,
{
    proof {
        lemma_views(list@);
    }
    if list.len() != 2 {
        return Err(EvalError::Arity);
    }
    let form = match eval_value(&list[1], env, depth) {
        Ok(value) => value,
        Err(error) => {
            return Err(error);
        },
    };
    let call = match &form {
        Value::List(call) => call,
        _ => {
            return Ok(form);
        },
    };
    proof {
        lemma_views(call@);
    }
    if call.len() == 0 {
        return Ok(form);
    }
    let head = match eval_value(&call[0], env, depth) {
        Ok(value) => value,
        Err(error) => {
            return Err(error);
        },
    };
    match &head {
        Value::Lambda { params, body, is_macro } => {
            if *is_macro {
                invoke(params, &**body, false, call.as_slice(), env, depth)
            } else {
                Ok(form)
            }
        },
        _ => Ok(form),
    }
}

} // verus!
