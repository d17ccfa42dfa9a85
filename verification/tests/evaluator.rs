use euphie::env::Env;
use euphie::error::EvalError;
use euphie::eval::eval_list;
use euphie::eval::eval_value;
use euphie::eval::function::bind_call;
use euphie::eval::function::eval_fun_call;
use euphie::eval::function::eval_fun_definition;
use euphie::eval::function::eval_macro_definition;
use euphie::eval::function::eval_macro_expand;
use euphie::eval::function::parse_param_spec;
use euphie::eval::misc::eval_def;
use euphie::eval::misc::eval_if;
use euphie::eval::misc::eval_let;
use euphie::eval::misc::eval_symbol;
use euphie::eval::op::eval_arithmetic_op;
use euphie::eval::op::eval_comparison_op;
use euphie::eval::op::eval_list_op;
use euphie::eval::op::eval_logic_op;
use euphie::eval::quote::eval_quasiquote;
use euphie::eval::quote::eval_quasiquote_value;
use euphie::eval::quote::eval_quote;
use euphie::model::Defect;
use euphie::model::Expected;
use euphie::number::Number;
use euphie::parse::parse;
use euphie::parse::LambdaParams;
use euphie::parse::Value;
use euphie::tokenize::tokenize;
use euphie::tokenize::TokenType;

const DEPTH: usize = 200;

fn num(x: f64) -> Value {
    Value::Number(Number::from_bits(x.to_bits()))
}

fn sym(name: &str) -> Value {
    Value::Symbol(name.to_string())
}

fn text(s: &str) -> Value {
    Value::String(s.to_string())
}

fn list(items: Vec<Value>) -> Value {
    Value::List(items)
}

/// Reads one expression, with the atoms that are number literals as numbers.
fn read(source: &str) -> Value {
    let mut tokens = tokenize(source.to_string());
    for token in tokens.iter_mut() {
        let number = match &token.t {
            TokenType::Symbol(name) => name.parse::<f64>().ok(),
            _ => None,
        };
        if let Some(x) = number {
            token.t = TokenType::Number(Number::from_bits(x.to_bits()));
        }
    }
    tokens.reverse();
    parse(&mut tokens).unwrap()
}

fn items(source: &str) -> Vec<Value> {
    match read(source) {
        Value::List(items) => items,
        other => panic!("not a list: {:?}", other),
    }
}

fn run(source: &str) -> Result<Value, EvalError> {
    let mut env = Env::new();
    eval_value(&read(source), &mut env, DEPTH)
}

fn run_in(env: &mut Env<'_>, source: &str) -> Result<Value, EvalError> {
    eval_value(&read(source), env, DEPTH)
}

// arithmetic

#[test]
fn sum_of_nothing_is_zero() {
    assert_eq!(run("(+)"), Ok(num(0.0)));
}

#[test]
fn product_of_nothing_is_one() {
    assert_eq!(run("(*)"), Ok(num(1.0)));
}

#[test]
fn minus_with_one_operand_negates() {
    assert_eq!(run("(- 5)"), Ok(num(-5.0)));
}

#[test]
fn division_folds_from_the_left() {
    assert_eq!(run("(/ 8 2 2)"), Ok(num(2.0)));
}

#[test]
fn arithmetic_folds_its_operands() {
    assert_eq!(run("(+ 1 2 3)"), Ok(num(6.0)));
    assert_eq!(run("(- 10 1 2)"), Ok(num(7.0)));
    assert_eq!(run("(* 2 3 4)"), Ok(num(24.0)));
    assert_eq!(run("(/ 8)"), Ok(num(8.0)));
    assert_eq!(run("(+ 0.1 0.2)"), Ok(num(0.1 + 0.2)));
    assert_eq!(run("(+ (* 2 3) (- 4 1))"), Ok(num(9.0)));
}

#[test]
fn division_by_zero_is_infinite_or_undefined() {
    assert_eq!(run("(/ 1 0)"), Ok(num(f64::INFINITY)));
    assert_eq!(run("(/ -1 0)"), Ok(num(f64::NEG_INFINITY)));
    match run("(/ 0 0)") {
        Ok(Value::Number(n)) => assert!(f64::from_bits(n.to_bits()).is_nan()),
        other => panic!("{:?}", other),
    }
}

#[test]
fn arithmetic_wants_numbers() {
    assert_eq!(run("(+ 1 \"a\")"), Err(EvalError::Type(Expected::Number)));
    assert_eq!(run("(- nil)"), Err(EvalError::Type(Expected::Number)));
    assert_eq!(run("(* 1 t)"), Err(EvalError::Type(Expected::Number)));
    assert_eq!(run("(/ 1 (quote (1)))"), Err(EvalError::Type(Expected::Number)));
}

#[test]
fn arithmetic_stops_at_the_first_failure() {
    // the operand that is no number comes before the unbound symbol
    assert_eq!(run("(+ 1 \"a\" nowhere)"), Err(EvalError::Type(Expected::Number)));
    assert_eq!(
        run("(+ 1 nowhere \"a\")"),
        Err(EvalError::UnboundSymbol("nowhere".to_string()))
    );
}

#[test]
fn minus_and_division_need_an_operand() {
    assert_eq!(run("(-)"), Err(EvalError::Arity));
    assert_eq!(run("(/)"), Err(EvalError::Arity));
}

#[test]
fn arithmetic_with_another_head_is_not_callable() {
    let mut env = Env::new();
    assert_eq!(
        eval_arithmetic_op(&items("(car 1 2)"), &mut env, DEPTH),
        Err(EvalError::NotCallable)
    );
    assert_eq!(eval_arithmetic_op(&items("(1 2)"), &mut env, DEPTH), Err(EvalError::NotCallable));
    assert_eq!(eval_arithmetic_op(&items("(+ 1 2)"), &mut env, DEPTH), Ok(num(3.0)));
}

// comparison

#[test]
fn less_than_is_strict() {
    assert_eq!(run("(< 1 2 2)"), Ok(Value::Nil));
}

#[test]
fn less_or_equal_takes_equal_neighbours() {
    assert_eq!(run("(<= 1 2 2)"), Ok(Value::T));
}

#[test]
fn comparisons_compare_neighbours() {
    assert_eq!(run("(< 1 2 3)"), Ok(Value::T));
    assert_eq!(run("(> 3 2 1)"), Ok(Value::T));
    assert_eq!(run("(> 3 2 2)"), Ok(Value::Nil));
    assert_eq!(run("(>= 3 2 2)"), Ok(Value::T));
    assert_eq!(run("(= 2 2 2)"), Ok(Value::T));
    assert_eq!(run("(= 2 2 3)"), Ok(Value::Nil));
    assert_eq!(run("(!= 1 2 1)"), Ok(Value::T));
    assert_eq!(run("(!= 1 1 2)"), Ok(Value::Nil));
    assert_eq!(run("(= 0 -0)"), Ok(Value::T));
}

#[test]
fn comparisons_need_two_operands() {
    assert_eq!(run("(<)"), Err(EvalError::Arity));
    assert_eq!(run("(< 1)"), Err(EvalError::Arity));
    assert_eq!(run("(= 1)"), Err(EvalError::Arity));
}

#[test]
fn comparisons_want_numbers() {
    assert_eq!(run("(< 1 \"a\")"), Err(EvalError::Type(Expected::Number)));
    assert_eq!(run("(= nil nil)"), Err(EvalError::Type(Expected::Number)));
}

#[test]
fn comparison_stops_at_the_first_failing_pair() {
    // the unbound symbol is never evaluated
    assert_eq!(run("(< 2 1 nowhere)"), Ok(Value::Nil));
    assert_eq!(
        run("(< 1 2 nowhere)"),
        Err(EvalError::UnboundSymbol("nowhere".to_string()))
    );
}

#[test]
fn comparison_with_another_head_is_not_callable() {
    let mut env = Env::new();
    assert_eq!(
        eval_comparison_op(&items("(+ 1 2)"), &mut env, DEPTH),
        Err(EvalError::NotCallable)
    );
    assert_eq!(eval_comparison_op(&items("(< 1 2)"), &mut env, DEPTH), Ok(Value::T));
}

// logic

#[test]
fn and_stops_at_nil() {
    assert_eq!(run("(and 1 nil 2)"), Ok(Value::Nil));
    assert_eq!(run("(and 1 nil nowhere)"), Ok(Value::Nil));
}

#[test]
fn or_gives_the_first_value_that_is_not_nil() {
    assert_eq!(run("(or nil nil 3)"), Ok(num(3.0)));
    assert_eq!(run("(or nil 3 nowhere)"), Ok(num(3.0)));
}

#[test]
fn and_gives_the_last_value() {
    assert_eq!(run("(and 1 2 3)"), Ok(num(3.0)));
    assert_eq!(run("(and 1 2 (+ 1 2))"), Ok(num(3.0)));
}

#[test]
fn or_of_nothing_is_nil() {
    assert_eq!(run("(or)"), Ok(Value::Nil));
    assert_eq!(run("(or nil nil)"), Ok(Value::Nil));
}

#[test]
fn and_needs_an_operand() {
    assert_eq!(run("(and)"), Err(EvalError::Arity));
}

#[test]
fn not_looks_at_its_operand_as_written() {
    assert_eq!(run("(not nil)"), Ok(Value::T));
    assert_eq!(run("(not t)"), Ok(Value::Nil));
    assert_eq!(run("(not 1)"), Ok(Value::Nil));
    // the operand is not evaluated: a symbol is no literal nil
    assert_eq!(run("(let ((x nil)) (not x))"), Ok(Value::Nil));
    assert_eq!(run("(not nowhere)"), Ok(Value::Nil));
    assert_eq!(run("(not)"), Err(EvalError::Arity));
    assert_eq!(run("(not nil nil)"), Err(EvalError::Arity));
}

#[test]
fn logic_with_another_head_is_not_callable() {
    let mut env = Env::new();
    assert_eq!(eval_logic_op(&items("(+ 1 2)"), &mut env, DEPTH), Err(EvalError::NotCallable));
    assert_eq!(eval_logic_op(&items("(or nil 2)"), &mut env, DEPTH), Ok(num(2.0)));
}

// lists

#[test]
fn car_is_the_first_element() {
    assert_eq!(run("(car (quote (1 2 3)))"), Ok(num(1.0)));
    assert_eq!(run("(car (quote ()))"), Ok(Value::Nil));
}

#[test]
fn cdr_is_the_list_without_its_first_element() {
    assert_eq!(run("(cdr (quote (1 2 3)))"), Ok(list(vec![num(2.0), num(3.0)])));
    assert_eq!(run("(cdr (quote (1)))"), Ok(Value::Nil));
    assert_eq!(run("(cdr (quote ()))"), Ok(Value::Nil));
}

#[test]
fn len_counts_the_elements() {
    assert_eq!(run("(len (quote (1 2 3)))"), Ok(num(3.0)));
    assert_eq!(run("(len (quote ()))"), Ok(num(0.0)));
}

#[test]
fn list_operators_want_one_list() {
    assert_eq!(run("(car 1)"), Err(EvalError::Type(Expected::List)));
    assert_eq!(run("(cdr nil)"), Err(EvalError::Type(Expected::List)));
    assert_eq!(run("(len \"abc\")"), Err(EvalError::Type(Expected::List)));
    assert_eq!(run("(car)"), Err(EvalError::Arity));
    assert_eq!(run("(len (quote (1)) (quote (2)))"), Err(EvalError::Arity));
    let mut env = Env::new();
    assert_eq!(eval_list_op(&items("(+ 1)"), &mut env, DEPTH), Err(EvalError::NotCallable));
}

// atoms and symbols

#[test]
fn atoms_evaluate_to_themselves_every_time() {
    let mut env = Env::new();
    for atom in [num(1.5), text("abc"), Value::Nil, Value::T] {
        let first = eval_value(&atom, &mut env, 0).unwrap();
        let second = eval_value(&first, &mut env, 0).unwrap();
        assert_eq!(first, atom);
        assert_eq!(second, atom);
    }
    assert_eq!(env.get("abc"), None);
}

#[test]
fn the_empty_list_evaluates_to_nil() {
    assert_eq!(run("()"), Ok(Value::Nil));
    let mut env = Env::new();
    assert_eq!(eval_list(&[], &mut env, DEPTH), Ok(Value::Nil));
    assert_eq!(eval_value(&list(vec![]), &mut env, 0), Ok(Value::Nil));
}

#[test]
fn a_function_evaluates_to_itself() {
    let f = run("(lambda (a) a)").unwrap();
    let mut env = Env::new();
    assert_eq!(eval_value(&f, &mut env, DEPTH), Ok(f.clone()));
}

#[test]
fn an_unbound_symbol_fails() {
    assert_eq!(run("nowhere"), Err(EvalError::UnboundSymbol("nowhere".to_string())));
    assert_eq!(
        run("(+ 1 nowhere)"),
        Err(EvalError::UnboundSymbol("nowhere".to_string()))
    );
    let env = Env::new();
    assert_eq!(
        eval_symbol(&"x".to_string(), &env),
        Err(EvalError::UnboundSymbol("x".to_string()))
    );
}

#[test]
fn a_keyword_evaluates_to_itself() {
    assert_eq!(run(":key"), Ok(sym(":key")));
    let env = Env::new();
    assert_eq!(eval_symbol(&":k".to_string(), &env), Ok(sym(":k")));
}

#[test]
fn a_bound_symbol_has_its_value() {
    let mut env = Env::new();
    env.set("x", num(4.0));
    assert_eq!(eval_symbol(&"x".to_string(), &env), Ok(num(4.0)));
    assert_eq!(run_in(&mut env, "(+ x 1)"), Ok(num(5.0)));
}

// if

#[test]
fn if_without_else_fails_on_nil() {
    assert_eq!(
        run("(if nil 1)"),
        Err(EvalError::MalformedSpecialForm(Defect::MissingElse))
    );
    assert_eq!(
        run("(if (< 2 1) 1)"),
        Err(EvalError::MalformedSpecialForm(Defect::MissingElse))
    );
}

#[test]
fn if_takes_the_branch_of_its_condition() {
    assert_eq!(run("(if t 1 2)"), Ok(num(1.0)));
    assert_eq!(run("(if nil 1 2)"), Ok(num(2.0)));
    assert_eq!(run("(if t 1)"), Ok(num(1.0)));
    assert_eq!(run("(if (< 1 2) (+ 1 1) nowhere)"), Ok(num(2.0)));
}

#[test]
fn if_wants_a_truth_value() {
    assert_eq!(run("(if 1 2 3)"), Err(EvalError::Type(Expected::Bool)));
    assert_eq!(run("(if \"a\" 2 3)"), Err(EvalError::Type(Expected::Bool)));
}

#[test]
fn if_takes_two_or_three_arguments() {
    assert_eq!(run("(if)"), Err(EvalError::Arity));
    assert_eq!(run("(if t)"), Err(EvalError::Arity));
    assert_eq!(run("(if t 1 2 3)"), Err(EvalError::Arity));
    let mut env = Env::new();
    assert_eq!(eval_if(&items("(if nil 1 2)"), &mut env, DEPTH), Ok(num(2.0)));
}

// def

#[test]
fn def_binds_in_the_current_scope_and_gives_the_value() {
    let mut env = Env::new();
    assert_eq!(run_in(&mut env, "(def x (+ 1 2))"), Ok(num(3.0)));
    assert_eq!(env.get("x"), Some(num(3.0)));
    assert_eq!(run_in(&mut env, "(def x 5)"), Ok(num(5.0)));
    assert_eq!(env.get("x"), Some(num(5.0)));
    assert_eq!(eval_def(&items("(def y x)"), &mut env, DEPTH), Ok(num(5.0)));
    assert_eq!(env.get("y"), Some(num(5.0)));
}

#[test]
fn def_wants_a_symbol_and_a_value() {
    assert_eq!(run("(def 1 2)"), Err(EvalError::MalformedSpecialForm(Defect::DefinedName)));
    assert_eq!(run("(def x)"), Err(EvalError::Arity));
    assert_eq!(run("(def x 1 2)"), Err(EvalError::Arity));
    let mut env = Env::new();
    assert_eq!(
        run_in(&mut env, "(def x nowhere)"),
        Err(EvalError::UnboundSymbol("nowhere".to_string()))
    );
    assert_eq!(env.get("x"), None);
}

#[test]
fn def_in_an_inner_scope_does_not_reach_the_outer_one() {
    let mut env = Env::new();
    env.set("x", num(1.0));
    assert_eq!(run_in(&mut env, "(let () (def x 2) x)"), Ok(num(2.0)));
    assert_eq!(env.get("x"), Some(num(1.0)));
}

// let

#[test]
fn let_binds_all_at_once() {
    assert_eq!(run("(let ((a 1) (b 2)) (+ a b))"), Ok(num(3.0)));
    // no binding sees another
    assert_eq!(
        run("(let ((a 1) (b a)) b)"),
        Err(EvalError::UnboundSymbol("a".to_string()))
    );
    let mut env = Env::new();
    env.set("a", num(10.0));
    assert_eq!(run_in(&mut env, "(let ((a 1) (b a)) b)"), Ok(num(10.0)));
}

#[test]
fn let_gives_the_last_value_of_its_body() {
    assert_eq!(run("(let ((a 1)) 5 6 a)"), Ok(num(1.0)));
    assert_eq!(run("(let ((a 1)))"), Ok(Value::Nil));
    assert_eq!(run("(let () 7)"), Ok(num(7.0)));
}

#[test]
fn let_drops_its_scope() {
    let mut env = Env::new();
    assert_eq!(eval_let(&items("(let ((a 1)) a)"), &mut env, DEPTH), Ok(num(1.0)));
    assert_eq!(env.get("a"), None);
}

#[test]
fn let_wants_bindings_of_a_name_and_a_value() {
    assert_eq!(run("(let)"), Err(EvalError::Arity));
    assert_eq!(run("(let 1 2)"), Err(EvalError::MalformedSpecialForm(Defect::BindingList)));
    assert_eq!(run("(let (1) 2)"), Err(EvalError::MalformedSpecialForm(Defect::Binding)));
    assert_eq!(run("(let ((a)) 2)"), Err(EvalError::MalformedSpecialForm(Defect::Binding)));
    assert_eq!(run("(let ((a 1 2)) 2)"), Err(EvalError::MalformedSpecialForm(Defect::Binding)));
    assert_eq!(
        run("(let ((1 2)) 2)"),
        Err(EvalError::MalformedSpecialForm(Defect::BindingName))
    );
}

// quote and quasiquote

#[test]
fn quote_gives_its_argument_as_written() {
    assert_eq!(run("(quote (+ 1 2))"), Ok(list(vec![sym("+"), num(1.0), num(2.0)])));
    assert_eq!(run("(quote nowhere)"), Ok(sym("nowhere")));
    assert_eq!(run("'(a b)"), Ok(list(vec![sym("a"), sym("b")])));
    assert_eq!(run("(quote)"), Err(EvalError::Arity));
    assert_eq!(run("(quote 1 2)"), Err(EvalError::Arity));
    let env = Env::new();
    assert_eq!(eval_quote(&items("(quote x)"), &env), Ok(sym("x")));
}

#[test]
fn quasiquote_fills_and_splices() {
    let mut env = Env::new();
    run_in(&mut env, "(def list (lambda (&rest xs) xs))").unwrap();
    assert_eq!(
        run_in(&mut env, "`(1 ,(+ 1 1) ,@(list 3 4))"),
        Ok(list(vec![num(1.0), num(2.0), num(3.0), num(4.0)]))
    );
    assert_eq!(
        run_in(
            &mut env,
            "(quasiquote (1 (unquote (+ 1 1)) (splice-unquote (list 3 4))))"
        ),
        Ok(list(vec![num(1.0), num(2.0), num(3.0), num(4.0)]))
    );
}

#[test]
fn quasiquote_keeps_what_is_not_unquoted() {
    assert_eq!(run("`a"), Ok(sym("a")));
    assert_eq!(run("`5"), Ok(num(5.0)));
    assert_eq!(run("`()"), Ok(list(vec![])));
    assert_eq!(run("`(a)"), Ok(list(vec![sym("a")])));
    assert_eq!(
        run("`(a (b c) \"d\")"),
        Ok(list(vec![sym("a"), list(vec![sym("b"), sym("c")]), text("d")]))
    );
    assert_eq!(
        run("`(a (b ,(+ 1 2)))"),
        Ok(list(vec![sym("a"), list(vec![sym("b"), num(3.0)])]))
    );
}

#[test]
fn unquote_at_the_top_is_evaluated() {
    assert_eq!(run("`,(+ 1 2)"), Ok(num(3.0)));
    let mut env = Env::new();
    assert_eq!(
        eval_quasiquote_value(&read("(unquote (+ 1 2))"), &mut env, DEPTH),
        Ok(num(3.0))
    );
    assert_eq!(eval_quasiquote(&items("(quasiquote (a ,(+ 1 2)))"), &mut env, DEPTH),
        Ok(list(vec![sym("a"), num(3.0)])));
}

#[test]
fn splice_of_a_value_that_is_no_list_adds_the_value() {
    assert_eq!(run("`(1 ,@(+ 1 1) 3)"), Ok(list(vec![num(1.0), num(2.0), num(3.0)])));
    assert_eq!(run("`(1 ,@(quote ()) 3)"), Ok(list(vec![num(1.0), num(3.0)])));
}

#[test]
fn quasiquote_refuses_misplaced_and_misshapen_unquotes() {
    assert_eq!(run("`,@(quote (1 2))"), Err(EvalError::InvalidQuasiquote));
    assert_eq!(run("(quasiquote (splice-unquote))"), Err(EvalError::InvalidQuasiquote));
    assert_eq!(run("(quasiquote (unquote))"), Err(EvalError::InvalidQuasiquote));
    assert_eq!(run("(quasiquote (unquote 1 2))"), Err(EvalError::InvalidQuasiquote));
    assert_eq!(run("(quasiquote (a (unquote 1 2)))"), Err(EvalError::InvalidQuasiquote));
    assert_eq!(
        run("(quasiquote (a (splice-unquote 1 2)))"),
        Err(EvalError::InvalidQuasiquote)
    );
    assert_eq!(run("(quasiquote)"), Err(EvalError::Arity));
    assert_eq!(run("(quasiquote 1 2)"), Err(EvalError::Arity));
}

#[test]
fn quasiquote_passes_failures_on() {
    assert_eq!(
        run("`(1 ,nowhere)"),
        Err(EvalError::UnboundSymbol("nowhere".to_string()))
    );
    assert_eq!(
        run("`(1 ,@nowhere)"),
        Err(EvalError::UnboundSymbol("nowhere".to_string()))
    );
}

// functions

fn names(list: &[&str]) -> Vec<String> {
    list.iter().map(|s| s.to_string()).collect()
}

#[test]
fn parameters_fall_into_their_classes() {
    let params = parse_param_spec(&items("(a &optional b &key c &rest d)")).unwrap();
    assert_eq!(
        params,
        LambdaParams {
            required: names(&["a"]),
            optional: names(&["b"]),
            keyword: names(&["c"]),
            rest: Some("d".to_string()),
        }
    );
    let params = parse_param_spec(&items("(a b &key c d &optional e f)")).unwrap();
    assert_eq!(
        params,
        LambdaParams {
            required: names(&["a", "b"]),
            optional: names(&["e", "f"]),
            keyword: names(&["c", "d"]),
            rest: None,
        }
    );
    let params = parse_param_spec(&items("()")).unwrap();
    assert_eq!(
        params,
        LambdaParams { required: vec![], optional: vec![], keyword: vec![], rest: None }
    );
    let params = parse_param_spec(&items("(&optional a &optional b &rest)")).unwrap();
    assert_eq!(
        params,
        LambdaParams {
            required: vec![],
            optional: names(&["a", "b"]),
            keyword: vec![],
            rest: None,
        }
    );
}

#[test]
fn a_parameter_must_be_a_symbol() {
    assert_eq!(parse_param_spec(&items("(a 1)")), Err(EvalError::InvalidParameter));
    assert_eq!(parse_param_spec(&items("(a (b))")), Err(EvalError::InvalidParameter));
    assert_eq!(
        parse_param_spec(&items("(&rest a &rest b \"c\")")),
        Err(EvalError::InvalidParameter)
    );
    assert_eq!(run("(lambda (1) 1)"), Err(EvalError::InvalidParameter));
}

#[test]
fn only_one_rest_parameter() {
    assert_eq!(parse_param_spec(&items("(&rest a b)")), Err(EvalError::DuplicateRest));
    assert_eq!(parse_param_spec(&items("(&rest a &rest b)")), Err(EvalError::DuplicateRest));
    assert_eq!(parse_param_spec(&items("(&rest &rest a)")), Err(EvalError::DuplicateRest));
    assert_eq!(run("(lambda (a &rest b c) a)"), Err(EvalError::DuplicateRest));
    assert_eq!(run("(macro (&rest b &key c &rest d) 1)"), Err(EvalError::DuplicateRest));
}

#[test]
fn lambda_holds_its_body_unevaluated() {
    let env = Env::new();
    let f = eval_fun_definition(&items("(lambda (a) (+ a nowhere))"), &env).unwrap();
    assert_eq!(
        f,
        Value::Lambda {
            params: LambdaParams {
                required: names(&["a"]),
                optional: vec![],
                keyword: vec![],
                rest: None
            },
            body: Box::new(read("(+ a nowhere)")),
            is_macro: false,
        }
    );
    let m = eval_macro_definition(&items("(macro (a) a)"), &env).unwrap();
    match m {
        Value::Lambda { is_macro, .. } => assert!(is_macro),
        other => panic!("{:?}", other),
    }
}

#[test]
fn lambda_wants_a_parameter_list_and_one_body() {
    assert_eq!(run("(lambda)"), Err(EvalError::Arity));
    assert_eq!(run("(lambda (a))"), Err(EvalError::Arity));
    assert_eq!(run("(lambda (a) 1 2)"), Err(EvalError::Arity));
    assert_eq!(
        run("(lambda a a)"),
        Err(EvalError::MalformedSpecialForm(Defect::ParameterList))
    );
    assert_eq!(run("(macro)"), Err(EvalError::Arity));
    assert_eq!(
        run("(macro 1 a)"),
        Err(EvalError::MalformedSpecialForm(Defect::ParameterList))
    );
}

#[test]
fn parameters_bind_by_class() {
    let source = "(let ()
        (def f (lambda (a &optional b &key c &rest d) `(,a ,b ,c ,d)))
        (f 1 2 :c 3 4 5))";
    assert_eq!(
        run(source),
        Ok(list(vec![num(1.0), num(2.0), num(3.0), list(vec![num(4.0), num(5.0)])]))
    );
}

#[test]
fn bind_call_builds_the_scope_of_the_call() {
    let params = parse_param_spec(&items("(a &optional b &key c &rest d)")).unwrap();
    let mut env = Env::new();
    let scope = bind_call(&params, &items("(f 1 2 :c 3 4 5)"), &mut env, DEPTH).unwrap();
    assert_eq!(scope.get("a"), Some(num(1.0)));
    assert_eq!(scope.get("b"), Some(num(2.0)));
    assert_eq!(scope.get("c"), Some(num(3.0)));
    assert_eq!(scope.get("d"), Some(list(vec![num(4.0), num(5.0)])));
    assert_eq!(scope.get("f"), None);
}

#[test]
fn parameters_without_arguments_stay_nil() {
    let params = parse_param_spec(&items("(a b &optional c &key k &rest r)")).unwrap();
    let mut env = Env::new();
    let scope = bind_call(&params, &items("(f 1)"), &mut env, DEPTH).unwrap();
    assert_eq!(scope.get("a"), Some(num(1.0)));
    assert_eq!(scope.get("b"), Some(Value::Nil));
    assert_eq!(scope.get("c"), Some(Value::Nil));
    assert_eq!(scope.get("k"), Some(Value::Nil));
    assert_eq!(scope.get("r"), Some(list(vec![])));
    let scope = bind_call(&params, &items("(f)"), &mut env, DEPTH).unwrap();
    assert_eq!(scope.get("a"), Some(Value::Nil));
    assert_eq!(scope.get("r"), Some(list(vec![])));
}

#[test]
fn values_beyond_the_positional_ones_go_to_the_rest() {
    let params = parse_param_spec(&items("(a &key k &rest r)")).unwrap();
    let mut env = Env::new();
    // a tag without a value after it, and a tag of no keyword parameter, are values
    let scope = bind_call(&params, &items("(f 1 :x 2 :k)"), &mut env, DEPTH).unwrap();
    assert_eq!(scope.get("k"), Some(Value::Nil));
    assert_eq!(scope.get("r"), Some(list(vec![sym(":x"), num(2.0), sym(":k")])));
    // all values taken by keyword arguments: the rest is empty
    let scope = bind_call(&params, &items("(f 1 :k 2)"), &mut env, DEPTH).unwrap();
    assert_eq!(scope.get("k"), Some(num(2.0)));
    assert_eq!(scope.get("r"), Some(list(vec![])));
    // the value of a keyword argument is not scanned as a tag
    let scope = bind_call(&params, &items("(f 1 :k :k 2)"), &mut env, DEPTH).unwrap();
    assert_eq!(scope.get("k"), Some(sym(":k")));
    assert_eq!(scope.get("r"), Some(list(vec![num(2.0)])));
}

#[test]
fn without_a_rest_parameter_further_values_are_dropped() {
    assert_eq!(run("(let () (def f (lambda (a) a)) (f 1 2 3))"), Ok(num(1.0)));
    assert_eq!(
        run("(let () (def f (lambda (a &key k) k)) (f 1 :k 9 3))"),
        Ok(num(9.0))
    );
}

#[test]
fn arguments_are_evaluated_in_order_in_the_scope_of_the_call() {
    let mut env = Env::new();
    run_in(&mut env, "(def f (lambda (a b) (+ a b)))").unwrap();
    assert_eq!(run_in(&mut env, "(f (def x 1) (+ x 1))"), Ok(num(3.0)));
    assert_eq!(env.get("x"), Some(num(1.0)));
    assert_eq!(
        run_in(&mut env, "(f nowhere (def y 1))"),
        Err(EvalError::UnboundSymbol("nowhere".to_string()))
    );
    assert_eq!(env.get("y"), None);
}

#[test]
fn a_function_sees_the_scope_of_its_call() {
    let source = "(let ((x 1))
        (def f (lambda () x))
        (let ((x 2)) (f)))";
    assert_eq!(run(source), Ok(num(2.0)));
}

#[test]
fn the_scope_of_a_call_is_gone_afterwards() {
    let mut env = Env::new();
    run_in(&mut env, "(def f (lambda (a) (def inner a)))").unwrap();
    assert_eq!(run_in(&mut env, "(f 5)"), Ok(num(5.0)));
    assert_eq!(env.get("a"), None);
    assert_eq!(env.get("inner"), None);
}

#[test]
fn a_literal_function_can_head_a_list() {
    assert_eq!(run("((lambda (a b) (* a b)) 3 4)"), Ok(num(12.0)));
}

#[test]
fn a_head_that_is_no_function_is_not_callable() {
    assert_eq!(run("(1 2 3)"), Err(EvalError::NotCallable));
    assert_eq!(run("(\"f\" 1)"), Err(EvalError::NotCallable));
    assert_eq!(run("(nil)"), Err(EvalError::NotCallable));
    assert_eq!(run("(let ((f 1)) (f 2))"), Err(EvalError::NotCallable));
    assert_eq!(run("(:k 1)"), Err(EvalError::UnboundSymbol(":k".to_string())));
    assert_eq!(run("(nowhere 1)"), Err(EvalError::UnboundSymbol("nowhere".to_string())));
    let mut env = Env::new();
    assert_eq!(eval_fun_call(&[], &mut env, DEPTH), Err(EvalError::NotCallable));
}

#[test]
fn a_head_that_evaluates_to_a_symbol_is_looked_up() {
    let mut env = Env::new();
    run_in(&mut env, "(def f (lambda (a) (+ a 1)))").unwrap();
    run_in(&mut env, "(def g (quote f))").unwrap();
    assert_eq!(run_in(&mut env, "(g 1)"), Ok(num(2.0)));
    run_in(&mut env, "(def h (quote g))").unwrap();
    assert_eq!(run_in(&mut env, "(h 1)"), Err(EvalError::NotCallable));
}

#[test]
fn a_function_can_call_itself() {
    let source = "(let ()
        (def fact (lambda (n) (if (<= n 1) 1 (* n (fact (- n 1))))))
        (fact 10))";
    assert_eq!(run(source), Ok(num(3628800.0)));
}

#[test]
fn evaluation_stops_at_its_depth() {
    let mut env = Env::new();
    run_in(&mut env, "(def f (lambda () (f)))").unwrap();
    assert_eq!(eval_value(&read("(f)"), &mut env, 40), Err(EvalError::DepthExceeded));
    assert_eq!(eval_value(&read("(+ 1 (+ 1 1))"), &mut env, 1), Err(EvalError::DepthExceeded));
    assert_eq!(eval_value(&read("(+ 1 (+ 1 1))"), &mut env, 2), Ok(num(3.0)));
    assert_eq!(eval_value(&read("(+ 1 1)"), &mut env, 0), Err(EvalError::DepthExceeded));
    assert_eq!(eval_quasiquote_value(&read("(a (b))"), &mut env, 1), Err(EvalError::DepthExceeded));
    assert_eq!(
        eval_quasiquote_value(&read("(a (b))"), &mut env, 2),
        Ok(list(vec![sym("a"), list(vec![sym("b")])]))
    );
}

// macros

#[test]
fn a_macro_is_expanded_and_then_evaluated() {
    let mut env = Env::new();
    run_in(&mut env, "(def m (macro (x) `(+ 1 ,x)))").unwrap();
    assert_eq!(run_in(&mut env, "(m 2)"), Ok(num(3.0)));
}

#[test]
fn macroexpand_gives_the_expansion_unevaluated() {
    let mut env = Env::new();
    run_in(&mut env, "(def m (macro (x) `(+ 1 ,x)))").unwrap();
    assert_eq!(
        run_in(&mut env, "(macroexpand '(m 2))"),
        Ok(list(vec![sym("+"), num(1.0), num(2.0)]))
    );
    assert_eq!(
        eval_macro_expand(&items("(macroexpand (quote (m (+ 1 1))))"), &mut env, DEPTH),
        Ok(list(vec![sym("+"), num(1.0), num(2.0)]))
    );
}

#[test]
fn macroexpand_leaves_other_values_as_they_are() {
    let mut env = Env::new();
    run_in(&mut env, "(def m (macro (x) `(+ 1 ,x)))").unwrap();
    run_in(&mut env, "(def f (lambda (x) x))").unwrap();
    // the argument is evaluated: the macro call gives 3, which is no list
    assert_eq!(run_in(&mut env, "(macroexpand (m 2))"), Ok(num(3.0)));
    assert_eq!(run_in(&mut env, "(macroexpand 5)"), Ok(num(5.0)));
    assert_eq!(run_in(&mut env, "(macroexpand '())"), Ok(list(vec![])));
    // a function is no macro
    assert_eq!(
        run_in(&mut env, "(macroexpand '(f 2))"),
        Ok(list(vec![sym("f"), num(2.0)]))
    );
    assert_eq!(
        run_in(&mut env, "(macroexpand '(1 2))"),
        Ok(list(vec![num(1.0), num(2.0)]))
    );
    assert_eq!(run_in(&mut env, "(macroexpand)"), Err(EvalError::Arity));
    assert_eq!(
        run_in(&mut env, "(macroexpand '(nowhere 2))"),
        Err(EvalError::UnboundSymbol("nowhere".to_string()))
    );
}

#[test]
fn a_macro_result_is_evaluated_in_the_scope_of_the_call() {
    let source = "(let ((y 10))
        (def m (macro () (quote y)))
        (let ((y 20)) (m)))";
    assert_eq!(run(source), Ok(num(20.0)));
}

// messages

#[test]
fn failures_have_messages() {
    assert_eq!(EvalError::UnboundSymbol("x".to_string()).message(), "Unbound symbol: x");
    assert_eq!(EvalError::Arity.message(), "Wrong number of arguments");
    assert_eq!(EvalError::Type(Expected::Number).message(), "All arguments must be numbers");
    assert_eq!(EvalError::Type(Expected::List).message(), "Argument needs to be a list");
    assert_eq!(EvalError::Type(Expected::Bool).message(), "Condition must be a bool");
    assert_eq!(
        EvalError::MalformedSpecialForm(Defect::MissingElse).message(),
        "No else branch found"
    );
    assert_eq!(
        EvalError::MalformedSpecialForm(Defect::DefinedName).message(),
        "First parameter to \"def\" must be a symbol"
    );
    assert_eq!(
        EvalError::MalformedSpecialForm(Defect::ParameterList).message(),
        "First parameter to \"lambda\" must be a list of parameter names"
    );
    assert_eq!(
        EvalError::MalformedSpecialForm(Defect::BindingList).message(),
        "First parameter to \"let\" must be a list of bindings"
    );
    assert_eq!(
        EvalError::MalformedSpecialForm(Defect::Binding).message(),
        "Bindings need to be of the form (name value)"
    );
    assert_eq!(
        EvalError::MalformedSpecialForm(Defect::BindingName).message(),
        "The first parameter in each binding must be a symbol"
    );
    assert_eq!(EvalError::NotCallable.message(), "First parameter is not a function");
    assert_eq!(EvalError::DuplicateRest.message(), "There can be only 1 rest parameter");
    assert_eq!(EvalError::InvalidParameter.message(), "Invalid parameter name");
    assert_eq!(
        EvalError::InvalidQuasiquote.message(),
        "Invalid use of \"unquote\" or \"splice-unquote\""
    );
    assert_eq!(EvalError::DepthExceeded.message(), "Expression nests too deeply");
}
