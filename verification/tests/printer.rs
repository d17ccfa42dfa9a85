use euphie::env::Env;
use euphie::eval::eval_value;
use euphie::number::Number;
use euphie::parse::parse;
use euphie::parse::LambdaParams;
use euphie::parse::Value;
use euphie::tokenize::tokenize;
use euphie::tokenize::TokenType;
use euphie::util::params_to_string;
use euphie::util::value_to_fragments;
use euphie::util::Fragment;

fn read(source: &str) -> Value {
    let mut tokens = tokenize(source.to_string());
    for token in tokens.iter_mut() {
        let number = match &token.t {
            TokenType::Symbol(name) => name.parse::<f64>().ok(),
            _ => None,
        };
        if let Some(x) = number {
            token.t = TokenType::Number(Number::from_bits(x.to_bits()));
        }
    }
    tokens.reverse();
    parse(&mut tokens).unwrap()
}

/// The printed form, with each number written as the machine writes it.
fn show(value: &Value) -> String {
    let mut out = String::new();
    for fragment in value_to_fragments(value) {
        match fragment {
            Fragment::Text(text) => out.push_str(&text),
            Fragment::Number(n) => out.push_str(&format!("{}", f64::from_bits(n.to_bits()))),
        }
    }
    out
}

fn names(list: &[&str]) -> Vec<String> {
    list.iter().map(|s| s.to_string()).collect()
}

#[test]
fn atoms_print_as_they_read() {
    assert_eq!(show(&Value::Nil), "nil");
    assert_eq!(show(&Value::T), "t");
    assert_eq!(show(&read("abc")), "abc");
    assert_eq!(show(&read("\"a b\"")), "\"a b\"");
    assert_eq!(show(&read("(quote x)")), "(quote x)");
}

#[test]
fn numbers_hold_a_place_of_their_own() {
    assert_eq!(
        value_to_fragments(&read("(a 1.5 b)")),
        vec![
            Fragment::Text("(a ".to_string()),
            Fragment::Number(Number::from_bits(1.5f64.to_bits())),
            Fragment::Text(" b)".to_string()),
        ]
    );
    assert_eq!(
        value_to_fragments(&read("(1 2)")),
        vec![
            Fragment::Text("(".to_string()),
            Fragment::Number(Number::from_bits(1f64.to_bits())),
            Fragment::Text(" ".to_string()),
            Fragment::Number(Number::from_bits(2f64.to_bits())),
            Fragment::Text(")".to_string()),
        ]
    );
    assert_eq!(show(&read("(1 2.5 -3 (4))")), "(1 2.5 -3 (4))");
}

#[test]
fn lists_print_between_parentheses() {
    assert_eq!(show(&read("()")), "()");
    assert_eq!(show(&read("(a)")), "(a)");
    assert_eq!(show(&read("(a (b c) () \"d\" nil t)")), "(a (b c) () \"d\" nil t)");
}

#[test]
fn functions_print_with_their_parameters() {
    let mut env = Env::new();
    let f = eval_value(&read("(lambda (a b) a)"), &mut env, 10).unwrap();
    assert_eq!(show(&f), "<lambda (a b)>");
    let m = eval_value(&read("(macro (a &optional b c &key d &rest e) a)"), &mut env, 10).unwrap();
    assert_eq!(show(&m), "<macro (a &optional b c &key d &rest e)>");
    let none = eval_value(&read("(lambda () 1)"), &mut env, 10).unwrap();
    assert_eq!(show(&none), "<lambda ()>");
    let rest = eval_value(&read("(lambda (&rest r) r)"), &mut env, 10).unwrap();
    assert_eq!(show(&rest), "<lambda (&rest r)>");
}

#[test]
fn parameter_lists_print_by_class() {
    let params = LambdaParams {
        required: names(&["a", "b"]),
        optional: vec![],
        keyword: names(&["k"]),
        rest: None,
    };
    assert_eq!(params_to_string(&params), "a b &key k");
    let params = LambdaParams {
        required: vec![],
        optional: names(&["o"]),
        keyword: vec![],
        rest: Some("r".to_string()),
    };
    assert_eq!(params_to_string(&params), "&optional o &rest r");
    let params =
        LambdaParams { required: vec![], optional: vec![], keyword: vec![], rest: None };
    assert_eq!(params_to_string(&params), "");
}

#[test]
fn results_print_after_evaluation() {
    let mut env = Env::new();
    let value = eval_value(&read("`(1 ,(/ 1 4) ,(/ 1 0) ,@(quote (x y)))"), &mut env, 10).unwrap();
    assert_eq!(show(&value), "(1 0.25 inf x y)");
}

#[test]
fn parameters_describe_themselves_class_by_class() {
    let params = LambdaParams {
        required: names(&["a", "b"]),
        optional: vec![],
        keyword: names(&["k"]),
        rest: Some("r".to_string()),
    };
    assert_eq!(params.describe(), "required: [a b], optional: [], keyword: [k], rest: [r]");
    let params =
        LambdaParams { required: vec![], optional: names(&["o"]), keyword: vec![], rest: None };
    assert_eq!(params.describe(), "required: [], optional: [o], keyword: [], rest: []");
}
