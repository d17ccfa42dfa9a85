use euphie::env::Env;
use euphie::number::Number;
use euphie::parse::Value;

fn num(x: f64) -> Value {
    Value::Number(Number::from_bits(x.to_bits()))
}

#[test]
fn a_new_scope_binds_nothing() {
    let env = Env::new();
    assert_eq!(env.get("x"), None);
    assert_eq!(env.get(""), None);
}

#[test]
fn set_then_get() {
    let mut env = Env::new();
    env.set("x", num(1.0));
    env.set("y", Value::T);
    assert_eq!(env.get("x"), Some(num(1.0)));
    assert_eq!(env.get("y"), Some(Value::T));
    assert_eq!(env.get("z"), None);
}

#[test]
fn set_again_replaces_the_value() {
    let mut env = Env::new();
    env.set("x", num(1.0));
    env.set("y", num(5.0));
    env.set("x", num(2.0));
    assert_eq!(env.get("x"), Some(num(2.0)));
    assert_eq!(env.get("y"), Some(num(5.0)));
}

#[test]
fn a_scope_reads_through_to_its_parents() {
    let mut root = Env::new();
    root.set("x", num(1.0));
    root.set("y", num(2.0));
    let mut child = Env::extend(&root);
    child.set("y", num(20.0));
    let mut grandchild = Env::extend(&child);
    grandchild.set("z", num(300.0));
    assert_eq!(grandchild.get("x"), Some(num(1.0)));
    assert_eq!(grandchild.get("y"), Some(num(20.0)));
    assert_eq!(grandchild.get("z"), Some(num(300.0)));
    assert_eq!(child.get("z"), None);
    assert_eq!(root.get("y"), Some(num(2.0)));
}

#[test]
fn several_scopes_share_a_parent() {
    let mut root = Env::new();
    root.set("x", num(1.0));
    let mut first = Env::extend(&root);
    let mut second = Env::extend(&root);
    first.set("a", num(2.0));
    second.set("a", num(3.0));
    assert_eq!(first.get("a"), Some(num(2.0)));
    assert_eq!(second.get("a"), Some(num(3.0)));
    assert_eq!(first.get("x"), Some(num(1.0)));
    assert_eq!(second.get("x"), Some(num(1.0)));
}

#[test]
fn set_writes_the_current_scope_only() {
    let mut root = Env::new();
    root.set("x", num(1.0));
    {
        let mut child = Env::extend(&root);
        child.set("x", num(2.0));
        assert_eq!(child.get("x"), Some(num(2.0)));
    }
    assert_eq!(root.get("x"), Some(num(1.0)));
}

#[test]
fn nest_keeps_the_bindings_under_a_new_parent() {
    let mut root = Env::new();
    root.set("x", num(1.0));
    root.set("y", num(2.0));
    let mut scope = Env::new();
    scope.set("y", num(20.0));
    let nested = scope.nest(&root);
    assert_eq!(nested.get("x"), Some(num(1.0)));
    assert_eq!(nested.get("y"), Some(num(20.0)));
}
