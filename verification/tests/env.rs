use lox_interpreter::env::Env;
use lox_interpreter::interpret::Value;

type V = Value<'static, f64>;

fn new_env() -> Env<V> {
    Env::new(Value::Nil)
}

#[test]
fn assign_updates_value_in_current_scope() {
    let mut env = new_env();
    env.define("a".to_string(), Some(Value::Number(1.0)));

    env.assign("a".to_string(), Value::Number(2.0)).unwrap();
    assert_eq!(env.get_owned("a"), Some(Value::Number(2.0)));
}

#[test]
fn lexical_scoping_reads_nearest_enclosing_definition() {
    let mut env = new_env();
    env.define("a".to_string(), Some(Value::String("global".to_string())));

    env.push_scope();
    env.define("a".to_string(), Some(Value::String("outer".to_string())));

    env.push_scope();
    assert_eq!(env.get_owned("a"), Some(Value::String("outer".to_string())));
}

#[test]
fn assign_updates_value_in_enclosing_scope() {
    let mut env = new_env();
    env.define("a".to_string(), Some(Value::Number(1.0)));

    env.push_scope();
    env.assign("a".to_string(), Value::Number(3.0)).unwrap();
    assert_eq!(env.get_owned("a"), Some(Value::Number(3.0)));

    env.pop_scope();
    assert_eq!(env.get_owned("a"), Some(Value::Number(3.0)));
}

#[test]
fn assign_errors_on_undefined_variable() {
    let mut env = new_env();
    let err = env
        .assign("missing".to_string(), Value::Nil)
        .expect_err("expected assignment to undefined variable to error");
    assert!(err.contains("Undefined variable 'missing'"), "got: {err}");
}

#[test]
fn define_without_value_defaults_to_nil() {
    let mut env = new_env();
    env.define("a".to_string(), None);
    assert_eq!(env.get_owned("a"), Some(Value::Nil));
}

#[test]
fn get_owned_returns_none_for_missing_variable() {
    let mut env = new_env();
    env.push_scope();
    assert_eq!(env.get_owned("missing"), None);
}

#[test]
fn inner_define_shadows_global_without_mutating_global() {
    let mut env = new_env();
    env.define("a".to_string(), Some(Value::Number(1.0)));

    env.push_scope();
    env.define("a".to_string(), Some(Value::Number(2.0)));
    assert_eq!(env.get_owned("a"), Some(Value::Number(2.0)));

    env.pop_scope();
    assert_eq!(env.get_owned("a"), Some(Value::Number(1.0)));
}

#[test]
fn assign_updates_nearest_defined_scope() {
    let mut env = new_env();
    env.define("a".to_string(), Some(Value::Number(1.0)));

    env.push_scope();
    env.define("a".to_string(), Some(Value::Number(2.0)));

    env.push_scope();
    env.assign("a".to_string(), Value::Number(3.0)).unwrap();
    assert_eq!(env.get_owned("a"), Some(Value::Number(3.0)));

    env.pop_scope();
    assert_eq!(env.get_owned("a"), Some(Value::Number(3.0)));

    env.pop_scope();
    assert_eq!(env.get_owned("a"), Some(Value::Number(1.0)));
}

#[test]
fn assign_error_message_is_exact() {
    let mut env = new_env();
    let err = env.assign("x".to_string(), Value::Nil).unwrap_err();
    assert_eq!(err, "Undefined variable 'x'.");
}

#[test]
fn get_at_skips_only_the_innermost_scope() {
    let mut env = new_env();
    env.define("a".to_string(), Some(Value::Number(1.0)));
    env.push_scope();
    env.define("a".to_string(), Some(Value::Number(2.0)));
    env.push_scope();
    env.define("a".to_string(), Some(Value::Number(3.0)));
    assert_eq!(env.get_at(0, "a"), Some(Value::Number(3.0)));
    assert_eq!(env.get_at(1, "a"), Some(Value::Number(2.0)));
    assert_eq!(env.get_at(2, "a"), Some(Value::Number(2.0)));
}

#[test]
fn depth_counts_open_scopes() {
    let mut env = new_env();
    assert_eq!(env.depth(), 1);
    env.push_scope();
    env.push_scope();
    assert_eq!(env.depth(), 3);
    env.pop_scope();
    assert_eq!(env.depth(), 2);
}

#[test]
fn redefining_in_the_same_scope_replaces_the_value() {
    let mut env = new_env();
    env.define("a".to_string(), Some(Value::Number(1.0)));
    env.define("a".to_string(), Some(Value::Bool(true)));
    assert_eq!(env.get_owned("a"), Some(Value::Bool(true)));
    assert_eq!(env.get("a"), Some(&Value::Bool(true)));
}
