use lox_interpreter::environment::Environment;
use lox_interpreter::errors::LoxError;
use lox_interpreter::location::Location;
use lox_interpreter::numbers::Number;
use lox_interpreter::value::Value;

fn n(raw: i64) -> Value {
    Value::Number(Number::from_raw(raw))
}

#[test]
fn test_get_variable_from_enclosing_env() {
    let mut env = Environment::new();
    env.define("foo".to_string(), n(42_000_000));
    env.new_child_scope();
    assert_eq!(Some(n(42_000_000)), env.get("foo"));
}

#[test]
fn test_get_nonexistant_variable_from_enclosing_env() {
    let mut env = Environment::new();
    env.new_child_scope();
    assert_eq!(None, env.get("foo"));
}

#[test]
fn test_variable_assignment() {
    let mut env = Environment::new();
    env.define("foo".to_string(), n(12_100_000));
    let result = env.assign("foo", n(45_000_000), Location::Line("testfile.lox".to_string(), 85));
    assert_eq!(result, Ok(n(45_000_000)));
    assert_eq!(env.get("foo"), Some(n(45_000_000)));
}

#[test]
fn test_enclosed_variable_assignment() {
    let mut env = Environment::new();
    env.define("foo".to_string(), n(42_000_000));
    env.new_child_scope();
    let result = env.assign("foo", n(45_000_000), Location::Line("testfile.lox".to_string(), 85));
    assert_eq!(result, Ok(n(45_000_000)));
    assert_eq!(env.get("foo"), Some(n(45_000_000)));
}

#[test]
fn test_scope_shadowing() {
    let mut env = Environment::new();
    env.define("x".to_string(), Value::String("outer".to_string()));
    env.new_child_scope();
    env.define("x".to_string(), Value::String("inner".to_string()));
    assert_eq!(env.get("x"), Some(Value::String("inner".to_string())));
    env.destroy_child_scope();
    assert_eq!(env.get("x"), Some(Value::String("outer".to_string())));
}

#[test]
fn test_assignment_never_creates_bindings() {
    let mut env = Environment::new();
    let result = env.assign("y", Value::Nil, Location::Line("testfile.lox".to_string(), 7));
    match result {
        Err(LoxError::RuntimeError(location, msg)) => {
            assert_eq!(location, Location::Line("testfile.lox".to_string(), 7));
            assert_eq!(msg, "Undefined variable: y");
        }
        other => panic!("expected a runtime error, got {:?}", other),
    }
    assert_eq!(env.get("y"), None);
}

#[test]
fn test_define_overwrites_in_place() {
    let mut env = Environment::new();
    env.define("foo".to_string(), Value::Boolean(true));
    env.define("foo".to_string(), Value::Boolean(false));
    assert_eq!(env.get("foo"), Some(Value::Boolean(false)));
}
