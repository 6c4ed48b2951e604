use ssharp::error::SSharpError;
use ssharp::interpreter::environment::Environment;

#[test]
fn get_after_set_gives_the_value() {
    let mut env: Environment<i64> = Environment::new();
    env.set("age", 25);
    assert_eq!(env.get("age").unwrap(), 25);
}

#[test]
fn set_replaces_and_leaves_other_names() {
    let mut env: Environment<String> = Environment::new();
    env.set("a", "one".to_string());
    env.set("b", "two".to_string());
    env.set("a", "three".to_string());
    assert_eq!(env.get("a").unwrap(), "three");
    assert_eq!(env.get("b").unwrap(), "two");
}

#[test]
fn undefined_variable_is_an_error() {
    let env: Environment<i64> = Environment::new();
    match env.get("score") {
        Err(SSharpError::RuntimeError { message }) => {
            assert_eq!(message, "Undefined variable 'score'")
        }
        other => panic!("Expected a runtime error, got {:?}", other),
    }
}

#[test]
fn a_sequence_of_sets_keeps_the_last_value_of_each_exact_name() {
    let mut env: Environment<i64> = Environment::new();
    env.set("x", 1);
    env.set("y", 2);
    env.set("x", 3);
    env.set("X", 4);
    env.set("y", 5);
    env.set("x", 6);
    assert_eq!(env.get("x").unwrap(), 6);
    assert_eq!(env.get("y").unwrap(), 5);
    assert_eq!(env.get("X").unwrap(), 4);
    match env.get("z") {
        Err(SSharpError::RuntimeError { message }) => {
            assert_eq!(message, "Undefined variable 'z'")
        }
        other => panic!("Expected a runtime error, got {:?}", other),
    }
}
