use smol::environ::Environment;
use smol::interpreter::Value;

fn int_of(v: Value) -> i64 {
    match v {
        Value::Int(i) => i,
        other => panic!("not an int: {other:?}"),
    }
}

#[test]
fn new_environment_binds_nothing() {
    let mut env = Environment::new();
    assert!(!env.has("x"));
    assert!(!env.is_bound("x".to_string()));
}

#[test]
fn read_after_insert_gives_the_value() {
    let mut env = Environment::new();
    env.insert("x".to_string(), Value::Int(1));
    env.insert("y".to_string(), Value::Int(2));
    assert!(env.is_bound("x".to_string()));
    assert_eq!(int_of(env.get("x".to_string())), 1);
    assert_eq!(int_of(env.lookup("y")), 2);
}

#[test]
fn insert_replaces_an_earlier_value() {
    let mut env = Environment::new();
    env.insert("x".to_string(), Value::Int(1));
    env.insert("x".to_string(), Value::Str("one".to_string()));
    assert!(matches!(env.get("x".to_string()), Value::Str(s) if s == "one"));
}

#[test]
fn update_changes_only_bound_names() {
    let mut env = Environment::new();
    env.insert("x".to_string(), Value::Int(1));
    env.update("x".to_string(), Value::Int(5));
    env.update("z".to_string(), Value::Int(9));
    assert_eq!(int_of(env.get("x".to_string())), 5);
    assert!(!env.is_bound("z".to_string()));
}

#[test]
fn copy_is_independent_of_its_source() {
    let mut env = Environment::new();
    env.insert("x".to_string(), Value::Bool(true));
    let mut copy = Environment::copy_of(&env);
    copy.insert("y".to_string(), Value::Nil);
    copy.update("x".to_string(), Value::Bool(false));
    assert!(matches!(env.get("x".to_string()), Value::Bool(true)));
    assert!(!env.is_bound("y".to_string()));
    assert!(matches!(copy.get("x".to_string()), Value::Bool(false)));
}
