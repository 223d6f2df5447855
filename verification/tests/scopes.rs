use treewalk::{Environment, RuntimeErrorKind, Token, TokenType, Value};

fn name(text: &str, line: usize) -> Token {
    Token::new(TokenType::Identifier, text.to_string(), None, line)
}

#[test]
fn a_new_environment_has_the_global_scope_alone() {
    let environment = Environment::new();
    assert_eq!(environment.depth(), 1);
    assert!(environment.get(&name("a", 1)).is_err());
}

#[test]
fn define_binds_in_the_innermost_scope() {
    let mut environment = Environment::new();
    environment.define("a".to_string(), Value::Number(1.0f64.to_bits()));
    assert_eq!(environment.get(&name("a", 1)), Ok(Value::Number(1.0f64.to_bits())));
    environment.push_scope();
    environment.define("a".to_string(), Value::Text("inner".to_string()));
    assert_eq!(environment.get(&name("a", 1)), Ok(Value::Text("inner".to_string())));
    environment.pop_scope();
    assert_eq!(environment.get(&name("a", 1)), Ok(Value::Number(1.0f64.to_bits())));
}

#[test]
fn define_twice_overwrites() {
    let mut environment = Environment::new();
    environment.define("a".to_string(), Value::Boolean(true));
    environment.define("b".to_string(), Value::Nil);
    environment.define("a".to_string(), Value::Boolean(false));
    assert_eq!(environment.get(&name("a", 1)), Ok(Value::Boolean(false)));
    assert_eq!(environment.get(&name("b", 1)), Ok(Value::Nil));
}

#[test]
fn get_searches_outward() {
    let mut environment = Environment::new();
    environment.define("outer".to_string(), Value::Number(7));
    environment.push_scope();
    environment.push_scope();
    assert_eq!(environment.depth(), 3);
    assert_eq!(environment.get(&name("outer", 1)), Ok(Value::Number(7)));
}

#[test]
fn get_of_an_unbound_name_is_a_name_error() {
    let environment = Environment::new();
    let error = environment.get(&name("missing", 12)).unwrap_err();
    assert_eq!(error.kind, RuntimeErrorKind::NameError);
    assert_eq!(error.line_number, 12);
    assert_eq!(error.lexeme, "missing");
}

#[test]
fn assign_stores_where_the_name_is_bound() {
    let mut environment = Environment::new();
    environment.define("a".to_string(), Value::Number(1));
    environment.push_scope();
    environment.define("b".to_string(), Value::Number(2));
    assert_eq!(environment.assign(&name("a", 1), Value::Number(10)), Ok(()));
    assert_eq!(environment.assign(&name("b", 1), Value::Number(20)), Ok(()));
    assert_eq!(environment.get(&name("a", 1)), Ok(Value::Number(10)));
    assert_eq!(environment.get(&name("b", 1)), Ok(Value::Number(20)));
    environment.pop_scope();
    assert_eq!(environment.get(&name("a", 1)), Ok(Value::Number(10)));
    assert!(environment.get(&name("b", 1)).is_err());
}

#[test]
fn assign_prefers_the_innermost_binding() {
    let mut environment = Environment::new();
    environment.define("a".to_string(), Value::Number(1));
    environment.push_scope();
    environment.define("a".to_string(), Value::Number(2));
    assert_eq!(environment.assign(&name("a", 1), Value::Number(3)), Ok(()));
    assert_eq!(environment.get(&name("a", 1)), Ok(Value::Number(3)));
    environment.pop_scope();
    assert_eq!(environment.get(&name("a", 1)), Ok(Value::Number(1)));
}

#[test]
fn assign_of_an_unbound_name_is_a_name_error_and_binds_nothing() {
    let mut environment = Environment::new();
    let error = environment.assign(&name("a", 3), Value::Nil).unwrap_err();
    assert_eq!(error.kind, RuntimeErrorKind::NameError);
    assert_eq!(error.line_number, 3);
    assert_eq!(error.lexeme, "a");
    assert!(environment.get(&name("a", 3)).is_err());
}
