use wolff::ast::LiteralValue;
use wolff::interpreter::AstInterpreter;
use wolff::environment::Environment;

fn chars(s: &str) -> Vec<char> {
    s.chars().collect()
}

#[test]
fn scopes_shadow_and_unwind() {
    let mut env = Environment::new();
    env.define(chars("x"), LiteralValue::Bool(true));
    env.create_new_scope();
    env.define(chars("x"), LiteralValue::Nil);
    assert_eq!(env.get(&chars("x")), Some(&LiteralValue::Nil));
    env.delete_most_recent_scope();
    assert_eq!(env.get(&chars("x")), Some(&LiteralValue::Bool(true)));
    assert_eq!(env.get(&chars("y")), None);
}

#[test]
fn assignment_reaches_the_innermost_binding() {
    let mut env = Environment::new();
    env.define(chars("x"), LiteralValue::Bool(true));
    env.create_new_scope();
    assert!(env.assign(&chars("x"), LiteralValue::Bool(false)).is_ok());
    env.delete_most_recent_scope();
    assert_eq!(env.get(&chars("x")), Some(&LiteralValue::Bool(false)));
    let err = env.assign(&chars("z"), LiteralValue::Nil).err().unwrap();
    assert_eq!(err.message.iter().collect::<String>(), "The variable z is not defined.");
    assert_eq!((err.line, err.col), (0, 0));
}

#[test]
fn redefinition_replaces_in_the_same_frame() {
    let mut env = Environment::new();
    env.define(chars("x"), LiteralValue::Bool(true));
    env.define(chars("x"), LiteralValue::Text(chars("t")));
    assert_eq!(env.get(&chars("x")), Some(&LiteralValue::Text(chars("t"))));
    let mut interpreter = AstInterpreter::from_environment(env);
    assert!(interpreter.take_output().is_empty());
}
