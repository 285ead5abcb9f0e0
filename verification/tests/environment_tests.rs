use monkey_lang::environment::Environment;
use monkey_lang::object::Object;

#[test]
fn test_environment_get_and_set() {
    let mut env = Environment::new();
    assert_eq!(env.get(0, &"x".to_string()), None);

    env.set(0, "x".to_string(), Object::Integer(1));
    assert_eq!(env.get(0, &"x".to_string()), Some(Object::Integer(1)));

    // A later binding of the same name shadows the earlier one.
    env.set(0, "x".to_string(), Object::Integer(2));
    assert_eq!(env.get(0, &"x".to_string()), Some(Object::Integer(2)));
}

#[test]
fn test_environment_enclosed_scopes() {
    let mut env = Environment::new();
    env.set(0, "outer".to_string(), Object::Integer(10));

    let inner = env.create_enclosed_environment(0);

    // A miss in the inner scope delegates to the outer chain.
    assert_eq!(env.get(inner, &"outer".to_string()), Some(Object::Integer(10)));

    // A binding in the inner scope never touches the outer one.
    env.set(inner, "outer".to_string(), Object::Integer(99));
    assert_eq!(env.get(inner, &"outer".to_string()), Some(Object::Integer(99)));
    assert_eq!(env.get(0, &"outer".to_string()), Some(Object::Integer(10)));

    // Two inner scopes may share the outer one; a change to the outer
    // binding is visible through both.
    let second = env.create_enclosed_environment(0);
    env.set(0, "outer".to_string(), Object::Integer(11));
    assert_eq!(env.get(second, &"outer".to_string()), Some(Object::Integer(11)));

    // A name bound nowhere in the chain misses.
    assert_eq!(env.get(inner, &"missing".to_string()), None);
}
