use kwlang::vm::error::EvalError;
use kwlang::vm::scope::Scope;
use kwlang::vm::value::Value;

#[test]
fn test_single_scope() {
    let mut scope = Scope::new();

    scope.add_variable("x", Value::Int(5));

    assert_eq!(
        scope.get_variable("x").expect("Could not find x"),
        &Value::Int(5),
    );

    scope.add_variable("y", Value::Bool(true));

    assert_eq!(
        scope.get_variable("y").expect("Could not find y"),
        &Value::Bool(true),
    );

    assert_eq!(
        scope.get_variable("x").expect("Could not find x"),
        &Value::Int(5),
    );

    scope.add_variable("x", Value::Int(0));
    assert_eq!(
        scope.get_variable("x").expect("Could not find x"),
        &Value::Int(0),
    );
}

#[test]
fn test_read_parent() {
    let mut parent = Scope::new();
    parent.add_variable("x", Value::Int(5));

    parent.subscope(|s| {
        s.add_variable("y", Value::Int(0));

        assert_eq!(
            s.get_variable("x").expect("Could not find x in child"),
            &Value::Int(5),
        );

        assert_eq!(
            s.get_variable("y").expect("Could not find y in child"),
            &Value::Int(0),
        );
    });

    assert_eq!(
        parent.get_variable("x").expect("Could not find x in parent"),
        &Value::Int(5),
    );

    assert_eq!(
        parent.get_variable("y"),
        None,
    );
}

#[test]
fn test_write_parent() {
    let mut parent = Scope::new();
    parent.add_variable("x", Value::Int(5));

    parent.subscope(|s| {
        s.set_variable("x", Value::Int(0)).unwrap();

        assert_eq!(
            s.get_variable("x").expect("Could not find x in child"),
            &Value::Int(0),
        );
    });

    assert_eq!(
        parent.get_variable("x").expect("Could not find x in parent"),
        &Value::Int(0),
    );
}

#[test]
fn set_variable_without_binding_fails_and_binds_nothing() {
    let mut scope = Scope::new();
    assert_eq!(
        scope.set_variable("x", Value::Int(1)),
        Err(EvalError::UndefinedVariable("x".to_string())),
    );
    assert_eq!(scope.get_variable("x"), None);
}

#[test]
fn inner_declaration_shadows_and_ends_with_its_layer() {
    let mut scope = Scope::new();
    scope.add_variable("x", Value::Int(1));
    scope.subscope(|inner| {
        inner.add_variable("x", Value::String("inner".to_string()));
        assert_eq!(inner.clone_variable("x"), Some(Value::String("inner".to_string())));
        inner.set_variable("x", Value::String("changed".to_string())).unwrap();
        assert_eq!(inner.clone_variable("x"), Some(Value::String("changed".to_string())));
    });
    assert_eq!(scope.clone_variable("x"), Some(Value::Int(1)));
}

#[test]
fn subscope_hands_back_what_the_closure_returns() {
    let mut scope = Scope::new();
    scope.add_variable("x", Value::Int(41));
    let seen = scope.subscope(|inner| inner.clone_variable("x"));
    assert_eq!(seen, Some(Value::Int(41)));
}
