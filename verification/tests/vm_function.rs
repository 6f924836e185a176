use kwlang::parser::ast::{BlockNode, ExpressionNode, FunctionNode, FunctionParam, TermNode, Type};
use kwlang::vm::error::EvalError;
use kwlang::vm::function::run_function;
use kwlang::vm::scope::Scope;
use kwlang::vm::value::Value;

fn one_int_parameter(return_type: Option<Type>, block: Vec<BlockNode>) -> FunctionNode {
    FunctionNode {
        name: "f".into(),
        parameters: vec![FunctionParam { name: "x".into(), declared_type: Type::Int }],
        return_type,
        block,
    }
}

#[test]
fn test_empty_function() {
    let mut scope = Scope::new();

    run_function(
        &FunctionNode {
            name: "test".into(),
            parameters: vec![],
            return_type: None,
            block: vec![],
        },
        &mut scope,
        vec![],
    ).expect("An empty function should be allowed");
}

#[test]
fn test_parameter_list() {
    let mut scope = Scope::new();

    run_function(
        &FunctionNode {
            name: "test".into(),
            parameters: vec![
                FunctionParam { name: "x".into(), declared_type: Type::Int },
            ],
            return_type: None,
            block: vec![],
        },
        &mut scope,
        vec![
            Value::Int(0),
        ],
    ).expect("Arguments matching parameter list should be allowed");

    run_function(
        &FunctionNode {
            name: "test".into(),
            parameters: vec![
                FunctionParam { name: "x".into(), declared_type: Type::Int },
                FunctionParam { name: "y".into(), declared_type: Type::String },
            ],
            return_type: None,
            block: vec![],
        },
        &mut scope,
        vec![
            Value::Int(0),
            Value::String("test".into())
        ],
    ).expect("Arguments matching parameter list should be allowed");

    run_function(
        &FunctionNode {
            name: "test".into(),
            parameters: vec![
                FunctionParam { name: "x".into(), declared_type: Type::Int },
            ],
            return_type: None,
            block: vec![],
        },
        &mut scope,
        vec![
            Value::Int(0),
            Value::String("test".into())
        ],
    ).expect_err("Extra arguments should not be allowed");

    run_function(
        &FunctionNode {
            name: "test".into(),
            parameters: vec![
                FunctionParam { name: "x".into(), declared_type: Type::Int },
                FunctionParam { name: "y".into(), declared_type: Type::String },
            ],
            return_type: None,
            block: vec![],
        },
        &mut scope,
        vec![
            Value::Int(0),
        ],
    ).expect_err("Too few arguments should not be allowed");

    run_function(
        &FunctionNode {
            name: "test".into(),
            parameters: vec![
                FunctionParam { name: "x".into(), declared_type: Type::Int },
            ],
            return_type: None,
            block: vec![],
        },
        &mut scope,
        vec![
            Value::String("".into()),
        ],
    ).expect_err("Arguments should be required to be of the correct type");
}

#[test]
fn test_return_value_match_return_type() {
    let mut scope = Scope::new();

    run_function(
        &FunctionNode {
            name: "test".into(),
            parameters: vec![],
            return_type: Some(Type::Bool),
            block: vec![
                BlockNode::Return(
                    ExpressionNode::Term(TermNode::Boolean(true))
                )
            ],
        },
        &mut scope,
        vec![],
    ).expect("Function does not accept correct return value");

    run_function(
        &FunctionNode {
            name: "test".into(),
            parameters: vec![],
            return_type: Some(Type::String),
            block: vec![
                BlockNode::Return(
                    ExpressionNode::Term(TermNode::Boolean(true))
                )
            ],
        },
        &mut scope,
        vec![],
    ).expect_err("A function should be required to return the designated return type");

    run_function(
        &FunctionNode {
            name: "test".into(),
            parameters: vec![],
            return_type: None,
            block: vec![
                BlockNode::Return(
                    ExpressionNode::Term(TermNode::Boolean(true))
                )
            ],
        },
        &mut scope,
        vec![],
    ).expect_err("A function should be prohibited from returning a value when no return type is specified");

    run_function(
        &FunctionNode {
            name: "test".into(),
            parameters: vec![],
            return_type: Some(Type::Int),
            block: vec![],
        },
        &mut scope,
        vec![],
    ).expect_err("A function should be prohibited from not returning a value when a return type is specified");
}

#[test]
fn call_without_arguments_is_an_arity_mismatch() {
    let mut scope = Scope::new();
    let function = one_int_parameter(None, vec![]);
    assert_eq!(run_function(&function, &mut scope, vec![]), Err(EvalError::ArityMismatch));
    assert_eq!(scope.get_variable("x"), None);
}

#[test]
fn call_with_string_argument_names_the_parameter() {
    let mut scope = Scope::new();
    let function = one_int_parameter(None, vec![]);
    assert_eq!(
        run_function(&function, &mut scope, vec![Value::String("s".into())]),
        Err(EvalError::ParamTypeMismatch("x".to_string())),
    );
}

#[test]
fn first_mismatching_parameter_is_reported() {
    let mut scope = Scope::new();
    let function = FunctionNode {
        name: "f".into(),
        parameters: vec![
            FunctionParam { name: "a".into(), declared_type: Type::Int },
            FunctionParam { name: "b".into(), declared_type: Type::Bool },
            FunctionParam { name: "c".into(), declared_type: Type::String },
        ],
        return_type: None,
        block: vec![],
    };
    assert_eq!(
        run_function(
            &function,
            &mut scope,
            vec![Value::Int(1), Value::Int(2), Value::Int(3)],
        ),
        Err(EvalError::ParamTypeMismatch("b".to_string())),
    );
}

#[test]
fn parameters_are_visible_in_the_body() {
    let mut scope = Scope::new();
    let function = one_int_parameter(
        Some(Type::Int),
        vec![BlockNode::Return(ExpressionNode::Term(TermNode::Variable("x".into())))],
    );
    assert_eq!(
        run_function(&function, &mut scope, vec![Value::Int(12)]),
        Ok(Some(Value::Int(12))),
    );
}

#[test]
fn return_contract_has_one_failure_per_violation() {
    let returns_true = vec![BlockNode::Return(ExpressionNode::Term(TermNode::Boolean(true)))];
    let function = |return_type: Option<Type>, block: Vec<BlockNode>| FunctionNode {
        name: "f".into(),
        parameters: vec![],
        return_type,
        block,
    };
    let mut scope = Scope::new();
    assert_eq!(
        run_function(&function(Some(Type::Bool), returns_true.clone()), &mut scope, vec![]),
        Ok(Some(Value::Bool(true))),
    );
    assert_eq!(
        run_function(&function(Some(Type::String), returns_true.clone()), &mut scope, vec![]),
        Err(EvalError::ReturnTypeMismatch),
    );
    assert_eq!(
        run_function(&function(None, returns_true.clone()), &mut scope, vec![]),
        Err(EvalError::MissingReturnType),
    );
    assert_eq!(
        run_function(&function(Some(Type::Int), vec![]), &mut scope, vec![]),
        Err(EvalError::ExpectedReturn),
    );
    assert_eq!(run_function(&function(None, vec![]), &mut scope, vec![]), Ok(None));
}

#[test]
fn called_function_sees_nothing_of_its_caller() {
    let mut scope = Scope::new();
    scope.add_variable("secret", Value::Int(1));
    scope.add_function(&FunctionNode {
        name: "peek".into(),
        parameters: vec![],
        return_type: Some(Type::Int),
        block: vec![BlockNode::Return(ExpressionNode::Term(TermNode::Variable("secret".into())))],
    });
    assert_eq!(
        scope.call_function("peek", vec![]),
        Err(EvalError::UndefinedVariable("secret".to_string())),
    );
    assert_eq!(scope.get_variable("secret"), Some(&Value::Int(1)));
}

#[test]
fn call_leaves_the_callers_layers_alone() {
    let mut scope = Scope::new();
    scope.add_variable("x", Value::Int(1));
    scope.add_function(&FunctionNode {
        name: "f".into(),
        parameters: vec![FunctionParam { name: "x".into(), declared_type: Type::Int }],
        return_type: Some(Type::Int),
        block: vec![
            BlockNode::Assignment {
                lhs: "x".into(),
                rhs: ExpressionNode::Term(TermNode::Integer(5)),
            },
            BlockNode::Return(ExpressionNode::Term(TermNode::Variable("x".into()))),
        ],
    });
    assert_eq!(scope.call_function("f", vec![Value::Int(2)]), Ok(Some(Value::Int(5))));
    assert_eq!(scope.get_variable("x"), Some(&Value::Int(1)));
}

#[test]
fn call_of_unregistered_function_fails() {
    let mut scope = Scope::new();
    assert_eq!(
        scope.call_function("nothing", vec![]),
        Err(EvalError::UndefinedFunction("nothing".to_string())),
    );
}

#[test]
fn later_registration_replaces_earlier() {
    let returning = |value: i32| FunctionNode {
        name: "f".into(),
        parameters: vec![],
        return_type: Some(Type::Int),
        block: vec![BlockNode::Return(ExpressionNode::Term(TermNode::Integer(value)))],
    };
    let mut scope = Scope::new();
    scope.add_function(&returning(1));
    scope.add_function(&returning(2));
    assert_eq!(scope.call_function("f", vec![]), Ok(Some(Value::Int(2))));
}
