use kwlang::parser::ast::{BinaryVerb, BlockNode, ExpressionNode, TermNode, Type};
use kwlang::vm::block::run_block;
use kwlang::vm::error::{EvalError, MismatchContext};
use kwlang::vm::scope::Scope;
use kwlang::vm::value::Value;

fn integer(value: i32) -> ExpressionNode {
    ExpressionNode::Term(TermNode::Integer(value))
}

fn variable(name: &str) -> ExpressionNode {
    ExpressionNode::Term(TermNode::Variable(name.to_string()))
}

fn define(name: &str, declared_type: Type, value: ExpressionNode) -> BlockNode {
    BlockNode::VariableDefinition { name: name.to_string(), declared_type, value }
}

fn assign_to(name: &str, value: ExpressionNode) -> BlockNode {
    BlockNode::Assignment { lhs: name.to_string(), rhs: value }
}

#[test]
fn test_variable_definition() {
    let mut scope = Scope::new();

    let result = run_block(
        &vec![
            BlockNode::VariableDefinition {
                name: "x".into(),
                declared_type: Type::Int,
                value: ExpressionNode::Term(TermNode::Integer(5)),
            },
            BlockNode::Return(
                ExpressionNode::Term(TermNode::Variable("x".into()))
            )
        ],
        &mut scope,
    ).expect("Error while defining simple variable");

    assert_eq!(result, Some(Value::Int(5)));

    run_block(
        &vec![
            BlockNode::VariableDefinition {
                name: "x".into(),
                declared_type: Type::Int,
                value: ExpressionNode::Term(TermNode::String("test".into())),
            },
            BlockNode::Return(
                ExpressionNode::Term(TermNode::Variable("x".into()))
            )
        ],
        &mut scope,
    ).expect_err("The value of the variable should be required to be int");
}

#[test]
fn test_variable_assignment() {
    let mut scope = Scope::new();

    let result = run_block(
        &vec![
            BlockNode::VariableDefinition {
                name: "x".into(),
                declared_type: Type::Int,
                value: ExpressionNode::Term(TermNode::Integer(3)),
            },
            BlockNode::Assignment {
                lhs: "x".into(),
                rhs: ExpressionNode::Term(TermNode::Integer(5)),
            },
            BlockNode::Return(
                ExpressionNode::Term(TermNode::Variable("x".into()))
            )
        ],
        &mut scope,
    ).expect("Error with assignment");

    assert_eq!(result, Some(Value::Int(5)));
}

#[test]
fn test_simple_nested_block() {
    let mut scope = Scope::new();

    let result = run_block(
        &vec![
            BlockNode::Block(vec![]),
        ],
        &mut scope,
    ).expect("Error with nested block");

    assert_eq!(result, None)
}

#[test]
fn test_complex_nested_block() {
    let mut scope = Scope::new();

    let result = run_block(
        &vec![
            BlockNode::VariableDefinition {
                name: "x".into(),
                declared_type: Type::Int,
                value: ExpressionNode::Term(TermNode::Integer(3)),
            },
            BlockNode::Block(vec![
                BlockNode::VariableDefinition {
                    name: "y".into(),
                    declared_type: Type::Int,
                    value: ExpressionNode::Term(TermNode::Variable("x".to_string())),
                },
            ])
        ],
        &mut scope,
    ).expect("Error with nested block");

    assert_eq!(result, None)
}

#[test]
fn test_return_from_nested_block() {
    let mut scope = Scope::new();

    let result = run_block(
        &vec![
            BlockNode::Block(vec![
                BlockNode::Return(
                    ExpressionNode::Term(TermNode::Integer(1))
                )
            ]),
            BlockNode::Return(
                ExpressionNode::Term(TermNode::Integer(2))
            )
        ],
        &mut scope,
    ).expect("Error with nested block");

    assert_eq!(result, Some(Value::Int(1)))
}

#[test]
fn test_if_statement() {
    let mut scope = Scope::new();

    let result = run_block(
        &vec![
            BlockNode::IfStatement {
                condition: ExpressionNode::Term(TermNode::Boolean(true)),
                block: vec![
                    BlockNode::Return(
                        ExpressionNode::Term(TermNode::Integer(2))
                    ),
                ],
            },
            BlockNode::Return(
                ExpressionNode::Term(TermNode::Integer(0))
            ),
        ],
        &mut scope,
    ).expect("Error with nested block");

    assert_eq!(result, Some(Value::Int(2)))
}

#[test]
fn test_complex_if() {
    let mut scope = Scope::new();

    let result = run_block(
        &vec![
            BlockNode::VariableDefinition {
                name: "x".into(),
                declared_type: Type::Int,
                value: ExpressionNode::Term(
                    TermNode::Integer(0)
                ),
            },
            BlockNode::IfStatement {
                condition: ExpressionNode::BinaryOperation {
                    verb: BinaryVerb::Compare,
                    lhs: Box::new(ExpressionNode::Term(TermNode::Variable("x".into()))),
                    rhs: Box::new(ExpressionNode::Term(TermNode::Integer(0))),
                },
                block: vec![
                    BlockNode::Assignment {
                        lhs: "x".into(),
                        rhs: ExpressionNode::Term(TermNode::Integer(5)),
                    }
                ],
            },
            BlockNode::Return(
                ExpressionNode::Term(TermNode::Variable("x".into()))
            ),
        ],
        &mut scope,
    ).expect("Error with nested block");

    assert_eq!(result, Some(Value::Int(5)))
}

#[test]
fn assignment_in_nested_block_changes_the_outer_binding() {
    let mut scope = Scope::new();
    let result = run_block(
        &vec![
            define("x", Type::Int, integer(1)),
            BlockNode::Block(vec![assign_to("x", integer(2))]),
        ],
        &mut scope,
    );
    assert_eq!(result, Ok(None));
    assert_eq!(scope.get_variable("x"), Some(&Value::Int(2)));
}

#[test]
fn return_propagates_through_double_nesting() {
    let mut scope = Scope::new();
    let result = run_block(
        &vec![
            define("x", Type::Int, integer(7)),
            BlockNode::Block(vec![
                BlockNode::IfStatement {
                    condition: ExpressionNode::Term(TermNode::Boolean(true)),
                    block: vec![
                        BlockNode::Return(variable("x")),
                        assign_to("x", integer(8)),
                    ],
                },
                assign_to("x", integer(9)),
            ]),
            assign_to("x", integer(10)),
            BlockNode::Return(integer(0)),
        ],
        &mut scope,
    );
    assert_eq!(result, Ok(Some(Value::Int(7))));
    assert_eq!(scope.get_variable("x"), Some(&Value::Int(7)));
}

#[test]
fn false_condition_skips_the_body() {
    let mut scope = Scope::new();
    let result = run_block(
        &vec![
            BlockNode::IfStatement {
                condition: ExpressionNode::Term(TermNode::Boolean(false)),
                block: vec![BlockNode::Return(integer(1))],
            },
            BlockNode::Return(integer(2)),
        ],
        &mut scope,
    );
    assert_eq!(result, Ok(Some(Value::Int(2))));
}

#[test]
fn condition_must_be_boolean() {
    let mut scope = Scope::new();
    let result = run_block(
        &vec![BlockNode::IfStatement { condition: integer(1), block: vec![] }],
        &mut scope,
    );
    assert_eq!(
        result,
        Err(EvalError::TypeMismatch {
            expected: Type::Bool,
            actual: Type::Int,
            context: MismatchContext::Condition,
        }),
    );
}

#[test]
fn declaration_of_visible_name_is_a_shadow_error() {
    let mut scope = Scope::new();
    let same_layer = run_block(
        &vec![define("x", Type::Int, integer(1)), define("x", Type::Int, integer(2))],
        &mut scope,
    );
    assert_eq!(same_layer, Err(EvalError::ShadowError("x".to_string())));
    assert_eq!(scope.get_variable("x"), Some(&Value::Int(1)));

    let mut scope = Scope::new();
    let outer_layer = run_block(
        &vec![
            define("x", Type::Int, integer(1)),
            BlockNode::Block(vec![define("x", Type::Int, integer(2))]),
        ],
        &mut scope,
    );
    assert_eq!(outer_layer, Err(EvalError::ShadowError("x".to_string())));
}

#[test]
fn declaration_and_assignment_check_types() {
    let mut scope = Scope::new();
    assert_eq!(
        run_block(
            &vec![define("x", Type::Int, ExpressionNode::Term(TermNode::String("s".into())))],
            &mut scope,
        ),
        Err(EvalError::TypeMismatch {
            expected: Type::Int,
            actual: Type::String,
            context: MismatchContext::Declaration,
        }),
    );
    assert_eq!(scope.get_variable("x"), None);
    assert_eq!(
        run_block(
            &vec![
                define("x", Type::Int, integer(1)),
                assign_to("x", ExpressionNode::Term(TermNode::Boolean(true))),
            ],
            &mut scope,
        ),
        Err(EvalError::TypeMismatch {
            expected: Type::Int,
            actual: Type::Bool,
            context: MismatchContext::Assignment,
        }),
    );
    assert_eq!(scope.get_variable("x"), Some(&Value::Int(1)));
}

#[test]
fn assignment_to_unbound_name_fails() {
    let mut scope = Scope::new();
    assert_eq!(
        run_block(&vec![assign_to("x", integer(1))], &mut scope),
        Err(EvalError::UndefinedVariable("x".to_string())),
    );
}

#[test]
fn block_local_variable_ends_with_its_block() {
    let mut scope = Scope::new();
    let result = run_block(
        &vec![
            BlockNode::Block(vec![define("y", Type::Int, integer(1))]),
            BlockNode::Return(variable("y")),
        ],
        &mut scope,
    );
    assert_eq!(result, Err(EvalError::UndefinedVariable("y".to_string())));
}

#[test]
fn failure_inside_nested_block_closes_its_layer() {
    let mut scope = Scope::new();
    let result = run_block(
        &vec![BlockNode::Block(vec![
            define("y", Type::Int, integer(1)),
            BlockNode::Expression(variable("missing")),
        ])],
        &mut scope,
    );
    assert_eq!(result, Err(EvalError::UndefinedVariable("missing".to_string())));
    assert_eq!(scope.get_variable("y"), None);
    scope.add_variable("z", Value::Int(3));
    assert_eq!(scope.get_variable("z"), Some(&Value::Int(3)));
}

#[test]
fn expression_statement_discards_its_value() {
    let mut scope = Scope::new();
    assert_eq!(run_block(&vec![BlockNode::Expression(integer(1))], &mut scope), Ok(None));
}
