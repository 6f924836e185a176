use kwlang::parser::ast::{BinaryVerb, ExpressionNode, TermNode, Type};
use kwlang::vm::error::EvalError;
use kwlang::vm::expression::run_expression;
use kwlang::vm::scope::Scope;
use kwlang::vm::value::Value;

fn integer(value: i32) -> ExpressionNode {
    ExpressionNode::Term(TermNode::Integer(value))
}

fn text(value: &str) -> ExpressionNode {
    ExpressionNode::Term(TermNode::String(value.to_string()))
}

fn boolean(value: bool) -> ExpressionNode {
    ExpressionNode::Term(TermNode::Boolean(value))
}

fn variable(name: &str) -> ExpressionNode {
    ExpressionNode::Term(TermNode::Variable(name.to_string()))
}

fn binary(verb: BinaryVerb, lhs: ExpressionNode, rhs: ExpressionNode) -> ExpressionNode {
    ExpressionNode::BinaryOperation { verb, lhs: Box::new(lhs), rhs: Box::new(rhs) }
}

#[test]
fn test_addition_int() {
    let scope = Scope::new();

    let result = run_expression(
        &ExpressionNode::BinaryOperation {
            verb: BinaryVerb::Plus,
            lhs: ExpressionNode::Term(
                TermNode::Integer(3)
            ).into(),
            rhs: ExpressionNode::Term(
                TermNode::Integer(1)
            ).into(),
        },
        &scope,
    );

    assert_eq!(result, Ok(Value::Int(4)));
}

#[test]
fn test_addition_string() {
    let scope = Scope::new();
    let result = run_expression(
        &ExpressionNode::BinaryOperation {
            verb: BinaryVerb::Plus,
            lhs: ExpressionNode::Term(
                TermNode::String("Hello".to_string())
            ).into(),
            rhs: ExpressionNode::Term(
                TermNode::String("World".to_string())
            ).into()
        },
        &scope
    );

    assert_eq!(result, Ok(Value::String("HelloWorld".to_string())));
}

#[test]
fn test_variable() {
    let mut scope = Scope::new();
    scope.add_variable("x", Value::Int(9));

    let result = run_expression(
        &ExpressionNode::Term(
            TermNode::Variable("x".into())
        ),
        &scope,
    );

    assert_eq!(result, Ok(Value::Int(9)));
}

#[test]
fn literals_evaluate_to_themselves() {
    let mut scope = Scope::new();
    scope.add_variable("x", Value::Int(9));
    assert_eq!(run_expression(&integer(-7), &scope), Ok(Value::Int(-7)));
    assert_eq!(run_expression(&integer(i32::MIN), &scope), Ok(Value::Int(i32::MIN)));
    assert_eq!(run_expression(&boolean(false), &scope), Ok(Value::Bool(false)));
    assert_eq!(run_expression(&text(""), &scope), Ok(Value::String(String::new())));
    assert_eq!(run_expression(&text("x"), &scope), Ok(Value::String("x".to_string())));
}

#[test]
fn unbound_variable_is_reported_by_name() {
    let scope = Scope::new();
    assert_eq!(
        run_expression(&variable("missing"), &scope),
        Err(EvalError::UndefinedVariable("missing".to_string())),
    );
}

#[test]
fn subtraction_is_defined_on_integers_only() {
    let scope = Scope::new();
    assert_eq!(run_expression(&binary(BinaryVerb::Minus, integer(3), integer(5)), &scope), Ok(Value::Int(-2)));
    assert_eq!(
        run_expression(&binary(BinaryVerb::Minus, text("a"), text("b")), &scope),
        Err(EvalError::OperatorTypeError {
            op: BinaryVerb::Minus,
            lhs_type: Type::String,
            rhs_type: Type::String,
        }),
    );
}

#[test]
fn addition_rejects_booleans_and_mixed_operands() {
    let scope = Scope::new();
    assert_eq!(
        run_expression(&binary(BinaryVerb::Plus, boolean(true), boolean(true)), &scope),
        Err(EvalError::OperatorTypeError {
            op: BinaryVerb::Plus,
            lhs_type: Type::Bool,
            rhs_type: Type::Bool,
        }),
    );
    assert_eq!(
        run_expression(&binary(BinaryVerb::Plus, integer(1), text("1")), &scope),
        Err(EvalError::OperatorTypeError {
            op: BinaryVerb::Plus,
            lhs_type: Type::Int,
            rhs_type: Type::String,
        }),
    );
}

#[test]
fn integer_arithmetic_wraps_around() {
    let scope = Scope::new();
    assert_eq!(
        run_expression(&binary(BinaryVerb::Plus, integer(i32::MAX), integer(1)), &scope),
        Ok(Value::Int(i32::MIN)),
    );
    assert_eq!(
        run_expression(&binary(BinaryVerb::Minus, integer(i32::MIN), integer(1)), &scope),
        Ok(Value::Int(i32::MAX)),
    );
}

#[test]
fn comparison_is_equality_on_each_type() {
    let scope = Scope::new();
    assert_eq!(
        run_expression(&binary(BinaryVerb::Compare, integer(2), integer(2)), &scope),
        Ok(Value::Bool(true)),
    );
    assert_eq!(
        run_expression(&binary(BinaryVerb::Compare, integer(2), integer(3)), &scope),
        Ok(Value::Bool(false)),
    );
    assert_eq!(
        run_expression(&binary(BinaryVerb::Compare, text("a"), text("a")), &scope),
        Ok(Value::Bool(true)),
    );
    assert_eq!(
        run_expression(&binary(BinaryVerb::Compare, text("a"), text("b")), &scope),
        Ok(Value::Bool(false)),
    );
    assert_eq!(
        run_expression(&binary(BinaryVerb::Compare, boolean(false), boolean(false)), &scope),
        Ok(Value::Bool(true)),
    );
    assert_eq!(
        run_expression(&binary(BinaryVerb::Compare, boolean(true), boolean(false)), &scope),
        Ok(Value::Bool(false)),
    );
    assert_eq!(
        run_expression(&binary(BinaryVerb::Compare, boolean(true), integer(1)), &scope),
        Err(EvalError::OperatorTypeError {
            op: BinaryVerb::Compare,
            lhs_type: Type::Bool,
            rhs_type: Type::Int,
        }),
    );
}

#[test]
fn left_operand_fails_first() {
    let scope = Scope::new();
    assert_eq!(
        run_expression(&binary(BinaryVerb::Plus, variable("a"), variable("b")), &scope),
        Err(EvalError::UndefinedVariable("a".to_string())),
    );
    assert_eq!(
        run_expression(&binary(BinaryVerb::Plus, integer(1), variable("b")), &scope),
        Err(EvalError::UndefinedVariable("b".to_string())),
    );
}

#[test]
fn value_operations_match_the_evaluator() {
    assert_eq!(Value::Int(2).add(Value::Int(3)), Ok(Value::Int(5)));
    assert_eq!(Value::Int(2).sub(Value::Int(3)), Ok(Value::Int(-1)));
    assert_eq!(Value::Int(2).compare(&Value::Int(3)), Ok(Value::Bool(false)));
    assert_eq!(Value::Int(2).ast_type(), Type::Int);
    assert_eq!(Value::Bool(true).ast_type(), Type::Bool);
    assert_eq!(Value::String("s".to_string()).ast_type(), Type::String);
    assert_eq!(Value::String("s".to_string()).clone(), Value::String("s".to_string()));
}
