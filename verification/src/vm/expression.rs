//! Evaluation of expressions.

use crate::parser::ast::{BinaryVerb, ExpressionNode, SpecExpr, SpecTerm, TermNode};
use crate::vm::error::{EvalError, SpecError};
use crate::vm::scope::{lookup, Layer, Scope};
use crate::vm::value::{value_result_view, SpecValue, Value};
use vstd::prelude::*;

verus! {

/// The value of a literal term; a variable has none.
pub open spec fn literal_value(term: SpecTerm) -> Option<SpecValue> {
    match term {
        SpecTerm::Variable(_) => None,
        SpecTerm::Boolean(b) => Some(SpecValue::Bool(b)),
        SpecTerm::Integer(i) => Some(SpecValue::Int(i)),
        SpecTerm::String(s) => Some(SpecValue::String(s)),
    }
}

/// The result of applying a binary operator to two values.
pub open spec fn apply_verb(verb: BinaryVerb, lhs: SpecValue, rhs: SpecValue) -> Result<
    SpecValue,
    SpecError,
> {
    match verb {
        BinaryVerb::Plus => lhs.add(rhs),
        BinaryVerb::Minus => lhs.sub(rhs),
        BinaryVerb::Compare => lhs.compare(rhs),
    }
}

/// The value of an expression under the given layers.
///
/// A literal is its own value and a variable the value it resolves to. The
/// operands of a binary operation are both evaluated, the left one first, so
/// that a failure of the left operand is the one reported.
pub open spec fn eval_expr(expr: SpecExpr, layers: Seq<Layer>) -> Result<SpecValue, SpecError>
    decreases expr,
{
    match expr {
        SpecExpr::Term(SpecTerm::Variable(name)) => match lookup(layers, name) {
            Some(value) => Ok(value),
            None => Err(SpecError::UndefinedVariable(name)),
        },
        SpecExpr::Term(term) => Ok(literal_value(term).unwrap()),
        SpecExpr::BinaryOperation { verb, lhs, rhs } => match eval_expr(*lhs, layers) {
            Err(error) => Err(error),
            Ok(left) => match eval_expr(*rhs, layers) {
                Err(error) => Err(error),
                Ok(right) => apply_verb(verb, left, right),
            },
        },
    }
}

/// Evaluates `expr` against `scope`.
pub fn run_expression(expr: &ExpressionNode, scope: &Scope) -> (result: Result<Value, EvalError>)
    ensures
        value_result_view(result) == eval_expr(expr@, scope@.layers),
        expr@ matches SpecExpr::Term(term) ==> (literal_value(term) matches Some(value)
            ==> value_result_view(result) == Ok::<SpecValue, SpecError>(value)),
    decreases expr,
{
    match expr {
        ExpressionNode::BinaryOperation { verb, lhs, rhs } => {
            let left = match run_expression(lhs, scope) {
                Ok(value) => value,
                Err(error) => {
                    return Err(error);
                },
            };
            let right = match run_expression(rhs, scope) {
                Ok(value) => value,
                Err(error) => {
                    return Err(error);
                },
            };
            match verb {
                BinaryVerb::Plus => left.add(right),
                BinaryVerb::Minus => left.sub(right),
                BinaryVerb::Compare => left.compare(&right),
            }
        },
        ExpressionNode::Term(term) => match term {
            TermNode::Variable(name) => match scope.clone_variable(name.as_str()) {
                Some(value) => Ok(value),
                None => Err(EvalError::UndefinedVariable(name.clone())),
            },
            TermNode::Boolean(b) => Ok(Value::Bool(*b)),
            TermNode::Integer(i) => Ok(Value::Int(*i)),
            TermNode::String(s) => Ok(Value::String(s.clone())),
        },
    }
}

} // verus!
