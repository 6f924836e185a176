//! Execution of statement lists.

use crate::parser::ast::{BlockNode, SpecStmt, Type, stmts_view};
use crate::vm::error::{EvalError, MismatchContext, SpecError};
use crate::vm::expression::{eval_expr, run_expression};
use crate::vm::scope::{assign, declare, lookup, Layer, Scope};
use crate::vm::value::{SpecValue, Value};
use vstd::prelude::*;

verus! {

/// What executing statements leaves behind: the layers as they stand
/// afterwards, and either the value returned, if any, or the failure.
pub struct Outcome {
    pub layers: Seq<Layer>,
    pub result: Result<Option<SpecValue>, SpecError>,
}

/// The model of the result of executing statements.
pub open spec fn return_view(result: Result<Option<Value>, EvalError>) -> Result<
    Option<SpecValue>,
    SpecError,
> {
    match result {
        Ok(Some(value)) => Ok(Some(value@)),
        Ok(None) => Ok(None),
        Err(error) => Err(error@),
    }
}

/// Executing `body` in a fresh innermost layer, which is closed again
/// however the body ends.
pub open spec fn exec_nested(body: Seq<SpecStmt>, layers: Seq<Layer>) -> Outcome
    decreases body, body.len() + 1,
{
    let inner = exec_stmts(body, 0, layers.push(Map::empty()));
    Outcome { layers: inner.layers.drop_last(), result: inner.result }
}

/// Executing one statement.
///
/// A failure leaves the layers as they were when it was detected: what
/// earlier statements did is not undone.
pub open spec fn exec_stmt(stmt: SpecStmt, layers: Seq<Layer>) -> Outcome
    decreases stmt, 0nat,
{
    match stmt {
        SpecStmt::VariableDefinition { name, declared_type, value } => {
            if lookup(layers, name) is Some {
                Outcome { layers, result: Err(SpecError::ShadowError(name)) }
            } else {
                match eval_expr(value, layers) {
                    Err(error) => Outcome { layers, result: Err(error) },
                    Ok(v) => if v.ast_type() != declared_type {
                        Outcome {
                            layers,
                            result: Err(
                                SpecError::TypeMismatch {
                                    expected: declared_type,
                                    actual: v.ast_type(),
                                    context: MismatchContext::Declaration,
                                },
                            ),
                        }
                    } else {
                        Outcome { layers: declare(layers, name, v), result: Ok(None) }
                    },
                }
            }
        },
        SpecStmt::Assignment { lhs, rhs } => match lookup(layers, lhs) {
            None => Outcome { layers, result: Err(SpecError::UndefinedVariable(lhs)) },
            Some(current) => match eval_expr(rhs, layers) {
                Err(error) => Outcome { layers, result: Err(error) },
                Ok(v) => if v.ast_type() != current.ast_type() {
                    Outcome {
                        layers,
                        result: Err(
                            SpecError::TypeMismatch {
                                expected: current.ast_type(),
                                actual: v.ast_type(),
                                context: MismatchContext::Assignment,
                            },
                        ),
                    }
                } else {
                    Outcome { layers: assign(layers, lhs, v), result: Ok(None) }
                },
            },
        },
        SpecStmt::Expression(expr) => match eval_expr(expr, layers) {
            Err(error) => Outcome { layers, result: Err(error) },
            Ok(_) => Outcome { layers, result: Ok(None) },
        },
        SpecStmt::Block(body) => exec_nested(body, layers),
        SpecStmt::IfStatement { condition, block } => match eval_expr(condition, layers) {
            Err(error) => Outcome { layers, result: Err(error) },
            Ok(SpecValue::Bool(true)) => exec_nested(block, layers),
            Ok(SpecValue::Bool(false)) => Outcome { layers, result: Ok(None) },
            Ok(other) => Outcome {
                layers,
                result: Err(
                    SpecError::TypeMismatch {
                        expected: Type::Bool,
                        actual: other.ast_type(),
                        context: MismatchContext::Condition,
                    },
                ),
            },
        },
        SpecStmt::Return(expr) => match eval_expr(expr, layers) {
            Err(error) => Outcome { layers, result: Err(error) },
            Ok(v) => Outcome { layers, result: Ok(Some(v)) },
        },
    }
}

/// Executing the statements of `stmts` from index `from` on, in order.
///
/// Execution stops at the first statement that fails or returns a value,
/// and that statement's outcome is the outcome of the list. A list that
/// runs to its end returns nothing.
pub open spec fn exec_stmts(stmts: Seq<SpecStmt>, from: int, layers: Seq<Layer>) -> Outcome
    decreases stmts, stmts.len() - from,
{
    if from < 0 || from >= stmts.len() {
        Outcome { layers, result: Ok(None) }
    } else {
        let step = exec_stmt(stmts[from], layers);
        match step.result {
            Ok(None) => exec_stmts(stmts, from + 1, step.layers),
            _ => step,
        }
    }
}

/// Executes `block` in the innermost layer of `scope`.
///
/// The number of layers is the same afterwards, also after a failure: each
/// layer opened for a nested block or a conditional has been closed again.
pub fn run_block(block: &Vec<BlockNode>, scope: &mut Scope) -> (result: Result<
    Option<Value>,
    EvalError,
>)
    requires
        old(scope).wf(),
    ensures
        final(scope)@.layers == exec_stmts(stmts_view(block@), 0, old(scope)@.layers).layers,
        return_view(result) == exec_stmts(stmts_view(block@), 0, old(scope)@.layers).result,
        final(scope)@.layers.len() == old(scope)@.layers.len(),
        final(scope)@.functions == old(scope)@.functions,
    decreases block,
{
    let ghost stmts = stmts_view(block@);
    let mut i: usize = 0;
    while i < block.len()
        invariant
            i <= block.len(),
            stmts == stmts_view(block@),
            scope@.functions == old(scope)@.functions,
            scope@.layers.len() == old(scope)@.layers.len(),
            scope.wf(),
            exec_stmts(stmts, i as int, scope@.layers) == exec_stmts(
                stmts,
                0,
                old(scope)@.layers,
            ),
        decreases block.len() - i,
    {
        let ghost step = exec_stmt(block[i as int]@, scope@.layers);
        assert(stmts[i as int] == block[i as int]@);
        match &block[i] {
            BlockNode::VariableDefinition { name, declared_type, value } => {
                if scope.get_variable(name.as_str()).is_some() {
                    return Err(EvalError::ShadowError(name.clone()));
                }
                let v = match run_expression(value, scope) {
                    Ok(v) => v,
                    Err(error) => {
                        return Err(error);
                    },
                };
                let actual = v.ast_type();
                if actual != *declared_type {
                    return Err(
                        EvalError::TypeMismatch {
                            expected: *declared_type,
                            actual,
                            context: MismatchContext::Declaration,
                        },
                    );
                }
                scope.add_variable(name.as_str(), v);
            },
            BlockNode::Assignment { lhs, rhs } => {
                let expected = match scope.get_variable(lhs.as_str()) {
                    Some(current) => current.ast_type(),
                    None => {
                        return Err(EvalError::UndefinedVariable(lhs.clone()));
                    },
                };
                let v = match run_expression(rhs, scope) {
                    Ok(v) => v,
                    Err(error) => {
                        return Err(error);
                    },
                };
                let actual = v.ast_type();
                if actual != expected {
                    return Err(
                        EvalError::TypeMismatch {
                            expected,
                            actual,
                            context: MismatchContext::Assignment,
                        },
                    );
                }
                match scope.set_variable(lhs.as_str(), v) {
                    Ok(_) => {},
                    Err(error) => {
                        return Err(error);
                    },
                }
            },
            BlockNode::Expression(expr) => {
                match run_expression(expr, scope) {
                    Ok(_) => {},
                    Err(error) => {
                        return Err(error);
                    },
                }
            },
            BlockNode::IfStatement { condition, block: body } => {
                let taken = match run_expression(condition, scope) {
                    Ok(Value::Bool(taken)) => taken,
                    Ok(other) => {
                        return Err(
                            EvalError::TypeMismatch {
                                expected: Type::Bool,
                                actual: other.ast_type(),
                                context: MismatchContext::Condition,
                            },
                        );
                    },
                    Err(error) => {
                        return Err(error);
                    },
                };
                if taken {
                    scope.push_layer();
                    let nested = run_block(body, scope);
                    scope.pop_layer();
                    match nested {
                        Ok(None) => {},
                        other => {
                            return other;
                        },
                    }
                }
            },
            BlockNode::Block(body) => {
                scope.push_layer();
                let nested = run_block(body, scope);
                scope.pop_layer();
                match nested {
                    Ok(None) => {},
                    other => {
                        return other;
                    },
                }
            },
            BlockNode::Return(expr) => {
                return match run_expression(expr, scope) {
                    Ok(v) => Ok(Some(v)),
                    Err(error) => Err(error),
                };
            },
        }
        assert(step == Outcome { layers: scope@.layers, result: Ok(None) });
        i += 1;
    }
    Ok(None)
}

} // verus!
