//! Invocation of a function: binding arguments, running the body, and
//! holding the result to the declared return type.

use crate::parser::ast::{FunctionNode, SpecFunction, SpecParam, Type};
use crate::vm::block::{exec_stmts, return_view, run_block, Outcome};
use crate::vm::error::{EvalError, SpecError};
use crate::vm::scope::{declare, Layer, Scope};
use crate::vm::value::{SpecValue, Value};
use vstd::prelude::*;

verus! {

/// The models of a list of values, in order.
pub open spec fn values_view(values: Seq<Value>) -> Seq<SpecValue> {
    values.map_values(|value: Value| value@)
}

/// Binding the arguments to the parameters from index `from` on, each in
/// the innermost layer. Binding stops at the first argument whose type is
/// not that of its parameter.
pub open spec fn bind_params(
    params: Seq<SpecParam>,
    args: Seq<SpecValue>,
    from: int,
    layers: Seq<Layer>,
) -> Outcome
    decreases params.len() - from,
{
    if from < 0 || from >= params.len() || from >= args.len() {
        Outcome { layers, result: Ok(None) }
    } else if args[from].ast_type() != params[from].declared_type {
        Outcome { layers, result: Err(SpecError::ParamTypeMismatch(params[from].name)) }
    } else {
        bind_params(params, args, from + 1, declare(layers, params[from].name, args[from]))
    }
}

/// What a function's body returned, held to the declared return type.
pub open spec fn check_return(return_type: Option<Type>, returned: Option<SpecValue>) -> Result<
    Option<SpecValue>,
    SpecError,
> {
    match (returned, return_type) {
        (Some(_), None) => Err(SpecError::MissingReturnType),
        (Some(value), Some(declared)) => if value.ast_type() == declared {
            Ok(Some(value))
        } else {
            Err(SpecError::ReturnTypeMismatch)
        },
        (None, None) => Ok(None),
        (None, Some(_)) => Err(SpecError::ExpectedReturn),
    }
}

/// Invoking `function` on `args` in the innermost layer of `layers`.
pub open spec fn invoke(function: SpecFunction, layers: Seq<Layer>, args: Seq<SpecValue>) -> Outcome {
    if args.len() != function.parameters.len() {
        Outcome { layers, result: Err(SpecError::ArityMismatch) }
    } else {
        let bound = bind_params(function.parameters, args, 0, layers);
        if bound.result is Err {
            bound
        } else {
            let body = exec_stmts(function.block, 0, bound.layers);
            match body.result {
                Err(_) => body,
                Ok(returned) => Outcome {
                    layers: body.layers,
                    result: check_return(function.return_type, returned),
                },
            }
        }
    }
}

/// Calling the function registered under `name`, in a frame stack of its
/// own: the callee sees its parameters and what it declares, nothing of
/// its caller.
pub open spec fn call(
    functions: Map<Seq<char>, SpecFunction>,
    name: Seq<char>,
    args: Seq<SpecValue>,
) -> Result<Option<SpecValue>, SpecError> {
    if functions.contains_key(name) {
        invoke(functions[name], seq![Map::empty()], args).result
    } else {
        Err(SpecError::UndefinedFunction(name))
    }
}

/// Invokes `function` on `args`: binds each argument to its parameter in
/// the innermost layer of `scope`, executes the body there, and holds what
/// the body returned to the declared return type.
pub fn run_function(function: &FunctionNode, scope: &mut Scope, args: Vec<Value>) -> (result:
    Result<Option<Value>, EvalError>)
    requires
        old(scope).wf(),
    ensures
        final(scope)@.layers == invoke(function@, old(scope)@.layers, values_view(args@)).layers,
        return_view(result) == invoke(function@, old(scope)@.layers, values_view(args@)).result,
        final(scope)@.layers.len() == old(scope)@.layers.len(),
        final(scope)@.functions == old(scope)@.functions,
{
    if function.parameters.len() != args.len() {
        return Err(EvalError::ArityMismatch);
    }
    let ghost params = function@.parameters;
    let ghost given = values_view(args@);
    let mut i: usize = 0;
    while i < function.parameters.len()
        invariant
            i <= function.parameters.len(),
            function.parameters.len() == args.len(),
            params == function@.parameters,
            given == values_view(args@),
            scope.wf(),
            scope@.layers.len() == old(scope)@.layers.len(),
            scope@.functions == old(scope)@.functions,
            bind_params(params, given, i as int, scope@.layers) == bind_params(
                params,
                given,
                0,
                old(scope)@.layers,
            ),
        decreases function.parameters.len() - i,
    {
        let param = &function.parameters[i];
        let value = args[i].clone();
        assert(params[i as int] == param@);
        assert(given[i as int] == value@);
        if value.ast_type() != param.declared_type {
            return Err(EvalError::ParamTypeMismatch(param.name.clone()));
        }
        scope.add_variable(param.name.as_str(), value);
        i += 1;
    }
    match run_block(&function.block, scope) {
        Err(error) => Err(error),
        Ok(Some(value)) => match function.return_type {
            Some(declared) => if value.ast_type() == declared {
                Ok(Some(value))
            } else {
                Err(EvalError::ReturnTypeMismatch)
            },
            None => Err(EvalError::MissingReturnType),
        },
        Ok(None) => if function.return_type.is_none() {
            Ok(None)
        } else {
            Err(EvalError::ExpectedReturn)
        },
    }
}

} // verus!
