//! The evaluator: runtime values, the binding environment, and the
//! execution of expressions, statements, functions and whole programs.

pub mod block;
pub mod error;
pub mod expression;
pub mod function;
pub mod laws;
pub mod scope;
pub mod value;

use crate::parser::ast::{Program, SpecFunction, SpecProgram};
use crate::vm::error::{EvalError, SpecError};
use crate::vm::function::invoke;
use crate::vm::laws::lemma_invocation_outcome;
use crate::vm::scope::Scope;
use crate::vm::value::{SpecValue, Value};
use vstd::prelude::*;

verus! {

/// The registry that holds the first `count` functions of `functions`.
/// Where two of them share a name, the later one is the one registered.
pub open spec fn registry(functions: Seq<SpecFunction>, count: int) -> Map<Seq<char>, SpecFunction>
    decreases count,
{
    if count <= 0 {
        Map::empty()
    } else {
        registry(functions, count - 1).insert(functions[count - 1].name, functions[count - 1])
    }
}

/// The exit code of a program: what its `main`, called without arguments,
/// returns, which has to be an integer.
pub open spec fn run_program(program: SpecProgram) -> Result<i32, SpecError> {
    let functions = registry(program.nodes, program.nodes.len() as int);
    if !functions.contains_key("main"@) {
        Err(SpecError::NoMainFunction)
    } else {
        match invoke(functions["main"@], seq![Map::empty()], Seq::empty()).result {
            Ok(Some(SpecValue::Int(code))) => Ok(code),
            Ok(_) => Err(SpecError::InvalidMainSignature),
            Err(error) => Err(error),
        }
    }
}

/// The model of the result of running a program.
pub open spec fn exit_view(result: Result<i32, EvalError>) -> Result<i32, SpecError> {
    match result {
        Ok(code) => Ok(code),
        Err(error) => Err(error@),
    }
}

/// Runs `program`: registers its functions and calls `main` without
/// arguments. The result is the integer that `main` returns.
pub fn run(program: &Program) -> (result: Result<i32, EvalError>)
    ensures
        exit_view(result) == run_program(program@),
{
    let mut scope = Scope::new();
    let mut i: usize = 0;
    while i < program.nodes.len()
        invariant
            i <= program.nodes.len(),
            scope@.layers == seq![Map::<Seq<char>, SpecValue>::empty()],
            scope@.functions == registry(program@.nodes, i as int),
        decreases program.nodes.len() - i,
    {
        assert(program@.nodes[i as int] == program.nodes[i as int]@);
        scope.add_function(&program.nodes[i]);
        i += 1;
    }
    let ghost functions = scope@.functions;
    proof {
        if functions.contains_key("main"@) {
            lemma_invocation_outcome(functions["main"@], seq![Map::empty()], Seq::empty());
        }
    }
    let args: Vec<Value> = Vec::new();
    assert(crate::vm::function::values_view(args@) =~= Seq::<SpecValue>::empty());
    match scope.call_function("main", args) {
        Ok(Some(Value::Int(code))) => Ok(code),
        Ok(_) => Err(EvalError::InvalidMainSignature),
        Err(EvalError::UndefinedFunction(_)) => Err(EvalError::NoMainFunction),
        Err(error) => Err(error),
    }
}

} // verus!
