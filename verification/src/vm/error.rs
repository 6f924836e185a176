//! The ways in which evaluating a program can fail.

use crate::parser::ast::{BinaryVerb, Type};
use vstd::prelude::*;

verus! {

/// Where a [`EvalError::TypeMismatch`] was detected.
#[derive(Debug, PartialEq, Eq, Clone, Copy, Structural)]
pub enum MismatchContext {
    /// The initial value of a declaration does not have the declared type.
    Declaration,
    /// The assigned value does not have the type of the value it replaces.
    Assignment,
    /// The condition of a conditional is not a boolean.
    Condition,
}

/// An evaluation failure. Every failure aborts the run.
#[derive(Debug, PartialEq)]
pub enum EvalError {
    /// A variable was read or assigned that no visible layer binds.
    UndefinedVariable(String),
    /// A function was called that was never registered.
    UndefinedFunction(String),
    /// A declaration names a variable that is already visible.
    ShadowError(String),
    /// A value does not have the type its context asks for.
    TypeMismatch { expected: Type, actual: Type, context: MismatchContext },
    /// A binary operator was applied to operands it is not defined on.
    OperatorTypeError { op: BinaryVerb, lhs_type: Type, rhs_type: Type },
    /// A call passes a number of arguments other than the number of parameters.
    ArityMismatch,
    /// The argument for the named parameter does not have the parameter's type.
    ParamTypeMismatch(String),
    /// A function without a declared return type returned a value.
    MissingReturnType,
    /// A function returned a value that is not of its declared return type.
    ReturnTypeMismatch,
    /// A function with a declared return type finished without returning.
    ExpectedReturn,
    /// The program has no function named `main`.
    NoMainFunction,
    /// `main` did not produce an integer.
    InvalidMainSignature,
}

/// The model of an [`EvalError`]: names are sequences of characters.
pub enum SpecError {
    UndefinedVariable(Seq<char>),
    UndefinedFunction(Seq<char>),
    ShadowError(Seq<char>),
    TypeMismatch { expected: Type, actual: Type, context: MismatchContext },
    OperatorTypeError { op: BinaryVerb, lhs_type: Type, rhs_type: Type },
    ArityMismatch,
    ParamTypeMismatch(Seq<char>),
    MissingReturnType,
    ReturnTypeMismatch,
    ExpectedReturn,
    NoMainFunction,
    InvalidMainSignature,
}

impl View for EvalError {
    type V = SpecError;

    open spec fn view(&self) -> SpecError {
        match self {
            EvalError::UndefinedVariable(name) => SpecError::UndefinedVariable(name@),
            EvalError::UndefinedFunction(name) => SpecError::UndefinedFunction(name@),
            EvalError::ShadowError(name) => SpecError::ShadowError(name@),
            EvalError::TypeMismatch { expected, actual, context } => SpecError::TypeMismatch {
                expected: *expected,
                actual: *actual,
                context: *context,
            },
            EvalError::OperatorTypeError { op, lhs_type, rhs_type } => SpecError::OperatorTypeError {
                op: *op,
                lhs_type: *lhs_type,
                rhs_type: *rhs_type,
            },
            EvalError::ArityMismatch => SpecError::ArityMismatch,
            EvalError::ParamTypeMismatch(name) => SpecError::ParamTypeMismatch(name@),
            EvalError::MissingReturnType => SpecError::MissingReturnType,
            EvalError::ReturnTypeMismatch => SpecError::ReturnTypeMismatch,
            EvalError::ExpectedReturn => SpecError::ExpectedReturn,
            EvalError::NoMainFunction => SpecError::NoMainFunction,
            EvalError::InvalidMainSignature => SpecError::InvalidMainSignature,
        }
    }
}

} // verus!
