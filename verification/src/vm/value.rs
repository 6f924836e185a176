//! Runtime values and the typed operations on them.

use crate::parser::ast::{type_text, BinaryVerb, Type};
use crate::text::{format_integer, integer_text};
use crate::vm::error::{EvalError, SpecError};
use vstd::prelude::*;
use vstd::string::StringExecFns;

verus! {

/// A runtime value. It carries its own type tag and never changes once made.
#[derive(Debug, PartialEq)]
pub enum Value {
    Int(i32),
    String(String),
    Bool(bool),
}

/// The model of a [`Value`].
pub enum SpecValue {
    Int(i32),
    String(Seq<char>),
    Bool(bool),
}

impl View for Value {
    type V = SpecValue;

    open spec fn view(&self) -> SpecValue {
        match self {
            Value::Int(i) => SpecValue::Int(*i),
            Value::String(s) => SpecValue::String(s@),
            Value::Bool(b) => SpecValue::Bool(*b),
        }
    }
}

/// The model of the outcome of an operation that yields a value.
pub open spec fn value_result_view(result: Result<Value, EvalError>) -> Result<
    SpecValue,
    SpecError,
> {
    match result {
        Ok(value) => Ok(value@),
        Err(error) => Err(error@),
    }
}

/// The failure of `op` on operands of the given values' types.
pub open spec fn operator_error(op: BinaryVerb, lhs: SpecValue, rhs: SpecValue) -> SpecError {
    SpecError::OperatorTypeError { op, lhs_type: lhs.ast_type(), rhs_type: rhs.ast_type() }
}

impl SpecValue {
    /// The type tag of the value.
    pub open spec fn ast_type(self) -> Type {
        match self {
            SpecValue::Int(_) => Type::Int,
            SpecValue::String(_) => Type::String,
            SpecValue::Bool(_) => Type::Bool,
        }
    }

    /// The value for a reader: its type, and in parentheses the value as
    /// the language writes it, text without its quotes.
    pub open spec fn display(self) -> Seq<char> {
        type_text(self.ast_type()) + "("@ + match self {
            SpecValue::Int(i) => integer_text(i as int),
            SpecValue::String(s) => s,
            SpecValue::Bool(b) => if b {
                "true"@
            } else {
                "false"@
            },
        } + ")"@
    }

    /// Addition: the two's-complement sum of two integers, the concatenation
    /// of two texts; undefined on every other pair.
    pub open spec fn add(self, rhs: SpecValue) -> Result<SpecValue, SpecError> {
        match (self, rhs) {
            (SpecValue::Int(x), SpecValue::Int(y)) => Ok(SpecValue::Int(x.wrapping_add(y))),
            (SpecValue::String(x), SpecValue::String(y)) => Ok(SpecValue::String(x + y)),
            _ => Err(operator_error(BinaryVerb::Plus, self, rhs)),
        }
    }

    /// Subtraction: the two's-complement difference of two integers;
    /// undefined on every other pair.
    pub open spec fn sub(self, rhs: SpecValue) -> Result<SpecValue, SpecError> {
        match (self, rhs) {
            (SpecValue::Int(x), SpecValue::Int(y)) => Ok(SpecValue::Int(x.wrapping_sub(y))),
            _ => Err(operator_error(BinaryVerb::Minus, self, rhs)),
        }
    }

    /// Comparison: whether two values of one type are equal; undefined on
    /// values of different types.
    pub open spec fn compare(self, other: SpecValue) -> Result<SpecValue, SpecError> {
        if self.ast_type() == other.ast_type() {
            Ok(SpecValue::Bool(self == other))
        } else {
            Err(operator_error(BinaryVerb::Compare, self, other))
        }
    }
}

impl Clone for Value {
    fn clone(&self) -> (res: Self)
        ensures
            res@ == self@,
    {
        match self {
            Value::Int(i) => Value::Int(*i),
            Value::String(s) => Value::String(s.clone()),
            Value::Bool(b) => Value::Bool(*b),
        }
    }
}

impl Value {
    /// The type tag of the value.
    pub fn ast_type(&self) -> (tag: Type)
        ensures
            tag == self@.ast_type(),
    {
        match self {
            Value::Int(_) => Type::Int,
            Value::String(_) => Type::String,
            Value::Bool(_) => Type::Bool,
        }
    }

    /// The value for a reader, as `type(value)`. It is meant for
    /// diagnostics.
    pub fn display(&self) -> (text: String)
        ensures
            text@ == self@.display(),
    {
        let mut text = String::from_str(self.ast_type().display());
        text.append("(");
        match self {
            Value::Int(i) => {
                let digits = format_integer(*i as i64);
                text.append(digits.as_str());
            },
            Value::String(s) => {
                text.append(s.as_str());
            },
            Value::Bool(b) => {
                text.append(if *b {
                    "true"
                } else {
                    "false"
                });
            },
        }
        text.append(")");
        text
    }

    /// Adds two integers, wrapping around at the bounds of `i32`, or
    /// concatenates two texts. Any other pair of operands is an
    /// [`EvalError::OperatorTypeError`] that names both types.
    pub fn add(self, rhs: Value) -> (result: Result<Value, EvalError>)
        ensures
            value_result_view(result) == self@.add(rhs@),
    {
        match (self, rhs) {
            (Value::Int(x), Value::Int(y)) => Ok(Value::Int(x.wrapping_add(y))),
            (Value::String(x), Value::String(y)) => Ok(Value::String(x.concat(y.as_str()))),
            (lhs, rhs) => Err(
                EvalError::OperatorTypeError {
                    op: BinaryVerb::Plus,
                    lhs_type: lhs.ast_type(),
                    rhs_type: rhs.ast_type(),
                },
            ),
        }
    }

    /// Subtracts two integers, wrapping around at the bounds of `i32`. Any
    /// other pair of operands is an [`EvalError::OperatorTypeError`].
    pub fn sub(self, rhs: Value) -> (result: Result<Value, EvalError>)
        ensures
            value_result_view(result) == self@.sub(rhs@),
    {
        match (self, rhs) {
            (Value::Int(x), Value::Int(y)) => Ok(Value::Int(x.wrapping_sub(y))),
            (lhs, rhs) => Err(
                EvalError::OperatorTypeError {
                    op: BinaryVerb::Minus,
                    lhs_type: lhs.ast_type(),
                    rhs_type: rhs.ast_type(),
                },
            ),
        }
    }

    /// Whether two values of the same type are equal, as a boolean value.
    /// Values of different types cannot be compared.
    pub fn compare(&self, other: &Value) -> (result: Result<Value, EvalError>)
        ensures
            value_result_view(result) == self@.compare(other@),
    {
        match (self, other) {
            (Value::Int(x), Value::Int(y)) => Ok(Value::Bool(*x == *y)),
            (Value::String(x), Value::String(y)) => Ok(Value::Bool(*x == *y)),
            (Value::Bool(x), Value::Bool(y)) => Ok(Value::Bool(*x == *y)),
            _ => Err(
                EvalError::OperatorTypeError {
                    op: BinaryVerb::Compare,
                    lhs_type: self.ast_type(),
                    rhs_type: other.ast_type(),
                },
            ),
        }
    }
}

} // verus!
