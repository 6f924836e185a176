//! The assembly text of expressions.

use crate::compiler::stack::Stack;
use crate::parser::ast::{ExpressionNode, SpecExpr, SpecTerm, TermNode};
use crate::text::{format_integer, integer_text};
use vstd::pervasive::unreached;
use vstd::prelude::*;
use vstd::string::StringExecFns;

verus! {

/// Whether the backend can compile `expr`. So far it compiles integer
/// literals and nothing else.
pub open spec fn is_supported_expr(expr: SpecExpr) -> bool {
    expr matches SpecExpr::Term(SpecTerm::Integer(_))
}

/// The instruction that loads the integer `value` into `t0`.
pub open spec fn load_text(value: i32) -> Seq<char> {
    "    li      t0, "@ + integer_text(value as int) + " # Load term "@ + integer_text(
        value as int,
    ) + "\n"@
}

/// The assembly text of an expression: what leaves its value in `t0`.
pub open spec fn expr_text(expr: SpecExpr) -> Seq<char> {
    match expr {
        SpecExpr::Term(SpecTerm::Integer(value)) => load_text(value),
        _ => Seq::empty(),
    }
}

/// Whether the backend can compile `expression`.
pub fn supports_expression(expression: &ExpressionNode) -> (supported: bool)
    ensures
        supported == is_supported_expr(expression@),
{
    match expression {
        ExpressionNode::Term(TermNode::Integer(_)) => true,
        _ => false,
    }
}

/// Compiles `expression` to assembly that leaves its value in `t0`.
pub fn compile_expression(expression: &ExpressionNode, stack: &Stack) -> (result: Result<
    String,
    String,
>)
    requires
        is_supported_expr(expression@),
    ensures
        result matches Ok(text) && text@ == expr_text(expression@),
{
    match expression {
        ExpressionNode::Term(TermNode::Integer(value)) => {
            let digits = format_integer(*value as i64);
            let mut text = String::from_str("    li      t0, ");
            text.append(digits.as_str());
            text.append(" # Load term ");
            text.append(digits.as_str());
            text.append("\n");
            Ok(text)
        },
        _ => unreached(),
    }
}

} // verus!
