//! The canonical text of a syntax tree: one way to write each program,
//! with single spaces between the tokens of a statement.
//!
//! The text is the counterpart of the grammar. The laws of this crate
//! state that the grammar reads each well-formed tree back from its text.

use crate::parser::ast::{
    type_text, BinaryVerb, SpecExpr, SpecFunction, SpecParam, SpecProgram, SpecStmt, SpecTerm, Type,
};
use crate::parser::common::is_reserved;
use crate::parser::lexer::{in_class, is_name_start, CharClass};
use crate::text::integer_text;
use vstd::prelude::*;

verus! {

/// Whether `word` can name a variable, a parameter or a function: a
/// letter or an underscore, then letters, digits and underscores, and
/// not a reserved word.
pub open spec fn is_name(word: Seq<char>) -> bool {
    &&& word.len() >= 1
    &&& is_name_start(word[0])
    &&& forall|i: int| 0 <= i < word.len() ==> in_class(CharClass::Name, #[trigger] word[i])
    &&& !is_reserved(word)
}

/// Whether `expr` can be written: its variables have names, and its text
/// literals hold no double quote.
pub open spec fn is_writable_expr(expr: SpecExpr) -> bool
    decreases expr,
{
    match expr {
        SpecExpr::Term(SpecTerm::Variable(name)) => is_name(name),
        SpecExpr::Term(SpecTerm::String(text)) => forall|i: int|
            0 <= i < text.len() ==> #[trigger] text[i] != '"',
        SpecExpr::Term(_) => true,
        SpecExpr::BinaryOperation { verb, lhs, rhs } => is_writable_expr(*lhs) && is_writable_expr(
            *rhs,
        ),
    }
}

/// The text of an operator.
pub open spec fn verb_source(verb: BinaryVerb) -> Seq<char> {
    match verb {
        BinaryVerb::Plus => seq!['+'],
        BinaryVerb::Minus => seq!['-'],
        BinaryVerb::Compare => seq!['=', '='],
    }
}

/// The text of an expression. A right operand that is itself an operation
/// stands in parentheses; a left operand never needs them.
pub open spec fn expr_source(expr: SpecExpr) -> Seq<char>
    decreases expr,
{
    match expr {
        SpecExpr::Term(SpecTerm::Variable(name)) => name,
        SpecExpr::Term(SpecTerm::Boolean(value)) => if value {
            "true"@
        } else {
            "false"@
        },
        SpecExpr::Term(SpecTerm::Integer(value)) => integer_text(value as int),
        SpecExpr::Term(SpecTerm::String(text)) => seq!['"'] + text + seq!['"'],
        SpecExpr::BinaryOperation { verb, lhs, rhs } => expr_source(*lhs) + seq![' ']
            + verb_source(verb) + seq![' '] + if *rhs is BinaryOperation {
            seq!['('] + expr_source(*rhs) + seq![')']
        } else {
            expr_source(*rhs)
        },
    }
}

/// Whether `stmt` can be written: its names are names, and its
/// expressions and the statements inside it can be written.
pub open spec fn is_writable_stmt(stmt: SpecStmt) -> bool
    decreases stmt, 0nat,
{
    match stmt {
        SpecStmt::VariableDefinition { name, declared_type, value } => is_name(name)
            && is_writable_expr(value),
        SpecStmt::Assignment { lhs, rhs } => is_name(lhs) && is_writable_expr(rhs),
        SpecStmt::Expression(value) => is_writable_expr(value),
        SpecStmt::Block(body) => are_writable(body, body.len() as int),
        SpecStmt::IfStatement { condition, block } => is_writable_expr(condition) && are_writable(
            block,
            block.len() as int,
        ),
        SpecStmt::Return(value) => is_writable_expr(value),
    }
}

/// Whether each of the first `count` statements of `stmts` can be written.
pub open spec fn are_writable(stmts: Seq<SpecStmt>, count: int) -> bool
    decreases stmts, count,
{
    if count <= 0 || count > stmts.len() {
        true
    } else {
        are_writable(stmts, count - 1) && is_writable_stmt(stmts[count - 1])
    }
}

/// The text of a typed name: the name, a colon and the type.
pub open spec fn decl_source(name: Seq<char>, declared: Type) -> Seq<char> {
    name + seq![':', ' '] + type_text(declared)
}

/// The text of a statement.
pub open spec fn stmt_source(stmt: SpecStmt) -> Seq<char>
    decreases stmt, 0nat,
{
    match stmt {
        SpecStmt::VariableDefinition { name, declared_type, value } => "var"@ + seq![' ']
            + decl_source(name, declared_type) + seq![' ', '=', ' '] + expr_source(value)
            + seq![';'],
        SpecStmt::Assignment { lhs, rhs } => lhs + seq![' ', '=', ' '] + expr_source(rhs)
            + seq![';'],
        SpecStmt::Expression(value) => expr_source(value) + seq![';'],
        SpecStmt::Block(body) => seq!['{'] + body_source(body, body.len() as int) + seq![' ', '}'],
        SpecStmt::IfStatement { condition, block } => "if"@ + seq![' ', '('] + expr_source(
            condition,
        ) + seq![')', ' ', '{'] + body_source(block, block.len() as int) + seq![' ', '}'],
        SpecStmt::Return(value) => "return"@ + seq![' '] + expr_source(value) + seq![';'],
    }
}

/// The text of the first `count` statements of `stmts`, each behind a
/// space.
pub open spec fn body_source(stmts: Seq<SpecStmt>, count: int) -> Seq<char>
    decreases stmts, count,
{
    if count <= 0 || count > stmts.len() {
        Seq::empty()
    } else {
        body_source(stmts, count - 1) + seq![' '] + stmt_source(stmts[count - 1])
    }
}

/// The text of the first `count` parameters, with a comma and a space
/// between one and the next.
pub open spec fn params_source(params: Seq<SpecParam>, count: int) -> Seq<char>
    decreases count,
{
    if count <= 0 || count > params.len() {
        Seq::empty()
    } else if count == 1 {
        decl_source(params[0].name, params[0].declared_type)
    } else {
        params_source(params, count - 1) + seq![',', ' '] + decl_source(
            params[count - 1].name,
            params[count - 1].declared_type,
        )
    }
}

/// Whether `function` can be written: it and its parameters have names,
/// and its body can be written.
pub open spec fn is_writable_function(function: SpecFunction) -> bool {
    &&& is_name(function.name)
    &&& forall|i: int|
        0 <= i < function.parameters.len() ==> is_name(#[trigger] function.parameters[i].name)
    &&& are_writable(function.block, function.block.len() as int)
}

/// The text of a return type: an arrow between spaces and the type, or
/// nothing.
pub open spec fn return_source(returned: Option<Type>) -> Seq<char> {
    match returned {
        Some(declared) => seq![' ', '-', '>', ' '] + type_text(declared),
        None => Seq::empty(),
    }
}

/// The text of a function declaration.
pub open spec fn function_source(function: SpecFunction) -> Seq<char> {
    "function"@ + seq![' '] + function.name + seq!['('] + params_source(
        function.parameters,
        function.parameters.len() as int,
    ) + seq![')'] + return_source(function.return_type) + seq![' ', '{'] + body_source(
        function.block,
        function.block.len() as int,
    ) + seq![' ', '}']
}

/// The text of the first `count` functions, each on a line of its own.
pub open spec fn functions_source(functions: Seq<SpecFunction>, count: int) -> Seq<char>
    decreases count,
{
    if count <= 0 || count > functions.len() {
        Seq::empty()
    } else {
        functions_source(functions, count - 1) + function_source(functions[count - 1]) + seq![
            '\n',
        ]
    }
}

/// Whether `program` can be written: each of its functions can.
pub open spec fn is_writable_program(program: SpecProgram) -> bool {
    forall|i: int| 0 <= i < program.nodes.len() ==> is_writable_function(#[trigger] program.nodes[i])
}

/// The text of a program.
pub open spec fn program_source(program: SpecProgram) -> Seq<char> {
    functions_source(program.nodes, program.nodes.len() as int)
}

} // verus!
