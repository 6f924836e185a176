//! The grammar of statements and blocks.

use crate::parser::ast::{stmts_view, BlockNode, ExpressionNode, SpecExpr, SpecStmt};
use crate::parser::common::{
    is_reserved, lemma_parts_advance, lemma_token_bounds, parse_symbol, parse_type_decl,
    spells_reserved, symbol, type_decl,
};
use crate::parser::expression::{expr, lemma_expr_advances, parse_expr};
use crate::parser::lexer::{lemma_scan, CharClass};
use crate::parser::syntax::{
    advanced, failure, token_start, word_end, Failure, Source, SyntaxError, SyntaxErrorKind,
};
use vstd::prelude::*;

verus! {

/// An expression and the `;` that ends its statement.
pub open spec fn closed_expr(input: Seq<char>, pos: int) -> Result<(SpecExpr, int), Failure> {
    match expr(input, pos) {
        Err(error) => Err(error),
        Ok((value, after_value)) => match symbol(
            input,
            after_value,
            ';',
            SyntaxErrorKind::ExpectedSemicolon,
        ) {
            Err(error) => Err(error),
            Ok(end) => Ok((value, end)),
        },
    }
}

/// An expression in parentheses: the condition of a conditional.
pub open spec fn condition(input: Seq<char>, pos: int) -> Result<(SpecExpr, int), Failure> {
    match symbol(input, pos, '(', SyntaxErrorKind::ExpectedOpenParen) {
        Err(error) => Err(error),
        Ok(after_open) => match expr(input, after_open) {
            Err(error) => Err(error),
            Ok((value, after_value)) => match symbol(
                input,
                after_value,
                ')',
                SyntaxErrorKind::ExpectedCloseParen,
            ) {
                Err(error) => Err(error),
                Ok(end) => Ok((value, end)),
            },
        },
    }
}

/// What follows the word `var`: a typed name, `=`, the initial value, `;`.
pub open spec fn definition(input: Seq<char>, pos: int) -> Result<(SpecStmt, int), Failure> {
    match type_decl(input, pos) {
        Err(error) => Err(error),
        Ok(((name, declared), after_decl)) => match symbol(
            input,
            after_decl,
            '=',
            SyntaxErrorKind::ExpectedEquals,
        ) {
            Err(error) => Err(error),
            Ok(after_equals) => match closed_expr(input, after_equals) {
                Err(error) => Err(error),
                Ok((value, end)) => Ok(
                    (SpecStmt::VariableDefinition { name, declared_type: declared, value }, end),
                ),
            },
        },
    }
}

/// Whether an assignment starts at `at`: a name, and behind it a `=` that
/// is not the first half of `==`.
pub open spec fn assignment_starts(input: Seq<char>, at: int) -> bool {
    let end = word_end(input, at);
    let equals = token_start(input, end);
    &&& at < end
    &&& !is_reserved(input.subrange(at, end))
    &&& 0 <= equals < input.len()
    &&& input[equals] == '='
    &&& !(equals + 1 < input.len() && input[equals + 1] == '=')
}

/// The assignment that starts at `at`.
pub open spec fn assignment(input: Seq<char>, at: int) -> Result<(SpecStmt, int), Failure> {
    let end = word_end(input, at);
    let equals = token_start(input, end);
    match closed_expr(input, equals + 1) {
        Err(error) => Err(error),
        Ok((rhs, end_of_statement)) => Ok(
            (SpecStmt::Assignment { lhs: input.subrange(at, end), rhs }, end_of_statement),
        ),
    }
}

/// The statement whose first token starts at `at`.
///
/// A `{` opens a nested block and the words `var`, `if` and `return` the
/// statements named after them. A name with `=` behind it is assigned to.
/// Everything else is an expression, evaluated for its own sake.
pub open spec fn statement(input: Seq<char>, at: int) -> Result<(SpecStmt, int), Failure>
    decreases input.len() - at, 0nat,
{
    let end = word_end(input, at);
    let word = input.subrange(at, end);
    if at < 0 || at >= input.len() {
        Err(failure(SyntaxErrorKind::ExpectedExpression, at))
    } else if input[at] == '{' {
        match statements(input, at + 1, Seq::empty()) {
            Err(error) => Err(error),
            Ok((body, after_body)) => Ok((SpecStmt::Block(body), after_body)),
        }
    } else if word == "var"@ {
        definition(input, end)
    } else if word == "if"@ {
        match condition(input, end) {
            Err(error) => Err(error),
            Ok((tested, after_condition)) => {
                proof {
                    lemma_scan(input, at, CharClass::Name);
                    lemma_condition_advances(input, end);
                }
                match block(input, after_condition) {
                    Err(error) => Err(error),
                    Ok((body, after_body)) => Ok(
                        (SpecStmt::IfStatement { condition: tested, block: body }, after_body),
                    ),
                }
            },
        }
    } else if word == "return"@ {
        match closed_expr(input, end) {
            Err(error) => Err(error),
            Ok((value, after_value)) => Ok((SpecStmt::Return(value), after_value)),
        }
    } else if assignment_starts(input, at) {
        assignment(input, at)
    } else {
        match closed_expr(input, at) {
            Err(error) => Err(error),
            Ok((value, after_value)) => Ok((SpecStmt::Expression(value), after_value)),
        }
    }
}

/// The statements of a block from `pos` on, up to the `}` that closes the
/// block, behind the statements `done` that were read before.
pub open spec fn statements(input: Seq<char>, pos: int, done: Seq<SpecStmt>) -> Result<
    (Seq<SpecStmt>, int),
    Failure,
>
    decreases input.len() - pos, 1nat,
{
    let at = token_start(input, pos);
    if pos < 0 || at >= input.len() {
        Err(failure(SyntaxErrorKind::ExpectedCloseBrace, at))
    } else if input[at] == '}' {
        Ok((done, at + 1))
    } else {
        proof {
            lemma_scan(input, pos, CharClass::Space);
        }
        match statement(input, at) {
            Err(error) => Err(error),
            Ok((stmt, end)) => if advanced(input, at, end) {
                statements(input, end, done.push(stmt))
            } else {
                Err(failure(SyntaxErrorKind::ExpectedCloseBrace, at))
            },
        }
    }
}

/// A block: `{`, statements, `}`.
pub open spec fn block(input: Seq<char>, pos: int) -> Result<(Seq<SpecStmt>, int), Failure>
    decreases input.len() - pos, 2nat,
{
    match symbol(input, pos, '{', SyntaxErrorKind::ExpectedOpenBrace) {
        Err(error) => Err(error),
        Ok(after_open) => {
            proof {
                lemma_scan(input, pos, CharClass::Space);
            }
            statements(input, after_open, Seq::empty())
        },
    }
}

/// A condition, where it is found, ends behind the position it was looked
/// for from, inside the input.
pub proof fn lemma_condition_advances(input: Seq<char>, pos: int)
    requires
        0 <= pos <= input.len(),
    ensures
        condition(input, pos) matches Ok((_, end)) ==> advanced(input, pos, end),
{
    lemma_parts_advance(input, pos);
    if let Ok(after_open) = symbol(input, pos, '(', SyntaxErrorKind::ExpectedOpenParen) {
        lemma_expr_advances(input, after_open);
        if let Ok((_, after_value)) = expr(input, after_open) {
            lemma_parts_advance(input, after_value);
        }
    }
}

/// An expression with its `;`, where it is found, ends behind the position
/// it was looked for from, inside the input.
pub proof fn lemma_closed_expr_advances(input: Seq<char>, pos: int)
    requires
        0 <= pos <= input.len(),
    ensures
        closed_expr(input, pos) matches Ok((_, end)) ==> advanced(input, pos, end),
{
    lemma_expr_advances(input, pos);
    if let Ok((_, after_value)) = expr(input, pos) {
        lemma_parts_advance(input, after_value);
    }
}

/// A statement, a statement list and a block, where they are found, end
/// behind the position they were looked for from, inside the input.
pub proof fn lemma_statement_advances(input: Seq<char>, at: int)
    requires
        0 <= at <= input.len(),
    ensures
        statement(input, at) matches Ok((_, end)) ==> advanced(input, at, end),
    decreases input.len() - at, 0nat,
{
    lemma_scan(input, at, CharClass::Name);
    let end = word_end(input, at);
    let word = input.subrange(at, end);
    if at < input.len() {
        if input[at] == '{' {
            lemma_statements_advance(input, at + 1, Seq::empty());
        } else if word == "var"@ {
            lemma_parts_advance(input, end);
            if let Ok((_, after_decl)) = type_decl(input, end) {
                lemma_parts_advance(input, after_decl);
                if let Ok(after_equals) = symbol(
                    input,
                    after_decl,
                    '=',
                    SyntaxErrorKind::ExpectedEquals,
                ) {
                    lemma_closed_expr_advances(input, after_equals);
                }
            }
        } else if word == "if"@ {
            lemma_condition_advances(input, end);
            if let Ok((_, after_condition)) = condition(input, end) {
                lemma_block_advances(input, after_condition);
            }
        } else if word == "return"@ {
            lemma_closed_expr_advances(input, end);
        } else if assignment_starts(input, at) {
            lemma_token_bounds(input, end);
            lemma_closed_expr_advances(input, token_start(input, end) + 1);
        } else {
            lemma_closed_expr_advances(input, at);
        }
    }
}

/// See [`lemma_statement_advances`].
pub proof fn lemma_statements_advance(input: Seq<char>, pos: int, done: Seq<SpecStmt>)
    requires
        0 <= pos <= input.len(),
    ensures
        statements(input, pos, done) matches Ok((_, end)) ==> advanced(input, pos, end),
    decreases input.len() - pos, 1nat,
{
    lemma_token_bounds(input, pos);
    let at = token_start(input, pos);
    if at < input.len() && input[at] != '}' {
        lemma_statement_advances(input, at);
        if let Ok((stmt, end)) = statement(input, at) {
            lemma_statements_advance(input, end, done.push(stmt));
        }
    }
}

/// See [`lemma_statement_advances`].
pub proof fn lemma_block_advances(input: Seq<char>, pos: int)
    requires
        0 <= pos <= input.len(),
    ensures
        block(input, pos) matches Ok((_, end)) ==> advanced(input, pos, end),
    decreases input.len() - pos, 2nat,
{
    lemma_parts_advance(input, pos);
    if let Ok(after_open) = symbol(input, pos, '{', SyntaxErrorKind::ExpectedOpenBrace) {
        lemma_statements_advance(input, after_open, Seq::empty());
    }
}

/// The statements of a block are its first statement and the statements
/// behind it: the rule reads on from where the statement ended, since
/// that is always further on.
pub proof fn lemma_statements_unfold(input: Seq<char>, pos: int, done: Seq<SpecStmt>)
    requires
        0 <= pos <= input.len(),
    ensures
        statements(input, pos, done) == {
            let at = token_start(input, pos);
            if at >= input.len() {
                Err(failure(SyntaxErrorKind::ExpectedCloseBrace, at))
            } else if input[at] == '}' {
                Ok((done, at + 1))
            } else {
                match statement(input, at) {
                    Err(error) => Err(error),
                    Ok((stmt, end)) => statements(input, end, done.push(stmt)),
                }
            }
        },
{
    lemma_token_bounds(input, pos);
    lemma_statement_advances(input, token_start(input, pos));
}

/// Reads an expression and the `;` behind it.
fn parse_closed_expr(source: &Source, pos: usize) -> (result: Result<
    (ExpressionNode, usize),
    SyntaxError,
>)
    requires
        pos <= source@.len(),
    ensures
        match result {
            Ok((node, end)) => closed_expr(source@, pos as int) == Ok::<(SpecExpr, int), Failure>(
                (node@, end as int),
            ) && pos < end <= source@.len(),
            Err(error) => closed_expr(source@, pos as int) == Err::<(SpecExpr, int), Failure>(
                error@,
            ) && error.position <= source@.len(),
        },
{
    let (value, after_value) = match parse_expr(source, pos) {
        Ok(found) => found,
        Err(error) => {
            return Err(error);
        },
    };
    match parse_symbol(source, after_value, ';', SyntaxErrorKind::ExpectedSemicolon) {
        Ok(end) => Ok((value, end)),
        Err(error) => Err(error),
    }
}

/// Reads the condition of a conditional.
fn parse_condition(source: &Source, pos: usize) -> (result: Result<
    (ExpressionNode, usize),
    SyntaxError,
>)
    requires
        pos <= source@.len(),
    ensures
        match result {
            Ok((node, end)) => condition(source@, pos as int) == Ok::<(SpecExpr, int), Failure>(
                (node@, end as int),
            ) && pos < end <= source@.len(),
            Err(error) => condition(source@, pos as int) == Err::<(SpecExpr, int), Failure>(error@) && error.position <= source@.len(),
        },
{
    let after_open = match parse_symbol(source, pos, '(', SyntaxErrorKind::ExpectedOpenParen) {
        Ok(end) => end,
        Err(error) => {
            return Err(error);
        },
    };
    let (value, after_value) = match parse_expr(source, after_open) {
        Ok(found) => found,
        Err(error) => {
            return Err(error);
        },
    };
    match parse_symbol(source, after_value, ')', SyntaxErrorKind::ExpectedCloseParen) {
        Ok(end) => Ok((value, end)),
        Err(error) => Err(error),
    }
}

/// Reads what follows the word `var`.
fn parse_definition(source: &Source, pos: usize) -> (result: Result<(BlockNode, usize), SyntaxError>)
    requires
        pos <= source@.len(),
    ensures
        match result {
            Ok((node, end)) => definition(source@, pos as int) == Ok::<(SpecStmt, int), Failure>(
                (node@, end as int),
            ) && pos < end <= source@.len(),
            Err(error) => definition(source@, pos as int) == Err::<(SpecStmt, int), Failure>(
                error@,
            ) && error.position <= source@.len(),
        },
{
    let ((name, declared), after_decl) = match parse_type_decl(source, pos) {
        Ok(found) => found,
        Err(error) => {
            return Err(error);
        },
    };
    let after_equals = match parse_symbol(
        source,
        after_decl,
        '=',
        SyntaxErrorKind::ExpectedEquals,
    ) {
        Ok(end) => end,
        Err(error) => {
            return Err(error);
        },
    };
    match parse_closed_expr(source, after_equals) {
        Ok((value, end)) => Ok(
            (BlockNode::VariableDefinition { name, declared_type: declared, value }, end),
        ),
        Err(error) => Err(error),
    }
}

/// Whether an assignment starts with the word from `at` to `end`.
fn starts_assignment(source: &Source, at: usize, end: usize) -> (result: bool)
    requires
        at < source@.len(),
        end == word_end(source@, at as int),
        at <= end <= source@.len(),
    ensures
        result == assignment_starts(source@, at as int),
{
    if end <= at || spells_reserved(source, at, end) {
        return false;
    }
    let equals = source.token_start(end);
    source.has_char(equals, '=') && !source.has_char(equals + 1, '=')
}

/// Reads the statement whose first token starts at `at`.
pub fn parse_statement(source: &Source, at: usize) -> (result: Result<
    (BlockNode, usize),
    SyntaxError,
>)
    requires
        at < source@.len(),
    ensures
        match result {
            Ok((node, end)) => statement(source@, at as int) == Ok::<(SpecStmt, int), Failure>(
                (node@, end as int),
            ) && at < end <= source@.len(),
            Err(error) => statement(source@, at as int) == Err::<(SpecStmt, int), Failure>(error@) && error.position <= source@.len(),
        },
    decreases source@.len() - at, 0nat,
{
    let end = source.word_end(at);
    if source.has_char(at, '{') {
        match parse_statements(source, at + 1) {
            Ok((body, after_body)) => Ok((BlockNode::Block(body), after_body)),
            Err(error) => Err(error),
        }
    } else if source.spells(at, end, "var") {
        parse_definition(source, end)
    } else if source.spells(at, end, "if") {
        let (tested, after_condition) = match parse_condition(source, end) {
            Ok(found) => found,
            Err(error) => {
                return Err(error);
            },
        };
        match parse_block(source, after_condition) {
            Ok((body, after_body)) => Ok(
                (BlockNode::IfStatement { condition: tested, block: body }, after_body),
            ),
            Err(error) => Err(error),
        }
    } else if source.spells(at, end, "return") {
        match parse_closed_expr(source, end) {
            Ok((value, after_value)) => Ok((BlockNode::Return(value), after_value)),
            Err(error) => Err(error),
        }
    } else if starts_assignment(source, at, end) {
        let equals = source.token_start(end);
        match parse_closed_expr(source, equals + 1) {
            Ok((rhs, after_rhs)) => Ok(
                (BlockNode::Assignment { lhs: source.slice(at, end), rhs }, after_rhs),
            ),
            Err(error) => Err(error),
        }
    } else {
        match parse_closed_expr(source, at) {
            Ok((value, after_value)) => Ok((BlockNode::Expression(value), after_value)),
            Err(error) => Err(error),
        }
    }
}

/// Reads the statements of a block up to the `}` that closes it.
pub fn parse_statements(source: &Source, pos: usize) -> (result: Result<
    (Vec<BlockNode>, usize),
    SyntaxError,
>)
    requires
        pos <= source@.len(),
    ensures
        match result {
            Ok((body, end)) => statements(source@, pos as int, Seq::empty()) == Ok::<
                (Seq<SpecStmt>, int),
                Failure,
            >((stmts_view(body@), end as int)) && pos < end <= source@.len(),
            Err(error) => statements(source@, pos as int, Seq::empty()) == Err::<
                (Seq<SpecStmt>, int),
                Failure,
            >(error@) && error.position <= source@.len(),
        },
    decreases source@.len() - pos, 1nat,
{
    let mut body: Vec<BlockNode> = Vec::new();
    let mut next: usize = pos;
    assert(stmts_view(body@) =~= Seq::<SpecStmt>::empty());
    loop
        invariant
            pos <= next <= source@.len(),
            statements(source@, next as int, stmts_view(body@)) == statements(
                source@,
                pos as int,
                Seq::empty(),
            ),
        decreases source@.len() - next,
    {
        let at = source.token_start(next);
        if at >= source.len() {
            return Err(SyntaxError { kind: SyntaxErrorKind::ExpectedCloseBrace, position: at });
        }
        if source.has_char(at, '}') {
            return Ok((body, at + 1));
        }
        let (stmt, end) = match parse_statement(source, at) {
            Ok(found) => found,
            Err(error) => {
                return Err(error);
            },
        };
        let ghost before = stmts_view(body@);
        body.push(stmt);
        assert(stmts_view(body@) =~= before.push(stmt@));
        next = end;
    }
}

/// Reads a block.
pub fn parse_block(source: &Source, pos: usize) -> (result: Result<
    (Vec<BlockNode>, usize),
    SyntaxError,
>)
    requires
        pos <= source@.len(),
    ensures
        match result {
            Ok((body, end)) => block(source@, pos as int) == Ok::<(Seq<SpecStmt>, int), Failure>(
                (stmts_view(body@), end as int),
            ) && pos < end <= source@.len(),
            Err(error) => block(source@, pos as int) == Err::<(Seq<SpecStmt>, int), Failure>(
                error@,
            ) && error.position <= source@.len(),
        },
    decreases source@.len() - pos, 2nat,
{
    match parse_symbol(source, pos, '{', SyntaxErrorKind::ExpectedOpenBrace) {
        Ok(after_open) => parse_statements(source, after_open),
        Err(error) => Err(error),
    }
}

} // verus!
