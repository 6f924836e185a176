//! The grammar of function declarations.

use crate::parser::ast::{params_view, FunctionNode, FunctionParam, SpecFunction, SpecParam, Type};
use crate::parser::block::{block, lemma_block_advances, parse_block};
use crate::parser::common::{
    declared_type, identifier, lemma_parts_advance, lemma_token_bounds, parse_declared_type,
    parse_identifier, parse_symbol, parse_type_decl, symbol, type_decl,
};
use crate::parser::lexer::{lemma_scan, CharClass};
use crate::parser::syntax::{
    advanced, failure, token_start, word_end, Failure, Source, SyntaxError, SyntaxErrorKind,
};
use vstd::prelude::*;

verus! {

/// One parameter and those behind it, up to the `)` that closes the list,
/// behind the parameters `done` that were read before.
pub open spec fn parameter_list(input: Seq<char>, pos: int, done: Seq<SpecParam>) -> Result<
    (Seq<SpecParam>, int),
    Failure,
>
    decreases input.len() - pos,
{
    match type_decl(input, pos) {
        Err(error) => Err(error),
        Ok(((name, declared), after_decl)) => {
            let params = done.push(SpecParam { name, declared_type: declared });
            let at = token_start(input, after_decl);
            if pos < 0 || pos > input.len() || at >= input.len() {
                Err(failure(SyntaxErrorKind::ExpectedCommaOrCloseParen, at))
            } else if input[at] == ')' {
                Ok((params, at + 1))
            } else if input[at] == ',' {
                proof {
                    lemma_parts_advance(input, pos);
                    lemma_scan(input, after_decl, CharClass::Space);
                }
                parameter_list(input, at + 1, params)
            } else {
                Err(failure(SyntaxErrorKind::ExpectedCommaOrCloseParen, at))
            }
        },
    }
}

/// What stands between the parentheses of a declaration, and the `)`:
/// typed names with commas between them, or nothing.
pub open spec fn parameters(input: Seq<char>, pos: int) -> Result<(Seq<SpecParam>, int), Failure> {
    let at = token_start(input, pos);
    if 0 <= at < input.len() && input[at] == ')' {
        Ok((Seq::empty(), at + 1))
    } else {
        parameter_list(input, pos, Seq::empty())
    }
}

/// The return type of a declaration: `->` and a type, or nothing.
pub open spec fn return_type(input: Seq<char>, pos: int) -> Result<(Option<Type>, int), Failure> {
    let at = token_start(input, pos);
    if 0 <= at && at + 1 < input.len() && input[at] == '-' && input[at + 1] == '>' {
        match declared_type(input, at + 2) {
            Err(error) => Err(error),
            Ok((declared, end)) => Ok((Some(declared), end)),
        }
    } else {
        Ok((None, pos))
    }
}

/// The function declaration whose first token starts at `at`: the word
/// `function`, a name, the parameters in parentheses, the return type if
/// there is one, and the body.
pub open spec fn function(input: Seq<char>, at: int) -> Result<(SpecFunction, int), Failure> {
    let end = word_end(input, at);
    if input.subrange(at, end) != "function"@ {
        Err(failure(SyntaxErrorKind::ExpectedFunction, at))
    } else {
        match identifier(input, end) {
            Err(error) => Err(error),
            Ok((name, after_name)) => match symbol(
                input,
                after_name,
                '(',
                SyntaxErrorKind::ExpectedOpenParen,
            ) {
                Err(error) => Err(error),
                Ok(after_open) => match parameters(input, after_open) {
                    Err(error) => Err(error),
                    Ok((params, after_params)) => match return_type(input, after_params) {
                        Err(error) => Err(error),
                        Ok((returned, after_type)) => match block(input, after_type) {
                            Err(error) => Err(error),
                            Ok((body, after_body)) => Ok(
                                (
                                    SpecFunction {
                                        name,
                                        parameters: params,
                                        return_type: returned,
                                        block: body,
                                    },
                                    after_body,
                                ),
                            ),
                        },
                    },
                },
            },
        }
    }
}

/// A parameter list, where it is found, ends behind the position it was
/// looked for from, inside the input.
pub proof fn lemma_parameter_list_advances(input: Seq<char>, pos: int, done: Seq<SpecParam>)
    requires
        0 <= pos <= input.len(),
    ensures
        parameter_list(input, pos, done) matches Ok((_, end)) ==> advanced(input, pos, end),
    decreases input.len() - pos,
{
    lemma_parts_advance(input, pos);
    if let Ok(((name, declared), after_decl)) = type_decl(input, pos) {
        lemma_token_bounds(input, after_decl);
        let at = token_start(input, after_decl);
        if at < input.len() && input[at] == ',' {
            lemma_parameter_list_advances(
                input,
                at + 1,
                done.push(SpecParam { name, declared_type: declared }),
            );
        }
    }
}

/// A function declaration, where it is found, ends behind its start,
/// inside the input.
pub proof fn lemma_function_advances(input: Seq<char>, at: int)
    requires
        0 <= at <= input.len(),
    ensures
        function(input, at) matches Ok((_, end)) ==> advanced(input, at, end),
{
    lemma_scan(input, at, CharClass::Name);
    let end = word_end(input, at);
    lemma_parts_advance(input, end);
    if let Ok((_, after_name)) = identifier(input, end) {
        lemma_parts_advance(input, after_name);
        if let Ok(after_open) = symbol(input, after_name, '(', SyntaxErrorKind::ExpectedOpenParen) {
            lemma_token_bounds(input, after_open);
            lemma_parameter_list_advances(input, after_open, Seq::empty());
            if let Ok((_, after_params)) = parameters(input, after_open) {
                lemma_token_bounds(input, after_params);
                let arrow = token_start(input, after_params);
                if arrow + 2 <= input.len() {
                    lemma_parts_advance(input, arrow + 2);
                }
                if let Ok((_, after_type)) = return_type(input, after_params) {
                    lemma_block_advances(input, after_type);
                }
            }
        }
    }
}

/// Reads what stands between the parentheses of a declaration, and the `)`.
fn parse_parameters(source: &Source, pos: usize) -> (result: Result<
    (Vec<FunctionParam>, usize),
    SyntaxError,
>)
    requires
        pos <= source@.len(),
    ensures
        match result {
            Ok((params, end)) => parameters(source@, pos as int) == Ok::<
                (Seq<SpecParam>, int),
                Failure,
            >((params_view(params@), end as int)) && pos < end <= source@.len(),
            Err(error) => parameters(source@, pos as int) == Err::<(Seq<SpecParam>, int), Failure>(
                error@,
            ) && error.position <= source@.len(),
        },
{
    let mut params: Vec<FunctionParam> = Vec::new();
    assert(params_view(params@) =~= Seq::<SpecParam>::empty());
    let first = source.token_start(pos);
    if source.has_char(first, ')') {
        return Ok((params, first + 1));
    }
    let mut next: usize = pos;
    loop
        invariant
            pos <= next <= source@.len(),
            parameter_list(source@, next as int, params_view(params@)) == parameters(
                source@,
                pos as int,
            ),
        decreases source@.len() - next,
    {
        let ((name, declared), after_decl) = match parse_type_decl(source, next) {
            Ok(found) => found,
            Err(error) => {
                return Err(error);
            },
        };
        let ghost before = params_view(params@);
        let param = FunctionParam { name, declared_type: declared };
        params.push(param);
        assert(params_view(params@) =~= before.push(param@));
        let at = source.token_start(after_decl);
        if source.has_char(at, ')') {
            return Ok((params, at + 1));
        } else if source.has_char(at, ',') {
            next = at + 1;
        } else {
            return Err(
                SyntaxError { kind: SyntaxErrorKind::ExpectedCommaOrCloseParen, position: at },
            );
        }
    }
}

/// Reads the return type of a declaration, if it has one.
fn parse_return_type(source: &Source, pos: usize) -> (result: Result<
    (Option<Type>, usize),
    SyntaxError,
>)
    requires
        pos <= source@.len(),
    ensures
        match result {
            Ok((returned, end)) => return_type(source@, pos as int) == Ok::<
                (Option<Type>, int),
                Failure,
            >((returned, end as int)) && pos <= end <= source@.len(),
            Err(error) => return_type(source@, pos as int) == Err::<(Option<Type>, int), Failure>(
                error@,
            ) && error.position <= source@.len(),
        },
{
    let at = source.token_start(pos);
    if source.has_char(at, '-') && source.has_char(at + 1, '>') {
        match parse_declared_type(source, at + 2) {
            Ok((declared, end)) => Ok((Some(declared), end)),
            Err(error) => Err(error),
        }
    } else {
        Ok((None, pos))
    }
}

/// Reads the function declaration whose first token starts at `at`.
pub fn parse_function(source: &Source, at: usize) -> (result: Result<
    (FunctionNode, usize),
    SyntaxError,
>)
    requires
        at < source@.len(),
    ensures
        match result {
            Ok((node, end)) => function(source@, at as int) == Ok::<(SpecFunction, int), Failure>(
                (node@, end as int),
            ) && at < end <= source@.len(),
            Err(error) => function(source@, at as int) == Err::<(SpecFunction, int), Failure>(
                error@,
            ) && error.position <= source@.len(),
        },
{
    let end = source.word_end(at);
    if !source.spells(at, end, "function") {
        return Err(SyntaxError { kind: SyntaxErrorKind::ExpectedFunction, position: at });
    }
    let (name, after_name) = match parse_identifier(source, end) {
        Ok(found) => found,
        Err(error) => {
            return Err(error);
        },
    };
    let after_open = match parse_symbol(
        source,
        after_name,
        '(',
        SyntaxErrorKind::ExpectedOpenParen,
    ) {
        Ok(end) => end,
        Err(error) => {
            return Err(error);
        },
    };
    let (parameters, after_params) = match parse_parameters(source, after_open) {
        Ok(found) => found,
        Err(error) => {
            return Err(error);
        },
    };
    let (returned, after_type) = match parse_return_type(source, after_params) {
        Ok(found) => found,
        Err(error) => {
            return Err(error);
        },
    };
    match parse_block(source, after_type) {
        Ok((body, after_body)) => Ok(
            (FunctionNode { name, parameters, return_type: returned, block: body }, after_body),
        ),
        Err(error) => Err(error),
    }
}

} // verus!
