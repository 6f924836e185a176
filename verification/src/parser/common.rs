//! The small parts that every rule of the grammar is made of: single
//! symbols, names, types and typed names.

use crate::parser::ast::{Ident, Type};
use crate::parser::lexer::{lemma_scan, CharClass};
use crate::parser::syntax::{
    failure, token_start, word_end, Failure, Source, SyntaxError, SyntaxErrorKind,
};
use vstd::prelude::*;

verus! {

/// Whether `word` is reserved and cannot name anything.
pub open spec fn is_reserved(word: Seq<char>) -> bool {
    word == "function"@ || word == "var"@ || word == "if"@ || word == "return"@ || word
        == "true"@ || word == "false"@
}

/// The symbol `c` as the next token: the position behind it, or the
/// failure `otherwise` at the token that stands there instead.
pub open spec fn symbol(input: Seq<char>, pos: int, c: char, otherwise: SyntaxErrorKind) -> Result<
    int,
    Failure,
> {
    let at = token_start(input, pos);
    if 0 <= at < input.len() && input[at] == c {
        Ok(at + 1)
    } else {
        Err(failure(otherwise, at))
    }
}

/// A name as the next token: a word that is not reserved.
pub open spec fn identifier(input: Seq<char>, pos: int) -> Result<(Seq<char>, int), Failure> {
    let at = token_start(input, pos);
    let end = word_end(input, at);
    if end <= at {
        Err(failure(SyntaxErrorKind::ExpectedName, at))
    } else if is_reserved(input.subrange(at, end)) {
        Err(failure(SyntaxErrorKind::ReservedWord, at))
    } else {
        Ok((input.subrange(at, end), end))
    }
}

/// A type as the next token: one of the words `int`, `bool` and `string`.
pub open spec fn declared_type(input: Seq<char>, pos: int) -> Result<(Type, int), Failure> {
    let at = token_start(input, pos);
    let end = word_end(input, at);
    let word = input.subrange(at, end);
    if end <= at {
        Err(failure(SyntaxErrorKind::ExpectedType, at))
    } else if word == "int"@ {
        Ok((Type::Int, end))
    } else if word == "bool"@ {
        Ok((Type::Bool, end))
    } else if word == "string"@ {
        Ok((Type::String, end))
    } else {
        Err(failure(SyntaxErrorKind::InvalidType, at))
    }
}

/// A typed name: a name, a colon and a type.
pub open spec fn type_decl(input: Seq<char>, pos: int) -> Result<((Seq<char>, Type), int), Failure> {
    match identifier(input, pos) {
        Err(error) => Err(error),
        Ok((name, after_name)) => match symbol(
            input,
            after_name,
            ':',
            SyntaxErrorKind::ExpectedColon,
        ) {
            Err(error) => Err(error),
            Ok(after_colon) => match declared_type(input, after_colon) {
                Err(error) => Err(error),
                Ok((declared, end)) => Ok(((name, declared), end)),
            },
        },
    }
}

/// A token starts at or behind the position it is looked for from, and a
/// word ends at or behind its start, both inside the input.
pub proof fn lemma_token_bounds(input: Seq<char>, pos: int)
    requires
        0 <= pos <= input.len(),
    ensures
        pos <= token_start(input, pos) <= word_end(input, token_start(input, pos)) <= input.len(),
{
    lemma_scan(input, pos, CharClass::Space);
    lemma_scan(input, token_start(input, pos), CharClass::Name);
}

/// Each of the small parts, where it is found, ends behind the position it
/// was looked for from, inside the input.
pub proof fn lemma_parts_advance(input: Seq<char>, pos: int)
    requires
        0 <= pos <= input.len(),
    ensures
        forall|c: char, otherwise: SyntaxErrorKind| #[trigger]
            symbol(input, pos, c, otherwise) matches Ok(end) ==> pos < end <= input.len(),
        identifier(input, pos) matches Ok((_, end)) ==> pos < end <= input.len(),
        declared_type(input, pos) matches Ok((_, end)) ==> pos < end <= input.len(),
        type_decl(input, pos) matches Ok((_, end)) ==> pos < end <= input.len(),
{
    lemma_token_bounds(input, pos);
    if let Ok((_, after_name)) = identifier(input, pos) {
        lemma_token_bounds(input, after_name);
        if let Ok(after_colon) = symbol(input, after_name, ':', SyntaxErrorKind::ExpectedColon) {
            lemma_token_bounds(input, after_colon);
        }
    }
}

/// Reads the symbol `c` as the next token.
pub fn parse_symbol(source: &Source, pos: usize, c: char, otherwise: SyntaxErrorKind) -> (result:
    Result<usize, SyntaxError>)
    requires
        pos <= source@.len(),
    ensures
        match result {
            Ok(end) => symbol(source@, pos as int, c, otherwise) == Ok::<int, Failure>(end as int)
                && pos < end <= source@.len(),
            Err(error) => symbol(source@, pos as int, c, otherwise) == Err::<int, Failure>(error@) && error.position <= source@.len(),
        },
{
    let at = source.token_start(pos);
    if source.has_char(at, c) {
        Ok(at + 1)
    } else {
        Err(SyntaxError { kind: otherwise, position: at })
    }
}

/// Whether the characters from `start` to `end` spell a reserved word.
pub fn spells_reserved(source: &Source, start: usize, end: usize) -> (result: bool)
    requires
        start <= end <= source@.len(),
    ensures
        result == is_reserved(source@.subrange(start as int, end as int)),
{
    source.spells(start, end, "function") || source.spells(start, end, "var") || source.spells(
        start,
        end,
        "if",
    ) || source.spells(start, end, "return") || source.spells(start, end, "true")
        || source.spells(start, end, "false")
}

/// Reads a name as the next token.
pub fn parse_identifier(source: &Source, pos: usize) -> (result: Result<(Ident, usize), SyntaxError>)
    requires
        pos <= source@.len(),
    ensures
        match result {
            Ok((name, end)) => identifier(source@, pos as int) == Ok::<(Seq<char>, int), Failure>(
                (name@, end as int),
            ) && pos < end <= source@.len(),
            Err(error) => identifier(source@, pos as int) == Err::<(Seq<char>, int), Failure>(
                error@,
            ) && error.position <= source@.len(),
        },
{
    let at = source.token_start(pos);
    let end = source.word_end(at);
    if end <= at {
        Err(SyntaxError { kind: SyntaxErrorKind::ExpectedName, position: at })
    } else if spells_reserved(source, at, end) {
        Err(SyntaxError { kind: SyntaxErrorKind::ReservedWord, position: at })
    } else {
        Ok((source.slice(at, end), end))
    }
}

/// Reads a type as the next token.
pub fn parse_declared_type(source: &Source, pos: usize) -> (result: Result<
    (Type, usize),
    SyntaxError,
>)
    requires
        pos <= source@.len(),
    ensures
        match result {
            Ok((declared, end)) => declared_type(source@, pos as int) == Ok::<(Type, int), Failure>(
                (declared, end as int),
            ) && pos < end <= source@.len(),
            Err(error) => declared_type(source@, pos as int) == Err::<(Type, int), Failure>(error@) && error.position <= source@.len(),
        },
{
    let at = source.token_start(pos);
    let end = source.word_end(at);
    if end <= at {
        Err(SyntaxError { kind: SyntaxErrorKind::ExpectedType, position: at })
    } else if source.spells(at, end, "int") {
        Ok((Type::Int, end))
    } else if source.spells(at, end, "bool") {
        Ok((Type::Bool, end))
    } else if source.spells(at, end, "string") {
        Ok((Type::String, end))
    } else {
        Err(SyntaxError { kind: SyntaxErrorKind::InvalidType, position: at })
    }
}

/// Reads a typed name: a name, a colon and a type.
pub fn parse_type_decl(source: &Source, pos: usize) -> (result: Result<
    ((Ident, Type), usize),
    SyntaxError,
>)
    requires
        pos <= source@.len(),
    ensures
        match result {
            Ok(((name, declared), end)) => type_decl(source@, pos as int) == Ok::<
                ((Seq<char>, Type), int),
                Failure,
            >(((name@, declared), end as int)) && pos < end <= source@.len(),
            Err(error) => type_decl(source@, pos as int) == Err::<
                ((Seq<char>, Type), int),
                Failure,
            >(error@) && error.position <= source@.len(),
        },
{
    let (name, after_name) = match parse_identifier(source, pos) {
        Ok(found) => found,
        Err(error) => {
            return Err(error);
        },
    };
    let after_colon = match parse_symbol(source, after_name, ':', SyntaxErrorKind::ExpectedColon) {
        Ok(end) => end,
        Err(error) => {
            return Err(error);
        },
    };
    match parse_declared_type(source, after_colon) {
        Ok((declared, end)) => Ok(((name, declared), end)),
        Err(error) => Err(error),
    }
}

} // verus!
