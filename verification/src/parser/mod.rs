//! The front end: the syntax tree and the grammar that produces it.

pub mod ast;
pub mod block;
pub mod common;
pub mod error;
pub mod expression;
pub mod function;
pub mod laws;
pub mod lexer;
pub mod program;
pub mod program_laws;
pub mod source;
pub mod statement_laws;
pub mod syntax;

use crate::parser::ast::{Program, SpecProgram};
use crate::parser::error::{report, ParseError};
use crate::parser::program::{parse_program, program};
use crate::parser::syntax::{Failure, Source};
use vstd::prelude::*;

verus! {

/// Parses the text of a program.
///
/// The result is the program that the grammar reads `input` as, or the
/// report of the first place where the grammar fails.
pub fn parse(input: &str) -> (result: Result<Program, ParseError>)
    ensures
        match result {
            Ok(parsed) => program(input@) == Ok::<SpecProgram, Failure>(parsed@),
            Err(error) => program(input@) matches Err(failure) && error@ == report(
                input@,
                failure,
            ),
        },
{
    let source = Source::new(input);
    match parse_program(&source) {
        Ok(parsed) => Ok(parsed),
        Err(error) => Err(ParseError::from_syntax(&source, error)),
    }
}

} // verus!
