//! The grammar of a whole program: function declarations up to the end of
//! the text.

use crate::parser::ast::{functions_view, FunctionNode, Program, SpecFunction, SpecProgram};
use crate::parser::function::{function, lemma_function_advances, parse_function};
use crate::parser::lexer::{lemma_scan, CharClass};
use crate::parser::syntax::{token_start, Failure, Source, SyntaxError};
use vstd::prelude::*;

verus! {

/// The function declarations from `pos` on, up to the end of the text,
/// behind the declarations `done` that were read before.
pub open spec fn functions(input: Seq<char>, pos: int, done: Seq<SpecFunction>) -> Result<
    Seq<SpecFunction>,
    Failure,
>
    decreases input.len() - pos,
{
    let at = token_start(input, pos);
    if pos < 0 || at >= input.len() {
        Ok(done)
    } else {
        match function(input, at) {
            Err(error) => Err(error),
            Ok((declared, end)) => {
                proof {
                    lemma_scan(input, pos, CharClass::Space);
                    lemma_function_advances(input, at);
                }
                functions(input, end, done.push(declared))
            },
        }
    }
}

/// The program that `input` is the text of.
pub open spec fn program(input: Seq<char>) -> Result<SpecProgram, Failure> {
    match functions(input, 0, Seq::empty()) {
        Err(error) => Err(error),
        Ok(nodes) => Ok(SpecProgram { nodes }),
    }
}

/// Reads a whole program.
pub fn parse_program(source: &Source) -> (result: Result<Program, SyntaxError>)
    ensures
        match result {
            Ok(parsed) => program(source@) == Ok::<SpecProgram, Failure>(parsed@),
            Err(error) => program(source@) == Err::<SpecProgram, Failure>(error@) && error.position <= source@.len(),
        },
{
    let mut nodes: Vec<FunctionNode> = Vec::new();
    let mut next: usize = 0;
    assert(functions_view(nodes@) =~= Seq::<SpecFunction>::empty());
    loop
        invariant
            next <= source@.len(),
            functions(source@, next as int, functions_view(nodes@)) == functions(
                source@,
                0,
                Seq::empty(),
            ),
        decreases source@.len() - next,
    {
        let at = source.token_start(next);
        if at >= source.len() {
            return Ok(Program { nodes });
        }
        let (declared, end) = match parse_function(source, at) {
            Ok(found) => found,
            Err(error) => {
                return Err(error);
            },
        };
        let ghost before = functions_view(nodes@);
        nodes.push(declared);
        assert(functions_view(nodes@) =~= before.push(declared@));
        next = end;
    }
}

} // verus!
