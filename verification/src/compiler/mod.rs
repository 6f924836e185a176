//! The native backend: stack layout and the assembly text of functions.

pub mod block;
pub mod expression;
pub mod function;
pub mod helper;
pub mod stack;

use crate::compiler::function::{
    compile_function, fits_frame, function_text, is_supported_function, supports_function,
};
use crate::parser::ast::{Program, SpecFunction, SpecProgram};
use vstd::prelude::*;
use vstd::string::StringExecFns;

verus! {

/// The assembly texts of the first `count` functions, with a line break
/// between one and the next, or the complaint of the first of them that
/// has one.
pub open spec fn functions_text(functions: Seq<SpecFunction>, count: int) -> Result<
    Seq<char>,
    Seq<char>,
>
    decreases count,
{
    if count <= 0 {
        Ok(Seq::empty())
    } else {
        match functions_text(functions, count - 1) {
            Err(complaint) => Err(complaint),
            Ok(before) => match function_text(functions[count - 1]) {
                Err(complaint) => Err(complaint),
                Ok(text) => if count == 1 {
                    Ok(text)
                } else {
                    Ok(before + "\n"@ + text)
                },
            },
        }
    }
}

/// The assembly text of a program: the boot code, a marker line, and the
/// functions.
pub open spec fn program_text(program: SpecProgram, boot: Seq<char>) -> Result<
    Seq<char>,
    Seq<char>,
> {
    match functions_text(program.nodes, program.nodes.len() as int) {
        Err(complaint) => Err(complaint),
        Ok(functions) => Ok(boot + "\n# Generated code start\n\n"@ + functions),
    }
}

/// Whether the backend can compile `program`: each of its functions is
/// one that it can compile, of a size that its frame can be laid out for.
pub open spec fn is_supported_program(program: SpecProgram) -> bool {
    forall|i: int|
        0 <= i < program.nodes.len() ==> is_supported_function(#[trigger] program.nodes[i])
            && fits_frame(program.nodes[i])
}

/// Whether the backend can compile `program`.
pub fn supports(program: &Program) -> (supported: bool)
    ensures
        supported == is_supported_program(program@),
{
    let ghost functions = program@.nodes;
    let mut i: usize = 0;
    while i < program.nodes.len()
        invariant
            i <= program.nodes.len(),
            functions == program@.nodes,
            forall|j: int|
                0 <= j < i ==> is_supported_function(#[trigger] functions[j]) && fits_frame(
                    functions[j],
                ),
        decreases program.nodes.len() - i,
    {
        assert(functions[i as int] == program.nodes[i as int]@);
        if !supports_function(&program.nodes[i]) {
            return false;
        }
        i += 1;
    }
    true
}

/// Once a function has a complaint, the complaint is that of every longer
/// run of functions.
pub proof fn lemma_function_complaint_stays(functions: Seq<SpecFunction>, count: int, longer: int)
    requires
        count <= longer,
        functions_text(functions, count) is Err,
    ensures
        functions_text(functions, longer) == functions_text(functions, count),
    decreases longer - count,
{
    if count < longer {
        lemma_function_complaint_stays(functions, count, longer - 1);
    }
}

/// Compiles `program` to assembly text that starts with the boot code
/// `boot`.
pub fn compile(program: &Program, boot: &str) -> (result: Result<String, String>)
    requires
        is_supported_program(program@),
    ensures
        match result {
            Ok(text) => program_text(program@, boot@) == Ok::<Seq<char>, Seq<char>>(text@),
            Err(complaint) => program_text(program@, boot@) == Err::<Seq<char>, Seq<char>>(
                complaint@,
            ),
        },
{
    let ghost functions = program@.nodes;
    let mut text = String::from_str(boot);
    text.append("\n# Generated code start\n\n");
    let ghost head = text@;
    let ghost mut joined: Seq<char> = Seq::empty();
    assert(text@ =~= head + joined);
    let mut i: usize = 0;
    while i < program.nodes.len()
        invariant
            i <= program.nodes.len(),
            is_supported_program(program@),
            functions == program@.nodes,
            functions_text(functions, i as int) == Ok::<Seq<char>, Seq<char>>(joined),
            text@ == head + joined,
        decreases program.nodes.len() - i,
    {
        assert(functions[i as int] == program.nodes[i as int]@);
        let compiled = match compile_function(&program.nodes[i]) {
            Ok(compiled) => compiled,
            Err(complaint) => {
                proof {
                    lemma_function_complaint_stays(functions, i + 1, program.nodes.len() as int);
                }
                return Err(complaint);
            },
        };
        if i > 0 {
            text.append("\n");
        }
        text.append(compiled.as_str());
        proof {
            joined = if i == 0 {
                compiled@
            } else {
                joined + "\n"@ + compiled@
            };
            assert(text@ =~= head + joined);
        }
        i += 1;
    }
    Ok(text)
}

} // verus!
