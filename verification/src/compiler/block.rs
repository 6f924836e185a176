//! The assembly text of statement lists.

use crate::compiler::expression::{
    compile_expression, expr_text, is_supported_expr, supports_expression,
};
use crate::compiler::helper::{is_sized, store_instruction, store_mnemonic};
use crate::compiler::stack::{SpecStack, Stack};
use crate::parser::ast::{stmts_view, BlockNode, SpecStmt, Type};
use crate::text::{format_natural, natural_text};
use vstd::pervasive::unreached;
use vstd::prelude::*;
use vstd::string::StringExecFns;

verus! {

/// Whether the backend can compile `stmt`. So far it compiles
/// declarations and returns whose expressions it can compile.
pub open spec fn is_supported_stmt(stmt: SpecStmt) -> bool {
    match stmt {
        SpecStmt::VariableDefinition { name, declared_type, value } => is_sized(declared_type)
            && is_supported_expr(value),
        SpecStmt::Return(value) => is_supported_expr(value),
        _ => false,
    }
}

/// Whether the backend can compile each of `stmts`.
pub open spec fn all_supported(stmts: Seq<SpecStmt>) -> bool {
    forall|i: int| 0 <= i < stmts.len() ==> is_supported_stmt(#[trigger] stmts[i])
}

/// The instruction that stores `source` at `offset` below the stack pointer.
pub open spec fn store_text(declared: Type, source: Seq<char>, offset: nat) -> Seq<char> {
    "    "@ + store_mnemonic(declared) + "      "@ + source + ", -"@ + natural_text(offset)
        + "(sp)\n"@
}

/// The instructions that hand `t0` back as the result and leave the
/// function.
pub open spec fn return_text() -> Seq<char> {
    "    mv      a0, t0 # Prepare return variable\n"@ + "    j       0f     # Jump to end\n"@
}

/// The assembly text of a statement, or the complaint that its variable
/// has no place on `stack`.
pub open spec fn stmt_text(stmt: SpecStmt, stack: SpecStack) -> Result<Seq<char>, Seq<char>> {
    match stmt {
        SpecStmt::VariableDefinition { name, declared_type, value } => match stack.find(name) {
            None => Err("Could not get offset for variable "@ + name),
            Some((offset, _)) => Ok(expr_text(value) + store_text(declared_type, "t0"@, offset)),
        },
        SpecStmt::Return(value) => Ok(expr_text(value) + return_text()),
        _ => Ok(Seq::empty()),
    }
}

/// The assembly text of the first `count` statements of `stmts`, one
/// behind the other, or the complaint of the first of them that has one.
pub open spec fn block_text(stmts: Seq<SpecStmt>, count: int, stack: SpecStack) -> Result<
    Seq<char>,
    Seq<char>,
>
    decreases count,
{
    if count <= 0 {
        Ok(Seq::empty())
    } else {
        match block_text(stmts, count - 1, stack) {
            Err(complaint) => Err(complaint),
            Ok(before) => match stmt_text(stmts[count - 1], stack) {
                Err(complaint) => Err(complaint),
                Ok(text) => Ok(before + text),
            },
        }
    }
}

/// Once a statement has a complaint, the complaint is that of every
/// longer run of statements.
pub proof fn lemma_complaint_stays(stmts: Seq<SpecStmt>, count: int, longer: int, stack: SpecStack)
    requires
        count <= longer,
        block_text(stmts, count, stack) is Err,
    ensures
        block_text(stmts, longer, stack) == block_text(stmts, count, stack),
    decreases longer - count,
{
    if count < longer {
        lemma_complaint_stays(stmts, count, longer - 1, stack);
    }
}

/// Writes the instruction that stores `source` at `offset` below the stack
/// pointer.
pub fn store_line(declared: Type, source: &str, offset: usize) -> (text: String)
    requires
        is_sized(declared),
    ensures
        text@ == store_text(declared, source@, offset as nat),
{
    let digits = format_natural(offset as u64);
    let mut text = String::from_str("    ");
    text.append(store_instruction(declared));
    text.append("      ");
    text.append(source);
    text.append(", -");
    text.append(digits.as_str());
    text.append("(sp)\n");
    text
}

/// Whether the backend can compile each statement of `block`.
pub fn supports_block(block: &Vec<BlockNode>) -> (supported: bool)
    ensures
        supported == all_supported(stmts_view(block@)),
{
    let ghost stmts = stmts_view(block@);
    let mut i: usize = 0;
    while i < block.len()
        invariant
            i <= block.len(),
            stmts == stmts_view(block@),
            forall|j: int| 0 <= j < i ==> is_supported_stmt(#[trigger] stmts[j]),
        decreases block.len() - i,
    {
        assert(stmts[i as int] == block[i as int]@);
        let supported = match &block[i] {
            BlockNode::VariableDefinition { name, declared_type, value } => *declared_type
                != Type::String && supports_expression(value),
            BlockNode::Return(value) => supports_expression(value),
            _ => false,
        };
        if !supported {
            return false;
        }
        i += 1;
    }
    true
}

/// Compiles `block` for a function whose variables lie as `stack` says.
pub fn compile_block(block: &Vec<BlockNode>, stack: &Stack) -> (result: Result<String, String>)
    requires
        stack.wf(),
        all_supported(stmts_view(block@)),
    ensures
        match result {
            Ok(text) => block_text(stmts_view(block@), block.len() as int, stack@) == Ok::<
                Seq<char>,
                Seq<char>,
            >(text@),
            Err(complaint) => block_text(stmts_view(block@), block.len() as int, stack@) == Err::<
                Seq<char>,
                Seq<char>,
            >(complaint@),
        },
{
    let ghost stmts = stmts_view(block@);
    let mut text = String::new();
    let mut i: usize = 0;
    while i < block.len()
        invariant
            i <= block.len(),
            stack.wf(),
            stmts == stmts_view(block@),
            all_supported(stmts),
            block_text(stmts, i as int, stack@) == Ok::<Seq<char>, Seq<char>>(text@),
        decreases block.len() - i,
    {
        assert(stmts[i as int] == block[i as int]@);
        assert(is_supported_stmt(stmts[i as int]));
        let ghost before = text@;
        match &block[i] {
            BlockNode::VariableDefinition { name, declared_type, value } => {
                let offset = match stack.offset(name.as_str()) {
                    Some(offset) => offset,
                    None => {
                        proof {
                            lemma_complaint_stays(stmts, i + 1, block.len() as int, stack@);
                        }
                        return Err(
                            String::from_str("Could not get offset for variable ").concat(
                                name.as_str(),
                            ),
                        );
                    },
                };
                let load = match compile_expression(value, stack) {
                    Ok(load) => load,
                    Err(complaint) => {
                        return Err(complaint);
                    },
                };
                let store = store_line(*declared_type, "t0", offset);
                text.append(load.as_str());
                text.append(store.as_str());
                assert(text@ =~= before + (load@ + store@));
            },
            BlockNode::Return(value) => {
                let load = match compile_expression(value, stack) {
                    Ok(load) => load,
                    Err(complaint) => {
                        return Err(complaint);
                    },
                };
                text.append(load.as_str());
                text.append("    mv      a0, t0 # Prepare return variable\n");
                text.append("    j       0f     # Jump to end\n");
                assert(text@ =~= before + (load@ + return_text()));
            },
            _ => {
                unreached::<()>();
            },
        }
        i += 1;
    }
    Ok(text)
}

} // verus!
