//! The assembly text of functions.

use crate::compiler::block::{
    all_supported, block_text, compile_block, store_line, store_text, supports_block,
};
use crate::compiler::helper::is_sized;
use crate::compiler::stack::{frame_size, SpecEntry, SpecStack, Stack};
use crate::parser::ast::{
    stmts_view, BlockNode, FunctionNode, SpecFunction, SpecParam, SpecStmt, Type,
};
use crate::text::{format_natural, natural_text};
use vstd::prelude::*;
use vstd::string::StringExecFns;

verus! {

/// The name under which a frame holds the address to return to.
pub open spec fn return_address() -> Seq<char> {
    "__return_address__"@
}

/// The stack entries of the first `count` parameters.
pub open spec fn param_entries(params: Seq<SpecParam>, count: int) -> Seq<SpecEntry>
    decreases count,
{
    if count <= 0 {
        Seq::empty()
    } else {
        param_entries(params, count - 1).push(
            SpecEntry { name: params[count - 1].name, declared_type: params[count - 1].declared_type },
        )
    }
}

/// The stack entries of the variables that the first `count` statements
/// declare. Declarations inside nested blocks get none.
pub open spec fn local_entries(stmts: Seq<SpecStmt>, count: int) -> Seq<SpecEntry>
    decreases count,
{
    if count <= 0 {
        Seq::empty()
    } else {
        match stmts[count - 1] {
            SpecStmt::VariableDefinition { name, declared_type, value } => local_entries(
                stmts,
                count - 1,
            ).push(SpecEntry { name, declared_type }),
            _ => local_entries(stmts, count - 1),
        }
    }
}

/// The frame of a function: the return address, the parameters and the
/// variables that its body declares, pushed in this order.
pub open spec fn frame_of(function: SpecFunction) -> SpecStack {
    SpecStack {
        parent: None,
        variables: seq![SpecEntry { name: return_address(), declared_type: Type::Int }]
            + param_entries(function.parameters, function.parameters.len() as int)
            + local_entries(function.block, function.block.len() as int),
    }
}

/// The label of a function and the instructions that open its frame and
/// save the return address.
pub open spec fn preamble_text(name: Seq<char>, size: nat, saved: nat) -> Seq<char> {
    name + ": # Preamble\n    addi    sp, sp, -"@ + natural_text(size) + "\n    sd      ra, -"@
        + natural_text(saved) + "(sp)\n"@
}

/// The instructions that store the first `count` parameters, which arrive
/// in the registers `a0`, `a1` and so on, or the complaint about the first
/// of them that has no place on `stack`.
pub open spec fn param_stores(params: Seq<SpecParam>, count: int, stack: SpecStack) -> Result<
    Seq<char>,
    Seq<char>,
>
    decreases count,
{
    if count <= 0 {
        Ok(Seq::empty())
    } else {
        match param_stores(params, count - 1, stack) {
            Err(complaint) => Err(complaint),
            Ok(before) => match stack.find(params[count - 1].name) {
                None => Err("Could not get offset for parameter "@ + params[count - 1].name),
                Some((offset, _)) => Ok(
                    before + store_text(
                        params[count - 1].declared_type,
                        "a"@ + natural_text((count - 1) as nat),
                        offset,
                    ),
                ),
            },
        }
    }
}

/// The instructions that restore the return address, close the frame and
/// return.
pub open spec fn postamble_text(size: nat, saved: nat) -> Seq<char> {
    "0:  # Postamble\n    ld      ra, -"@ + natural_text(saved) + "(sp)\n    addi    sp, sp, "@
        + natural_text(size) + "\n    ret\n"@
}

/// The assembly text of a function: preamble, body and postamble.
pub open spec fn function_text(function: SpecFunction) -> Result<Seq<char>, Seq<char>> {
    let stack = frame_of(function);
    let size = frame_size(stack.variables);
    match stack.find(return_address()) {
        None => Err("Can not find return address offset"@),
        Some((saved, _)) => match param_stores(
            function.parameters,
            function.parameters.len() as int,
            stack,
        ) {
            Err(complaint) => Err(complaint),
            Ok(stores) => match block_text(function.block, function.block.len() as int, stack) {
                Err(complaint) => Err(complaint),
                Ok(body) => Ok(
                    preamble_text(function.name, size, saved) + stores + "    # Preamble end"@
                        + "\n\n"@ + body + "\n"@ + postamble_text(size, saved),
                ),
            },
        },
    }
}

/// Whether the backend can compile `function`: it can hold the parameters
/// on the stack and compile each statement of the body.
pub open spec fn is_supported_function(function: SpecFunction) -> bool {
    &&& forall|i: int|
        0 <= i < function.parameters.len() ==> is_sized(
            #[trigger] function.parameters[i].declared_type,
        )
    &&& all_supported(function.block)
}

/// Once a parameter has a complaint, the complaint is that of every
/// longer run of parameters.
pub proof fn lemma_param_complaint_stays(
    params: Seq<SpecParam>,
    count: int,
    longer: int,
    stack: SpecStack,
)
    requires
        count <= longer,
        param_stores(params, count, stack) is Err,
    ensures
        param_stores(params, longer, stack) == param_stores(params, count, stack),
    decreases longer - count,
{
    if count < longer {
        lemma_param_complaint_stays(params, count, longer - 1, stack);
    }
}

/// Whether the backend can compile a function of this many parameters and
/// statements: their stack entries have to fit the address space.
pub open spec fn fits_frame(function: SpecFunction) -> bool {
    8 * (1 + function.parameters.len() + function.block.len()) <= usize::MAX
}

/// Whether the backend can compile `function`.
pub fn supports_function(function: &FunctionNode) -> (supported: bool)
    ensures
        supported == (is_supported_function(function@) && fits_frame(function@)),
{
    let ghost params = function@.parameters;
    let limit: usize = usize::MAX / 8;
    if function.parameters.len() >= limit || function.block.len() >= limit
        - function.parameters.len() {
        return false;
    }
    let mut i: usize = 0;
    while i < function.parameters.len()
        invariant
            i <= function.parameters.len(),
            params == function@.parameters,
            fits_frame(function@),
            forall|j: int| 0 <= j < i ==> is_sized(#[trigger] params[j].declared_type),
        decreases function.parameters.len() - i,
    {
        assert(params[i as int] == function.parameters[i as int]@);
        if function.parameters[i].declared_type == Type::String {
            assert(!is_sized(params[i as int].declared_type));
            return false;
        }
        i += 1;
    }
    supports_block(&function.block)
}

/// Lays out the frame of `function`.
fn layout<'a>(function: &FunctionNode) -> (stack: Stack<'a>)
    requires
        is_supported_function(function@),
        fits_frame(function@),
    ensures
        stack.wf(),
        stack@ == frame_of(function@),
{
    let ghost params = function@.parameters;
    let ghost stmts = function@.block;
    let ghost first = seq![SpecEntry { name: return_address(), declared_type: Type::Int }];
    let mut stack = Stack::new();
    stack.add_variable("__return_address__", Type::Int);
    assert(stack@.variables =~= first + param_entries(params, 0));
    let mut i: usize = 0;
    while i < function.parameters.len()
        invariant
            i <= function.parameters.len(),
            is_supported_function(function@),
            fits_frame(function@),
            params == function@.parameters,
            first == seq![SpecEntry { name: return_address(), declared_type: Type::Int }],
            stack.wf(),
            stack@.parent is None,
            stack@.variables == first + param_entries(params, i as int),
            stack@.total_size() <= 8 * (1 + i),
        decreases function.parameters.len() - i,
    {
        let param = &function.parameters[i];
        assert(params[i as int] == param@);
        let ghost before = stack@.variables;
        stack.add_variable(param.name.as_str(), param.declared_type);
        proof {
            assert(stack@.variables.drop_last() =~= before);
            assert(stack@.variables =~= first + param_entries(params, i + 1));
        }
        i += 1;
    }
    let ghost fixed = stack@.variables;
    assert(stack@.variables =~= fixed + local_entries(stmts, 0));
    let ghost mut declared: nat = 0;
    let mut j: usize = 0;
    while j < function.block.len()
        invariant
            j <= function.block.len(),
            is_supported_function(function@),
            fits_frame(function@),
            stmts == function@.block,
            stmts == stmts_view(function.block@),
            fixed == first + param_entries(params, function.parameters.len() as int),
            params == function@.parameters,
            stack.wf(),
            stack@.parent is None,
            stack@.variables == fixed + local_entries(stmts, j as int),
            stack@.total_size() <= 8 * (1 + function.parameters.len() + j),
        decreases function.block.len() - j,
    {
        assert(stmts[j as int] == function.block[j as int]@);
        assert(crate::compiler::block::is_supported_stmt(stmts[j as int]));
        let ghost before = stack@.variables;
        match &function.block[j] {
            BlockNode::VariableDefinition { name, declared_type, value } => {
                stack.add_variable(name.as_str(), *declared_type);
                proof {
                    assert(stack@.variables.drop_last() =~= before);
                    assert(stack@.variables =~= fixed + local_entries(stmts, j + 1));
                }
            },
            _ => {},
        }
        j += 1;
    }
    stack
}

/// Compiles `function` to assembly text.
pub fn compile_function(function: &FunctionNode) -> (result: Result<String, String>)
    requires
        is_supported_function(function@),
        fits_frame(function@),
    ensures
        match result {
            Ok(text) => function_text(function@) == Ok::<Seq<char>, Seq<char>>(text@),
            Err(complaint) => function_text(function@) == Err::<Seq<char>, Seq<char>>(complaint@),
        },
{
    let stack = layout(function);
    let ghost params = function@.parameters;
    let size = format_natural(stack.size() as u64);
    let saved = match stack.offset("__return_address__") {
        Some(offset) => format_natural(offset as u64),
        None => {
            return Err(String::from_str("Can not find return address offset"));
        },
    };
    let mut text = function.name.clone();
    text.append(": # Preamble\n    addi    sp, sp, -");
    text.append(size.as_str());
    text.append("\n    sd      ra, -");
    text.append(saved.as_str());
    text.append("(sp)\n");
    let ghost head = text@;
    let mut i: usize = 0;
    let ghost mut stores: Seq<char> = Seq::empty();
    assert(text@ =~= head + stores);
    while i < function.parameters.len()
        invariant
            i <= function.parameters.len(),
            is_supported_function(function@),
            params == function@.parameters,
            stack.wf(),
            stack@ == frame_of(function@),
            stack@.find(return_address()) is Some,
            param_stores(params, i as int, stack@) == Ok::<Seq<char>, Seq<char>>(stores),
            text@ == head + stores,
        decreases function.parameters.len() - i,
    {
        let param = &function.parameters[i];
        assert(params[i as int] == param@);
        let offset = match stack.offset(param.name.as_str()) {
            Some(offset) => offset,
            None => {
                proof {
                    lemma_param_complaint_stays(
                        params,
                        i + 1,
                        function.parameters.len() as int,
                        stack@,
                    );
                }
                return Err(
                    String::from_str("Could not get offset for parameter ").concat(
                        param.name.as_str(),
                    ),
                );
            },
        };
        let register = String::from_str("a").concat(format_natural(i as u64).as_str());
        let store = store_line(param.declared_type, register.as_str(), offset);
        text.append(store.as_str());
        proof {
            stores = stores + store@;
            assert(text@ =~= head + stores);
        }
        i += 1;
    }
    let body = match compile_block(&function.block, &stack) {
        Ok(body) => body,
        Err(complaint) => {
            return Err(complaint);
        },
    };
    text.append("    # Preamble end");
    text.append("\n\n");
    text.append(body.as_str());
    text.append("\n");
    text.append("0:  # Postamble\n    ld      ra, -");
    text.append(saved.as_str());
    text.append("(sp)\n    addi    sp, sp, ");
    text.append(size.as_str());
    text.append("\n    ret\n");
    proof {
        let frame = frame_size(stack@.variables);
        let at = stack@.find(return_address())->Some_0.0;
        assert(text@ =~= preamble_text(function@.name, frame, at) + stores + "    # Preamble end"@
            + "\n\n"@ + body@ + "\n"@ + postamble_text(frame, at));
    }
    Ok(text)
}

} // verus!
