use kwlang::compiler::block::{compile_block, store_line, supports_block};
use kwlang::compiler::expression::{compile_expression, supports_expression};
use kwlang::compiler::function::{compile_function, supports_function};
use kwlang::compiler::helper::{store_instruction, type_size};
use kwlang::compiler::stack::Stack;
use kwlang::compiler::{compile, supports};
use kwlang::parser::ast::{
    BlockNode, ExpressionNode, FunctionNode, FunctionParam, Program, TermNode, Type,
};

fn integer(value: i32) -> ExpressionNode {
    ExpressionNode::Term(TermNode::Integer(value))
}

fn define(name: &str, declared_type: Type, value: i32) -> BlockNode {
    BlockNode::VariableDefinition { name: name.to_string(), declared_type, value: integer(value) }
}

#[test]
fn sizes_and_store_instructions() {
    assert_eq!(type_size(Type::Int), 8);
    assert_eq!(type_size(Type::Bool), 1);
    assert_eq!(store_instruction(Type::Int), "sd");
    assert_eq!(store_instruction(Type::Bool), "sb");
}

#[test]
fn stack_offsets_count_from_the_top() {
    let mut stack = Stack::new();
    assert_eq!(stack.size(), 0);
    assert_eq!(stack.get_variable("a"), None);
    stack.add_variable("a", Type::Int);
    stack.add_variable("b", Type::Bool);
    stack.add_variable("c", Type::Int);
    assert_eq!(stack.size(), 17);
    assert_eq!(stack.get_variable("c"), Some((0, Type::Int)));
    assert_eq!(stack.get_variable("b"), Some((8, Type::Bool)));
    assert_eq!(stack.get_variable("a"), Some((9, Type::Int)));
    assert_eq!(stack.offset("a"), Some(9));
    assert_eq!(stack.offset("missing"), None);
}

#[test]
fn later_stack_entry_hides_earlier_of_the_same_name() {
    let mut stack = Stack::new();
    stack.add_variable("x", Type::Int);
    stack.add_variable("y", Type::Int);
    stack.add_variable("x", Type::Bool);
    assert_eq!(stack.get_variable("x"), Some((0, Type::Bool)));
    assert_eq!(stack.offset("y"), Some(1));
}

#[test]
fn integer_literal_is_loaded_into_t0() {
    let stack = Stack::new();
    assert!(supports_expression(&integer(42)));
    assert_eq!(
        compile_expression(&integer(42), &stack),
        Ok("    li      t0, 42 # Load term 42\n".to_string()),
    );
    assert_eq!(
        compile_expression(&integer(-7), &stack),
        Ok("    li      t0, -7 # Load term -7\n".to_string()),
    );
    assert_eq!(
        compile_expression(&integer(i32::MIN), &stack),
        Ok("    li      t0, -2147483648 # Load term -2147483648\n".to_string()),
    );
    assert!(!supports_expression(&ExpressionNode::Term(TermNode::Boolean(true))));
}

#[test]
fn store_line_names_instruction_register_and_offset() {
    assert_eq!(store_line(Type::Int, "t0", 16), "    sd      t0, -16(sp)\n");
    assert_eq!(store_line(Type::Bool, "a1", 0), "    sb      a1, -0(sp)\n");
}

#[test]
fn block_of_declaration_and_return() {
    let mut stack = Stack::new();
    stack.add_variable("x", Type::Int);
    stack.add_variable("flag", Type::Bool);
    let block = vec![define("x", Type::Int, 5), BlockNode::Return(integer(1))];
    assert!(supports_block(&block));
    assert_eq!(
        compile_block(&block, &stack),
        Ok("    li      t0, 5 # Load term 5\n    sd      t0, -1(sp)\n    li      t0, 1 # Load term 1\n    mv      a0, t0 # Prepare return variable\n    j       0f     # Jump to end\n"
            .to_string()),
    );
}

#[test]
fn block_with_variable_off_the_stack_is_refused() {
    let stack = Stack::new();
    let block = vec![define("x", Type::Int, 5), define("y", Type::Int, 6)];
    assert_eq!(
        compile_block(&block, &stack),
        Err("Could not get offset for variable x".to_string()),
    );
}

#[test]
fn unsupported_statements_are_recognised() {
    assert!(!supports_block(&vec![BlockNode::Expression(integer(1))]));
    assert!(!supports_block(&vec![BlockNode::Block(vec![])]));
    assert!(!supports_block(&vec![define("s", Type::String, 1)]));
    assert!(!supports_block(&vec![BlockNode::Return(ExpressionNode::Term(TermNode::Variable(
        "x".into()
    )))]));
    assert!(supports_block(&vec![]));
}

fn sample_function() -> FunctionNode {
    FunctionNode {
        name: "main".into(),
        parameters: vec![
            FunctionParam { name: "a".into(), declared_type: Type::Int },
            FunctionParam { name: "b".into(), declared_type: Type::Bool },
        ],
        return_type: Some(Type::Int),
        block: vec![define("x", Type::Int, 5), BlockNode::Return(integer(0))],
    }
}

const SAMPLE_TEXT: &str = "main: # Preamble
    addi    sp, sp, -25
    sd      ra, -17(sp)
    sd      a0, -9(sp)
    sb      a1, -8(sp)
    # Preamble end

    li      t0, 5 # Load term 5
    sd      t0, -0(sp)
    li      t0, 0 # Load term 0
    mv      a0, t0 # Prepare return variable
    j       0f     # Jump to end

0:  # Postamble
    ld      ra, -17(sp)
    addi    sp, sp, 25
    ret
";

#[test]
fn function_with_parameters_and_a_local() {
    let function = sample_function();
    assert!(supports_function(&function));
    assert_eq!(compile_function(&function), Ok(SAMPLE_TEXT.to_string()));
}

#[test]
fn function_with_text_parameter_is_not_supported() {
    let mut function = sample_function();
    function.parameters[0].declared_type = Type::String;
    assert!(!supports_function(&function));
}

#[test]
fn program_is_boot_code_marker_and_functions() {
    let mut second = sample_function();
    second.name = "other".into();
    second.parameters.clear();
    second.block.clear();
    let program = Program { nodes: vec![sample_function(), second] };
    assert!(supports(&program));
    let expected = format!(
        "boot:\n# Generated code start\n\n{}\n{}",
        SAMPLE_TEXT,
        "other: # Preamble
    addi    sp, sp, -8
    sd      ra, -0(sp)
    # Preamble end


0:  # Postamble
    ld      ra, -0(sp)
    addi    sp, sp, 8
    ret
"
    );
    assert_eq!(compile(&program, "boot:"), Ok(expected));
    assert_eq!(
        compile(&Program { nodes: vec![] }, "boot:"),
        Ok("boot:\n# Generated code start\n\n".to_string()),
    );
}
