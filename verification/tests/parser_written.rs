use kwlang::parser::ast::{
    BinaryVerb, BlockNode, ExpressionNode, FunctionNode, FunctionParam, Program, TermNode, Type,
};
use kwlang::parser::parse;

fn integer(value: i32) -> ExpressionNode {
    ExpressionNode::Term(TermNode::Integer(value))
}

fn variable(name: &str) -> ExpressionNode {
    ExpressionNode::Term(TermNode::Variable(name.to_string()))
}

fn binary(verb: BinaryVerb, lhs: ExpressionNode, rhs: ExpressionNode) -> ExpressionNode {
    ExpressionNode::BinaryOperation { verb, lhs: Box::new(lhs), rhs: Box::new(rhs) }
}

#[test]
fn canonical_text_is_read_back() {
    let text = "function pick(a: int, flag: bool) -> int { var x: int = a - (1 + -2); \
if (flag == true) { x = x + 1; { \"note\"; } return x; } return 0 - x; }\n\
function nothing() { }\n";
    let expected = Program {
        nodes: vec![
            FunctionNode {
                name: "pick".into(),
                parameters: vec![
                    FunctionParam { name: "a".into(), declared_type: Type::Int },
                    FunctionParam { name: "flag".into(), declared_type: Type::Bool },
                ],
                return_type: Some(Type::Int),
                block: vec![
                    BlockNode::VariableDefinition {
                        name: "x".into(),
                        declared_type: Type::Int,
                        value: binary(
                            BinaryVerb::Minus,
                            variable("a"),
                            binary(BinaryVerb::Plus, integer(1), integer(-2)),
                        ),
                    },
                    BlockNode::IfStatement {
                        condition: binary(
                            BinaryVerb::Compare,
                            variable("flag"),
                            ExpressionNode::Term(TermNode::Boolean(true)),
                        ),
                        block: vec![
                            BlockNode::Assignment {
                                lhs: "x".into(),
                                rhs: binary(BinaryVerb::Plus, variable("x"), integer(1)),
                            },
                            BlockNode::Block(vec![BlockNode::Expression(ExpressionNode::Term(
                                TermNode::String("note".into()),
                            ))]),
                            BlockNode::Return(variable("x")),
                        ],
                    },
                    BlockNode::Return(binary(BinaryVerb::Minus, integer(0), variable("x"))),
                ],
            },
            FunctionNode {
                name: "nothing".into(),
                parameters: vec![],
                return_type: None,
                block: vec![],
            },
        ],
    };
    assert_eq!(parse(text), Ok(expected));
}

#[test]
fn copies_of_a_tree_are_equal_to_it() {
    let program = parse("function f(a: int) -> int { if (a == 1) { return a; } return 2; }")
        .expect("does not parse");
    assert_eq!(program.clone(), program);
    assert_eq!(program.nodes[0].block[0].clone(), program.nodes[0].block[0]);
}
