use kwlang::parser::ast::{
    BinaryVerb, BlockNode, ExpressionNode, FunctionNode, FunctionParam, Program, TermNode, Type,
};
use kwlang::parser::parse;

fn parse_helper(input: &str) -> Program {
    parse(input).unwrap_or_else(|e| {
        panic!("{}", e.describe());
    })
}

fn parse_block(input: &str) -> Vec<BlockNode> {
    let mut program = parse_helper(&format!("function test() {{{}}}", input));
    assert_eq!(program.nodes.len(), 1);
    program.nodes.remove(0).block
}

#[test]
fn block_test_variable_def() {
    let nodes = parse_block("var x: int = 5;");

    let expected = vec![
        BlockNode::VariableDefinition {
            name: "x".into(),
            declared_type: Type::Int,
            value: ExpressionNode::Term(
                TermNode::Integer(5)
            )
        }
    ];

    assert_eq!(nodes, expected);
}

#[test]
fn block_test_assignment() {
    let nodes = parse_block("
        var x: int = 5;
        x = 9;
    ");

    let expected = vec![
        BlockNode::VariableDefinition {
            name: "x".into(),
            declared_type: Type::Int,
            value: ExpressionNode::Term(
                TermNode::Integer(5)
            )
        },
        BlockNode::Assignment {
            lhs: "x".into(),
            rhs: ExpressionNode::Term(
                TermNode::Integer(9)
            )
        }
    ];

    assert_eq!(nodes, expected);
}

#[test]
fn block_test_return() {
    let nodes = parse_block("
        return 5;
    ");

    let expected = vec![
        BlockNode::Return(
            ExpressionNode::Term(
                TermNode::Integer(5)
            )
        ),
    ];

    assert_eq!(nodes, expected);
}

#[test]
fn test_nested() {
    let nodes = parse_block("
        {
        }
    ");

    let expected = vec![
        BlockNode::Block(vec![]),
    ];

    assert_eq!(nodes, expected);

    let nodes = parse_block("
        var x: int = 5;
        {
            var y: int = 10;
            {
                x = y;
            }

            return x;
        }
    ");

    let expected = vec![
        BlockNode::VariableDefinition {
            name: "x".into(),
            declared_type: Type::Int,
            value: ExpressionNode::Term(
                TermNode::Integer(5)
            )
        },

        BlockNode::Block(vec![
            BlockNode::VariableDefinition {
                name: "y".into(),
                declared_type: Type::Int,
                value: ExpressionNode::Term(
                    TermNode::Integer(10)
                )
            },

            BlockNode::Block(vec![
                BlockNode::Assignment {
                    lhs: "x".into(),
                    rhs: ExpressionNode::Term(
                        TermNode::Variable("y".into())
                    )
                }
            ]),

            BlockNode::Return(
                ExpressionNode::Term(
                    TermNode::Variable("x".into())
                )
            ),
        ]),
    ];

    assert_eq!(nodes, expected);
}

#[test]
fn block_test_if_statement() {
    let nodes = parse_block("
        var x: int = 5;
        if (x == 5) {
            return x;
        }
    ");

    let expected = vec![
        BlockNode::VariableDefinition {
            name: "x".into(),
            declared_type: Type::Int,
            value: ExpressionNode::Term(
                TermNode::Integer(5)
            )
        },

        BlockNode::IfStatement {
            condition: ExpressionNode::BinaryOperation {
                verb: BinaryVerb::Compare,
                lhs: ExpressionNode::Term(TermNode::Variable("x".to_string())).into(),
                rhs: ExpressionNode::Term(TermNode::Integer(5)).into(),
            },
            block: vec![
                BlockNode::Return(
                    ExpressionNode::Term(
                        TermNode::Variable("x".into())
                    )
                ),
            ],
        },
    ];

    assert_eq!(nodes, expected);
}

#[test]
fn expression_test_expr_addition() {
    let nodes = parse_block("
        +5;
        (9 + x) + 8;
    ");

    let expected = vec![
        BlockNode::Expression(
            ExpressionNode::Term(
                TermNode::Integer(5)
            )
        ),
        BlockNode::Expression (
            ExpressionNode::BinaryOperation {
                verb: BinaryVerb::Plus,
                lhs: ExpressionNode::BinaryOperation {
                    verb: BinaryVerb::Plus,
                    lhs: ExpressionNode::Term(
                        TermNode::Integer(9)
                    ).into(),
                    rhs: ExpressionNode::Term(
                        TermNode::Variable("x".into())
                    ).into(),
                }.into(),
                rhs: ExpressionNode::Term(
                    TermNode::Integer(8)
                ).into()
            }
        ),
    ];

    assert_eq!(nodes, expected);
}

#[test]
fn expression_test_negative_int() {
    let nodes = parse_block("
        -5;
        -4 - -2;
    ");

    let expected = vec![
        BlockNode::Expression(
            ExpressionNode::Term(
                TermNode::Integer(-5)
            )
        ),
        BlockNode::Expression(
            ExpressionNode::BinaryOperation {
                verb: BinaryVerb::Minus,
                lhs: ExpressionNode::Term(
                    TermNode::Integer(-4)
                ).into(),
                rhs: ExpressionNode::Term(
                    TermNode::Integer(-2)
                ).into(),
            }
        ),
    ];

    assert_eq!(nodes, expected);
}

#[test]
fn expression_test_string() {
    let nodes = parse_block("
        \"This is a test\";
    ");

    let expected = vec![
        BlockNode::Expression(
            ExpressionNode::Term(
                TermNode::String("This is a test".into())
            )
        ),
    ];

    assert_eq!(nodes, expected);
}

#[test]
fn expression_test_bool() {
    let nodes = parse_block("
        true;
        false;
    ");

    let expected = vec![
        BlockNode::Expression(
            ExpressionNode::Term(
                TermNode::Boolean(true)
            )
        ),
        BlockNode::Expression(
            ExpressionNode::Term(
                TermNode::Boolean(false)
            )
        ),
    ];

    assert_eq!(nodes, expected);
}

#[test]
fn function_test_function_simple() {
    let ast = parse_helper("function test() {}");

    let expected = FunctionNode {
        name: "test".into(),
        parameters: vec![],
        return_type: None,
        block: vec![],
    };

    assert_eq!(ast.nodes.len(), 1);
    assert_eq!(ast.nodes[0], expected);
}

#[test]
fn function_test_function_params() {
    let ast = parse_helper("function test(x: int, y: string) {}");

    let expected = FunctionNode {
        name: "test".into(),
        parameters: vec![
            FunctionParam {
                name: "x".into(),
                declared_type: Type::Int,
            },
            FunctionParam {
                name: "y".into(),
                declared_type: Type::String,
            }
        ],
        return_type: None,
        block: vec![],
    };

    assert_eq!(ast.nodes.len(), 1);
    assert_eq!(ast.nodes[0], expected);
}

#[test]
fn function_test_function_return_type() {
    let ast = parse_helper("function test() -> string {}");

    let expected = FunctionNode {
        name: "test".into(),
        parameters: vec![],
        return_type: Some(Type::String),
        block: vec![],
    };

    assert_eq!(ast.nodes.len(), 1);
    assert_eq!(ast.nodes[0], expected);
}

#[test]
fn test_function_return_type_with_block() {
    let ast = parse_helper("function test() -> string { return 5; }");

    let expected = FunctionNode {
        name: "test".into(),
        parameters: vec![],
        return_type: Some(Type::String),
        block: vec![
            BlockNode::Return(
                ExpressionNode::Term(TermNode::Integer(5))
            )
        ],
    };

    assert_eq!(ast.nodes.len(), 1);
    assert_eq!(ast.nodes[0], expected);
}

#[test]
fn program_test_empty_program() {
    let program = parse_helper("");

    assert_eq!(program.nodes.len(), 0);
}

#[test]
fn program_test_function_simple() {
    let ast = parse_helper("function test() {}");

    let expected = FunctionNode {
        name: "test".into(),
        parameters: vec![],
        return_type: None,
        block: vec![],
    };

    assert_eq!(ast.nodes.len(), 1);
    assert_eq!(ast.nodes[0], expected);
}

#[test]
fn program_test_function_params() {
    let ast = parse_helper("function test(x: int, y: string) {}");

    let expected = FunctionNode {
        name: "test".into(),
        parameters: vec![
            FunctionParam {
                name: "x".into(),
                declared_type: Type::Int,
            },
            FunctionParam {
                name: "y".into(),
                declared_type: Type::String,
            }
        ],
        return_type: None,
        block: vec![],
    };

    assert_eq!(ast.nodes.len(), 1);
    assert_eq!(ast.nodes[0], expected);
}

#[test]
fn program_test_function_return_type() {
    let ast = parse_helper("function test() -> string {}");

    let expected = FunctionNode {
        name: "test".into(),
        parameters: vec![],
        return_type: Some(Type::String),
        block: vec![],
    };

    assert_eq!(ast.nodes.len(), 1);
    assert_eq!(ast.nodes[0], expected);
}

#[test]
fn tests_test_empty_program() {
    let program = parse_helper("");

    assert_eq!(program.nodes.len(), 0);
}

#[test]
fn tests_test_function_simple() {
    let ast = parse_helper("function test() {}");

    let expected = FunctionNode {
        name: "test".into(),
        parameters: vec![],
        return_type: None,
        block: vec![],
    };

    assert_eq!(ast.nodes.len(), 1);
    assert_eq!(ast.nodes[0], expected);
}

#[test]
fn tests_test_function_params() {
    let ast = parse_helper("function test(x: int, y: string) {}");

    let expected = FunctionNode {
        name: "test".into(),
        parameters: vec![
            FunctionParam {
                name: "x".into(),
                declared_type: Type::Int,
            },
            FunctionParam {
                name: "y".into(),
                declared_type: Type::String,
            }
        ],
        return_type: None,
        block: vec![],
    };

    assert_eq!(ast.nodes.len(), 1);
    assert_eq!(ast.nodes[0], expected);
}

#[test]
fn tests_test_function_return_type() {
    let ast = parse_helper("function test() -> string {}");

    let expected = FunctionNode {
        name: "test".into(),
        parameters: vec![],
        return_type: Some(Type::String),
        block: vec![],
    };

    assert_eq!(ast.nodes.len(), 1);
    assert_eq!(ast.nodes[0], expected);
}

#[test]
fn tests_test_variable_def() {
    let ast = parse_helper("
        function test() {
            var x: int = 5;
        }
    ");

    let expected = FunctionNode {
        name: "test".into(),
        parameters: vec![],
        return_type: None,
        block: vec![
            BlockNode::VariableDefinition {
                name: "x".into(),
                declared_type: Type::Int,
                value: ExpressionNode::Term(
                    TermNode::Integer(5)
                )
            }
        ],
    };

    assert_eq!(ast.nodes.len(), 1);
    assert_eq!(ast.nodes[0], expected);
}

#[test]
fn tests_test_assignment() {
    let ast = parse_helper("
        function test() {
            var x: int = 5;
            x = 9;
        }
    ");

    let expected = FunctionNode {
        name: "test".into(),
        parameters: vec![],
        return_type: None,
        block: vec![
            BlockNode::VariableDefinition {
                name: "x".into(),
                declared_type: Type::Int,
                value: ExpressionNode::Term(
                    TermNode::Integer(5)
                )
            },
            BlockNode::Assignment {
                lhs: "x".into(),
                rhs: ExpressionNode::Term(
                    TermNode::Integer(9)
                )
            }
        ],
    };

    assert_eq!(ast.nodes.len(), 1);
    assert_eq!(ast.nodes[0], expected);
}

#[test]
fn tests_test_expr_addition() {
    let ast = parse_helper("
        function test() {
            var x: int = +5;
            x = (9 + x) + 8;
        }
    ");

    let expected = FunctionNode {
        name: "test".into(),
        parameters: vec![],
        return_type: None,
        block: vec![
            BlockNode::VariableDefinition {
                name: "x".into(),
                declared_type: Type::Int,
                value: ExpressionNode::Term(
                    TermNode::Integer(5)
                )
            },
            BlockNode::Assignment {
                lhs: "x".into(),
                rhs: ExpressionNode::BinaryOperation {
                    verb: BinaryVerb::Plus,
                    lhs: ExpressionNode::BinaryOperation {
                        verb: BinaryVerb::Plus,
                        lhs: ExpressionNode::Term(
                            TermNode::Integer(9)
                        ).into(),
                        rhs: ExpressionNode::Term(
                            TermNode::Variable("x".into())
                        ).into(),
                    }.into(),
                    rhs: ExpressionNode::Term(
                        TermNode::Integer(8)
                    ).into()
                }
            }
        ],
    };

    assert_eq!(ast.nodes.len(), 1);
    assert_eq!(ast.nodes[0], expected);
}

#[test]
fn tests_test_negative_int() {
    let ast = parse_helper("
        function test() {
            var x: int = -5;
            x = -4 - -2;
        }
    ");

    let expected = FunctionNode {
        name: "test".into(),
        parameters: vec![],
        return_type: None,
        block: vec![
            BlockNode::VariableDefinition {
                name: "x".into(),
                declared_type: Type::Int,
                value: ExpressionNode::Term(
                    TermNode::Integer(-5)
                )
            },
            BlockNode::Assignment {
                lhs: "x".into(),
                rhs: ExpressionNode::BinaryOperation {
                    verb: BinaryVerb::Minus,
                    lhs: ExpressionNode::Term(
                        TermNode::Integer(-4)
                    ).into(),
                    rhs: ExpressionNode::Term(
                        TermNode::Integer(-2)
                    ).into(),
                }
            }
        ],
    };

    assert_eq!(ast.nodes.len(), 1);
    assert_eq!(ast.nodes[0], expected);
}

#[test]
fn tests_test_string() {
    let ast = parse_helper("
        function test() {
            var x: string = \"This is a test\";
        }
    ");

    let expected = FunctionNode {
        name: "test".into(),
        parameters: vec![],
        return_type: None,
        block: vec![
            BlockNode::VariableDefinition {
                name: "x".into(),
                declared_type: Type::String,
                value: ExpressionNode::Term(
                    TermNode::String("This is a test".into())
                )
            },
        ],
    };

    assert_eq!(ast.nodes.len(), 1);
    assert_eq!(ast.nodes[0], expected);
}

#[test]
fn tests_test_bool() {
    let ast = parse_helper("
        function test() {
            var x: bool = true;
            var y: bool = false;
        }
    ");

    let expected = FunctionNode {
        name: "test".into(),
        parameters: vec![],
        return_type: None,
        block: vec![
            BlockNode::VariableDefinition {
                name: "x".into(),
                declared_type: Type::Bool,
                value: ExpressionNode::Term(
                    TermNode::Boolean(true)
                )
            },
            BlockNode::VariableDefinition {
                name: "y".into(),
                declared_type: Type::Bool,
                value: ExpressionNode::Term(
                    TermNode::Boolean(false)
                )
            },
        ],
    };

    assert_eq!(ast.nodes.len(), 1);
    assert_eq!(ast.nodes[0], expected);
}

#[test]
fn tests_test_return() {
    let ast = parse_helper("
        function test() {
            return 5;
        }
    ");

    let expected = FunctionNode {
        name: "test".into(),
        parameters: vec![],
        return_type: None,
        block: vec![
            BlockNode::Return(
                ExpressionNode::Term(
                    TermNode::Integer(5)
                )
            ),
        ],
    };

    assert_eq!(ast.nodes.len(), 1);
    assert_eq!(ast.nodes[0], expected);
}
