use kwlang::parser::ast::{BinaryVerb, BlockNode, ExpressionNode, Program, TermNode};
use kwlang::parser::error::{LineInfo, ParseError};
use kwlang::parser::parse;

fn failure(input: &str) -> (String, (usize, usize), String) {
    match parse(input) {
        Err(ParseError::Error { message, line }) => (message, line.position, line.line),
        other => panic!("expected one failure, got {:?}", other),
    }
}

fn body(input: &str) -> Vec<BlockNode> {
    let mut program = parse(&format!("function f() {{{}}}", input)).expect("does not parse");
    program.nodes.remove(0).block
}

fn integer(value: i32) -> ExpressionNode {
    ExpressionNode::Term(TermNode::Integer(value))
}

fn variable(name: &str) -> ExpressionNode {
    ExpressionNode::Term(TermNode::Variable(name.to_string()))
}

fn binary(verb: BinaryVerb, lhs: ExpressionNode, rhs: ExpressionNode) -> ExpressionNode {
    ExpressionNode::BinaryOperation { verb, lhs: Box::new(lhs), rhs: Box::new(rhs) }
}

#[test]
fn text_outside_a_function_is_refused() {
    assert_eq!(
        failure("var x: int = 1;"),
        ("Expected a function declaration".to_string(), (1, 1), "var x: int = 1;".to_string()),
    );
}

#[test]
fn failure_is_located_by_line_and_column() {
    let (message, position, line) = failure("function f() {\n    var x: int = ;\n}\n");
    assert_eq!(message, "Expected an expression");
    assert_eq!(position, (2, 18));
    assert_eq!(line, "    var x: int = ;");
}

#[test]
fn unknown_type_is_quoted() {
    let (message, position, _) = failure("function f(x: float) {}");
    assert_eq!(message, "Invalid type float");
    assert_eq!(position, (1, 15));
}

#[test]
fn integer_literal_has_to_fit_32_bits() {
    assert_eq!(body("2147483647;"), vec![BlockNode::Expression(integer(i32::MAX))]);
    assert_eq!(body("-2147483648;"), vec![BlockNode::Expression(integer(i32::MIN))]);
    assert_eq!(body("007;"), vec![BlockNode::Expression(integer(7))]);
    let (message, position, _) = failure("function f() { 2147483648; }");
    assert_eq!(message, "Can't convert to int: 2147483648");
    assert_eq!(position, (1, 16));
    let (message, _, _) = failure("function f() { -2147483649; }");
    assert_eq!(message, "Can't convert to int: -2147483649");
    let (message, _, _) = failure("function f() { 99999999999999999999999999; }");
    assert_eq!(message, "Can't convert to int: 99999999999999999999999999");
}

#[test]
fn reserved_words_name_nothing() {
    let (message, _, _) = failure("function if() {}");
    assert_eq!(message, "Reserved word if");
    let (message, _, _) = failure("function f(var: int) {}");
    assert_eq!(message, "Reserved word var");
    let (message, _, _) = failure("function f() { return function; }");
    assert_eq!(message, "Reserved word function");
}

#[test]
fn each_missing_token_has_its_complaint() {
    assert_eq!(failure("function").0, "Expected a name");
    assert_eq!(failure("function f").0, "Expected (");
    assert_eq!(failure("function f(x").0, "Expected :");
    assert_eq!(failure("function f(x:").0, "Expected a type");
    assert_eq!(failure("function f(x: int").0, "Expected , or )");
    assert_eq!(failure("function f(x: int y").0, "Expected , or )");
    assert_eq!(failure("function f()").0, "Expected {");
    assert_eq!(failure("function f() ->").0, "Expected a type");
    assert_eq!(failure("function f() {").0, "Expected }");
    assert_eq!(failure("function f() { var x: int 5; }").0, "Expected =");
    assert_eq!(failure("function f() { x }").0, "Expected ;");
    assert_eq!(failure("function f() { if x {} }").0, "Expected (");
    assert_eq!(failure("function f() { if (x {} }").0, "Expected )");
    assert_eq!(failure("function f() { (1 + 2; }").0, "Expected )");
    assert_eq!(failure("function f() { 1 + ; }").0, "Expected an expression");
    assert_eq!(failure("function f() { \"open; }").0, "Text literal is not closed");
}

#[test]
fn failure_at_the_end_of_the_text_has_a_place() {
    let (message, position, line) = failure("function f() {\n  return 1;\n");
    assert_eq!(message, "Expected }");
    assert_eq!(position, (3, 1));
    assert_eq!(line, "");
}

#[test]
fn operators_group_to_the_left() {
    assert_eq!(
        body("a - b - c;"),
        vec![BlockNode::Expression(binary(
            BinaryVerb::Minus,
            binary(BinaryVerb::Minus, variable("a"), variable("b")),
            variable("c"),
        ))],
    );
    assert_eq!(
        body("x + 1 == 2;"),
        vec![BlockNode::Expression(binary(
            BinaryVerb::Compare,
            binary(BinaryVerb::Plus, variable("x"), integer(1)),
            integer(2),
        ))],
    );
    assert_eq!(
        body("a - (b - c);"),
        vec![BlockNode::Expression(binary(
            BinaryVerb::Minus,
            variable("a"),
            binary(BinaryVerb::Minus, variable("b"), variable("c")),
        ))],
    );
}

#[test]
fn sign_belongs_to_the_literal_only_where_a_term_starts() {
    assert_eq!(
        body("x -1;"),
        vec![BlockNode::Expression(binary(BinaryVerb::Minus, variable("x"), integer(1)))],
    );
    assert_eq!(
        body("x - -1;"),
        vec![BlockNode::Expression(binary(BinaryVerb::Minus, variable("x"), integer(-1)))],
    );
    assert_eq!(
        body("4+2;"),
        vec![BlockNode::Expression(binary(BinaryVerb::Plus, integer(4), integer(2)))],
    );
}

#[test]
fn comparison_is_not_taken_for_assignment() {
    assert_eq!(
        body("x == 1;"),
        vec![BlockNode::Expression(binary(BinaryVerb::Compare, variable("x"), integer(1)))],
    );
    assert_eq!(
        body("x = 1;"),
        vec![BlockNode::Assignment { lhs: "x".into(), rhs: integer(1) }],
    );
    assert_eq!(
        body("x=y==z;"),
        vec![BlockNode::Assignment {
            lhs: "x".into(),
            rhs: binary(BinaryVerb::Compare, variable("y"), variable("z")),
        }],
    );
}

#[test]
fn words_that_start_like_keywords_are_names() {
    assert_eq!(
        body("returned; iffy = 1; variable;"),
        vec![
            BlockNode::Expression(variable("returned")),
            BlockNode::Assignment { lhs: "iffy".into(), rhs: integer(1) },
            BlockNode::Expression(variable("variable")),
        ],
    );
}

#[test]
fn text_literal_keeps_what_stands_between_the_quotes() {
    assert_eq!(
        body("\"\"; \" a\tb \"; \"ü→\";"),
        vec![
            BlockNode::Expression(ExpressionNode::Term(TermNode::String(String::new()))),
            BlockNode::Expression(ExpressionNode::Term(TermNode::String(" a\tb ".into()))),
            BlockNode::Expression(ExpressionNode::Term(TermNode::String("ü→".into()))),
        ],
    );
}

#[test]
fn white_space_separates_and_is_otherwise_ignored() {
    let spaced = parse("\n\tfunction  main ( )\r\n->  int\n{ return\n1 ; }\n\n").unwrap();
    let dense = parse("function main()->int{return 1;}").unwrap();
    assert_eq!(spaced, dense);
    assert_eq!(parse("   \n "), Ok(Program { nodes: vec![] }));
}

#[test]
fn merge_keeps_values_or_collects_all_failures() {
    let at = |line: usize| ParseError::Error {
        message: format!("failure {line}"),
        line: LineInfo { position: (line, 1), line: String::new() },
    };
    assert_eq!(ParseError::merge::<i32>(vec![]), Ok(vec![]));
    assert_eq!(ParseError::merge(vec![Ok(1), Ok(2), Ok(3)]), Ok(vec![1, 2, 3]));
    assert_eq!(
        ParseError::merge(vec![Ok(1), Err(at(1)), Ok(2), Err(at(2))]),
        Err(ParseError::ErrorList(vec![at(1), at(2)])),
    );
    assert_eq!(
        ParseError::merge::<i32>(vec![Err(at(7))]),
        Err(ParseError::ErrorList(vec![at(7)])),
    );
}

#[test]
fn failure_is_described_with_its_place() {
    let error = parse("function f() {\n  x = ;\n}").unwrap_err();
    assert_eq!(error.describe(), "Error at (2, 7):   x = ;\n\tExpected an expression");
    let list = ParseError::ErrorList(vec![
        ParseError::Error {
            message: "first".into(),
            line: LineInfo { position: (1, 2), line: "a".into() },
        },
        ParseError::Error {
            message: "second".into(),
            line: LineInfo { position: (30, 40), line: "b".into() },
        },
    ]);
    assert_eq!(
        list.describe(),
        "Error at (1, 2): a\n\tfirstError at (30, 40): b\n\tsecond",
    );
    assert_eq!(ParseError::ErrorList(vec![]).describe(), "");
}
