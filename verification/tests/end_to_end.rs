use kwlang::parser::parse;
use kwlang::vm::error::EvalError;
use kwlang::vm::run;

fn run_text(input: &str) -> Result<i32, EvalError> {
    run(&parse(input).expect("does not parse"))
}

#[test]
fn sum_of_literals() {
    assert_eq!(run_text("function main() -> int { return 2 + 3; }"), Ok(5));
}

#[test]
fn declared_variable() {
    assert_eq!(run_text("function main() -> int { var x: int = 5; return x; }"), Ok(5));
}

#[test]
fn assignment_inside_conditional() {
    assert_eq!(
        run_text("function main() -> int { var x: int = 0; if (x == 0) { x = 5; } return x; }"),
        Ok(5),
    );
}

#[test]
fn assignment_inside_block_is_seen_outside() {
    assert_eq!(run_text("function main() -> int { var x: int = 1; { x = 2; } return x; }"), Ok(2));
}

#[test]
fn return_from_doubly_nested_block() {
    assert_eq!(
        run_text(
            "function main() -> int { { if (true) { return 1; } return 2; } return 3; }"
        ),
        Ok(1),
    );
}

#[test]
fn no_main() {
    assert_eq!(run_text(""), Err(EvalError::NoMainFunction));
    assert_eq!(run_text("function other() -> int { return 1; }"), Err(EvalError::NoMainFunction));
}

#[test]
fn main_declared_to_return_text() {
    assert_eq!(
        run_text("function main() -> string { return \"text\"; }"),
        Err(EvalError::InvalidMainSignature),
    );
    assert_eq!(
        run_text("function main() -> string { return \"a\" + \"b\"; }"),
        Err(EvalError::InvalidMainSignature),
    );
}

#[test]
fn text_and_truth_values_in_a_program() {
    assert_eq!(
        run_text(
            "function main() -> int {
                var greeting: string = \"Hello\" + \"World\";
                var same: bool = greeting == \"HelloWorld\";
                if (same == true) { return 0 - 1; }
                return 1;
            }"
        ),
        Ok(-1),
    );
}
