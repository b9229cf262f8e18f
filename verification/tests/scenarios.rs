use compiler::interpreter::Interpreter;
use compiler::pipeline::{build_program, parse, Error};
use compiler::parser::ParseError;
use compiler::semantic::SemanticError;
use compiler::token::{Token, TokenKind};
use compiler::vm::vm::{RunEnd, VM};

fn output_of(source: &str) -> Vec<String> {
    let program = build_program(source).expect("the program compiles");
    let mut vm = VM::new(program).expect("the program loads");
    let run = vm.run(1_000_000);
    assert_eq!(run.end, RunEnd::Halted);
    run.output
}

#[test]
fn while_loop_counts_to_three_in_the_reference_interpreter() {
    let source = "fn main() { let x = 0; while (x < 3) { print(x); x = x + 1; } }";
    let program = parse(source).expect("the text parses");
    let run = Interpreter::new(&program).run(100);
    assert_eq!(run.end, RunEnd::Halted);
    assert_eq!(run.output, vec!["0", "1", "2"]);
}

#[test]
fn while_loop_with_counter_assigned_in_body_prints_zero_forever_on_the_machine() {
    let source = "fn main() { let x = 0; while (x < 3) { print(x); x = x + 1; } }";
    let program = build_program(source).expect("the program compiles");
    let mut vm = VM::new(program).expect("the program loads");
    let run = vm.run(1_000);
    assert_eq!(run.end, RunEnd::StepLimit);
    assert!(run.output.len() > 3);
    assert!(run.output.iter().all(|line| line == "0"));
}

#[test]
fn recursion_counts_to_three() {
    let out = output_of(
        "fn count(x) { if (x < 3) { print(x); count(x + 1); } } fn main() { count(0); }",
    );
    assert_eq!(out, vec!["0", "1", "2"]);
}

#[test]
fn call_with_two_arguments_adds() {
    let out = output_of("fn add(a, b) { return a + b; } fn main() { print(add(2, 3)); }");
    assert_eq!(out, vec!["5"]);
}

#[test]
fn duplicate_function_is_a_semantic_error() {
    let r = build_program("fn f() { } fn f() { } fn main() { }");
    assert_eq!(r, Err(Error::Semantic(SemanticError::DuplicateFunction("f".to_string()))));
}

#[test]
fn break_outside_loop_is_a_semantic_error() {
    let r = build_program("fn main() { break; }");
    assert_eq!(r, Err(Error::Semantic(SemanticError::BreakOutsideLoop)));
}

#[test]
fn undeclared_variable_is_a_semantic_error() {
    let r = build_program("fn main() { print(y); }");
    assert_eq!(r, Err(Error::Semantic(SemanticError::UndefinedVariable("y".to_string()))));
}

#[test]
fn string_literal_is_printed_as_it_is() {
    let out = output_of("fn main() { print(\"hi\"); }");
    assert_eq!(out, vec!["hi"]);
}

#[test]
fn text_that_is_no_program_gives_a_parse_error() {
    let r = build_program("fn main() { print(1) }");
    assert_eq!(
        r,
        Err(Error::Parse(ParseError::Expected {
            expected: TokenKind::Semicolon,
            found: Token::RBrace,
        }))
    );
    assert_eq!(r.unwrap_err().message(), "parse error: expected token `;`, got `}`");
}

#[test]
fn parse_error_comes_before_any_semantic_error() {
    let r = build_program("fn f() { } fn f() { print(y) }");
    assert!(matches!(r, Err(Error::Parse(_))));
}

#[test]
fn semantic_error_is_reported_with_its_message() {
    let r = build_program("fn main() { print(y); }");
    assert_eq!(r.unwrap_err().message(), "semantic error: undefined variable `y`");
    let r = build_program("fn main() { break; }");
    assert_eq!(r.unwrap_err().message(), "semantic error: break used outside loop");
}

#[test]
fn program_without_main_compiles_and_is_refused_by_the_machine() {
    let program = build_program("fn f() { }").expect("the program compiles");
    assert_eq!(VM::new(program).err(), Some(compiler::runtime_error::RuntimeFault::MissingMain));
}
