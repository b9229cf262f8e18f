use compiler::pipeline::parse;
use compiler::semantic::{SemanticAnalyzer, SemanticError};

fn analyse(source: &str) -> Result<(), SemanticError> {
    let program = parse(source).expect("the text parses");
    SemanticAnalyzer::new().analyze(&program)
}

fn undefined_variable(name: &str) -> Result<(), SemanticError> {
    Err(SemanticError::UndefinedVariable(name.to_string()))
}

#[test]
fn valid_program_is_accepted() {
    assert_eq!(
        analyse(
            "fn add(a, b) { return a + b; } \
             fn main() { let x = add(1, 2); while (x < 9) { x = x + 1; if (x == 5) { break; } } print(x); }"
        ),
        Ok(())
    );
}

#[test]
fn program_without_main_is_accepted_by_the_analysis() {
    assert_eq!(analyse("fn f() { }"), Ok(()));
    assert_eq!(analyse(""), Ok(()));
}

#[test]
fn duplicate_function_is_found_before_any_body_is_checked() {
    assert_eq!(
        analyse("fn f() { print(y); } fn f() { }"),
        Err(SemanticError::DuplicateFunction("f".to_string()))
    );
}

#[test]
fn function_may_be_called_before_its_declaration() {
    assert_eq!(analyse("fn main() { later(); } fn later() { }"), Ok(()));
}

#[test]
fn parameters_are_visible_in_the_body() {
    assert_eq!(analyse("fn f(a) { print(a); a = 2; }"), Ok(()));
}

#[test]
fn let_declares_after_its_initialiser_is_checked() {
    assert_eq!(analyse("fn main() { let x = x; }"), undefined_variable("x"));
    assert_eq!(analyse("fn main() { let x = 1; let x = x; }"), Ok(()));
}

#[test]
fn assignment_needs_a_visible_target() {
    assert_eq!(analyse("fn main() { x = 1; }"), undefined_variable("x"));
    assert_eq!(analyse("fn main() { x = y; }"), undefined_variable("x"));
    assert_eq!(analyse("fn main() { let x = 0; x = 1; }"), Ok(()));
}

#[test]
fn variable_of_an_outer_block_is_visible_inside() {
    assert_eq!(analyse("fn main() { let x = 0; if (x) { while (x) { print(x); } } }"), Ok(()));
}

#[test]
fn variable_of_a_block_is_gone_behind_it() {
    assert_eq!(
        analyse("fn main() { if (1) { let y = 1; } print(y); }"),
        undefined_variable("y")
    );
    assert_eq!(
        analyse("fn main() { while (0) { let y = 1; } y = 2; }"),
        undefined_variable("y")
    );
}

#[test]
fn branches_do_not_see_each_other() {
    assert_eq!(
        analyse("fn main() { if (1) { let y = 1; } else { print(y); } }"),
        undefined_variable("y")
    );
}

#[test]
fn variables_of_another_function_are_not_visible() {
    assert_eq!(
        analyse("fn f() { let a = 1; } fn main() { print(a); }"),
        undefined_variable("a")
    );
}

#[test]
fn print_takes_exactly_one_argument() {
    assert_eq!(
        analyse("fn main() { print(); }"),
        Err(SemanticError::ArityMismatch { name: "print".to_string(), expected: 1, found: 0 })
    );
    assert_eq!(
        analyse("fn main() { print(1, 2); }"),
        Err(SemanticError::ArityMismatch { name: "print".to_string(), expected: 1, found: 2 })
    );
}

#[test]
fn call_must_pass_as_many_arguments_as_declared() {
    assert_eq!(
        analyse("fn f(a, b) { } fn main() { f(1); }"),
        Err(SemanticError::ArityMismatch { name: "f".to_string(), expected: 2, found: 1 })
    );
    assert_eq!(
        analyse("fn f() { } fn main() { f(1); }"),
        Err(SemanticError::ArityMismatch { name: "f".to_string(), expected: 0, found: 1 })
    );
}

#[test]
fn call_of_an_unknown_name_is_refused() {
    assert_eq!(
        analyse("fn main() { g(); }"),
        Err(SemanticError::UndefinedFunction("g".to_string()))
    );
}

#[test]
fn callee_is_checked_before_the_arguments() {
    assert_eq!(
        analyse("fn main() { g(y); }"),
        Err(SemanticError::UndefinedFunction("g".to_string()))
    );
    assert_eq!(analyse("fn f(a) { } fn main() { f(y); }"), undefined_variable("y"));
}

#[test]
fn operands_are_checked_left_to_right() {
    assert_eq!(analyse("fn main() { a + b; }"), undefined_variable("a"));
    assert_eq!(analyse("fn main() { let a = 1; a + b; }"), undefined_variable("b"));
}

#[test]
fn break_and_continue_need_a_loop() {
    assert_eq!(analyse("fn main() { break; }"), Err(SemanticError::BreakOutsideLoop));
    assert_eq!(analyse("fn main() { continue; }"), Err(SemanticError::ContinueOutsideLoop));
    assert_eq!(
        analyse("fn main() { if (1) { continue; } }"),
        Err(SemanticError::ContinueOutsideLoop)
    );
    assert_eq!(analyse("fn main() { while (1) { if (1) { break; } continue; } }"), Ok(()));
}

#[test]
fn loop_ends_with_its_body() {
    assert_eq!(
        analyse("fn main() { while (1) { } break; }"),
        Err(SemanticError::BreakOutsideLoop)
    );
    assert_eq!(
        analyse("fn main() { while (1) { while (1) { } break; } }"),
        Ok(())
    );
}

#[test]
fn operand_kinds_are_not_checked() {
    assert_eq!(analyse("fn main() { print(\"a\" + 1); }"), Ok(()));
}

#[test]
fn first_violation_wins() {
    assert_eq!(
        analyse("fn main() { print(a); break; }"),
        undefined_variable("a")
    );
    assert_eq!(
        analyse("fn main() { break; print(a); }"),
        Err(SemanticError::BreakOutsideLoop)
    );
}

#[test]
fn analyzer_keeps_the_functions_it_has_seen() {
    let first = parse("fn f() { }").unwrap();
    let second = parse("fn main() { f(); }").unwrap();
    let mut analyzer = SemanticAnalyzer::new();
    assert_eq!(analyzer.analyze(&first), Ok(()));
    assert_eq!(analyzer.analyze(&second), Ok(()));
    assert_eq!(
        analyzer.analyze(&first),
        Err(SemanticError::DuplicateFunction("f".to_string()))
    );
}

#[test]
fn messages_name_what_is_wrong() {
    assert_eq!(SemanticError::BreakOutsideLoop.message(), "break used outside loop");
    assert_eq!(SemanticError::ContinueOutsideLoop.message(), "continue used outside loop");
    assert_eq!(
        SemanticError::UndefinedVariable("y".to_string()).message(),
        "undefined variable `y`"
    );
    assert_eq!(
        SemanticError::UndefinedFunction("g".to_string()).message(),
        "undefined function `g`"
    );
    assert_eq!(
        SemanticError::DuplicateFunction("f".to_string()).message(),
        "duplicate function `f`"
    );
    assert_eq!(
        SemanticError::ArityMismatch { name: "f".to_string(), expected: 2, found: 10 }.message(),
        "function `f` expects 2 args, got 10"
    );
}
