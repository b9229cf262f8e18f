use compiler::ast::{Block, Expr, FunctionDecl, Program, Stmt};
use compiler::interpreter::{Interpreter, Value};
use compiler::pipeline::parse;
use compiler::runtime_error::RuntimeFault;
use compiler::vm::vm::{Run, RunEnd};

fn run(source: &str) -> Run {
    let program = parse(source).expect("the text parses");
    Interpreter::new(&program).run(10_000)
}

fn output_of(source: &str) -> Vec<String> {
    let run = run(source);
    assert_eq!(run.end, RunEnd::Halted);
    run.output
}

fn fault_of(source: &str) -> RuntimeFault {
    match run(source).end {
        RunEnd::Fault(fault) => fault,
        other => panic!("the run did not fault: {:?}", other),
    }
}

#[test]
fn truth_of_values() {
    assert!(Value::Int(2).is_true());
    assert!(!Value::Int(0).is_true());
    assert!(!Value::Str("x".to_string()).is_true());
    assert!(!Value::Void.is_true());
    assert_eq!(Value::Str("a".to_string()).clone(), Value::Str("a".to_string()));
}

#[test]
fn interpreter_while_loop_counts_to_three() {
    assert_eq!(
        output_of("fn main() { let x = 0; while (x < 3) { print(x); x = x + 1; } }"),
        vec!["0", "1", "2"]
    );
}

#[test]
fn call_with_two_arguments_adds_them() {
    assert_eq!(
        output_of("fn add(a, b) { return a + b; } fn main() { print(add(2, 3)); }"),
        vec!["5"]
    );
}

#[test]
fn string_literal_is_printed() {
    assert_eq!(output_of("fn main() { print(\"hi\"); }"), vec!["hi"]);
}

#[test]
fn printing_void_writes_no_line() {
    assert_eq!(output_of("fn f() { } fn main() { print(f()); print(print(1)); }"), vec!["1"]);
}

#[test]
fn print_evaluates_only_its_first_argument() {
    let program = Program {
        functions: vec![FunctionDecl {
            name: "main".to_string(),
            params: vec![],
            body: Block {
                statements: vec![Stmt::ExprStmt(Expr::Call {
                    name: "print".to_string(),
                    args: vec![Expr::IntLiteral(1), Expr::VarRef("nowhere".to_string())],
                })],
            },
        }],
    };
    let run = Interpreter::new(&program).run(10);
    assert_eq!(run, Run { output: vec!["1".to_string()], end: RunEnd::Halted });
}

#[test]
fn a_block_opens_no_scope() {
    assert_eq!(
        output_of("fn main() { if (1) { let y = 7; } print(y); }"),
        vec!["7"]
    );
}

#[test]
fn each_call_has_its_own_environment() {
    assert_eq!(
        fault_of("fn f() { print(x); } fn main() { let x = 1; f(); }"),
        RuntimeFault::UndefinedVariable("x".to_string())
    );
    assert_eq!(
        output_of("fn f(x) { x = x + 1; return x; } fn main() { let x = 1; print(f(x)); print(x); }"),
        vec!["2", "1"]
    );
}

#[test]
fn break_continue_and_return_in_loops() {
    assert_eq!(
        output_of(
            "fn main() { let i = 0; while (1) { i = i + 1; if (i == 2) { continue; } if (i > 4) { break; } print(i); } print(100); }"
        ),
        vec!["1", "3", "4", "100"]
    );
    assert_eq!(
        output_of(
            "fn first(n) { let i = 0; while (i < 10) { if (i * i > n) { return i; } i = i + 1; } return 0 - 1; } \
             fn main() { print(first(10)); }"
        ),
        vec!["4"]
    );
}

#[test]
fn return_ends_the_function_at_once() {
    assert_eq!(
        output_of("fn f() { print(1); return 2; print(3); } fn main() { print(f()); print(4); }"),
        vec!["1", "2", "4"]
    );
    assert_eq!(output_of("fn main() { print(1); return 0; print(2); }"), vec!["1"]);
}

#[test]
fn interpreter_arithmetic_and_comparison() {
    assert_eq!(
        output_of("fn main() { print(7 + 2); print(7 - 2); print(7 * 2); print(7 / 2); print((0 - 7) / 2); print(1 < 2); print(1 > 2); print(2 == 2); }"),
        vec!["9", "5", "14", "3", "-3", "1", "0", "1"]
    );
}

#[test]
fn interpreter_faults() {
    assert_eq!(fault_of("fn f() { }"), RuntimeFault::MissingMain);
    assert_eq!(fault_of("fn main() { print(1 / 0); }"), RuntimeFault::DivisionByZero);
    assert_eq!(
        fault_of("fn main() { print(9223372036854775807 + 1); }"),
        RuntimeFault::IntegerOverflow
    );
    assert_eq!(fault_of("fn main() { print(\"a\" + 1); }"), RuntimeFault::ExpectedInt);
    assert_eq!(fault_of("fn main() { print(1 < \"a\"); }"), RuntimeFault::ExpectedInt);
    assert_eq!(
        fault_of("fn main() { print(y); }"),
        RuntimeFault::UndefinedVariable("y".to_string())
    );
    assert_eq!(
        fault_of("fn main() { y = 1; }"),
        RuntimeFault::UndefinedVariable("y".to_string())
    );
    assert_eq!(
        fault_of("fn main() { g(); }"),
        RuntimeFault::UndefinedFunction("g".to_string())
    );
    assert_eq!(fault_of("fn main() { print(); }"), RuntimeFault::MissingArgument);
    assert_eq!(fault_of("fn main() { break; }"), RuntimeFault::BreakOutsideLoop);
    assert_eq!(fault_of("fn main() { continue; }"), RuntimeFault::ContinueOutsideLoop);
}

#[test]
fn value_is_computed_before_the_target_of_an_assignment_is_looked_up() {
    assert_eq!(
        fault_of("fn main() { y = 1 / 0; }"),
        RuntimeFault::DivisionByZero
    );
}

#[test]
fn loop_of_a_caller_counts_for_the_callee() {
    assert_eq!(
        output_of("fn f() { break; } fn main() { while (1) { f(); print(1); break; } }"),
        vec!["1"]
    );
}

#[test]
fn surplus_arguments_are_not_evaluated_and_missing_ones_stay_unbound() {
    assert_eq!(output_of("fn f(a) { print(a); } fn main() { f(1, 2 / 0); }"), vec!["1"]);
    assert_eq!(
        fault_of("fn f(a, b) { print(a); print(b); } fn main() { f(1); }"),
        RuntimeFault::UndefinedVariable("b".to_string())
    );
}

#[test]
fn later_function_of_a_name_replaces_the_earlier_one() {
    assert_eq!(
        output_of("fn f() { print(1); } fn f() { print(2); } fn main() { f(); }"),
        vec!["2"]
    );
}

#[test]
fn output_so_far_is_kept_when_the_run_faults() {
    assert_eq!(
        run("fn main() { print(1); print(2 / 0); print(3); }"),
        Run { output: vec!["1".to_string()], end: RunEnd::Fault(RuntimeFault::DivisionByZero) }
    );
}

#[test]
fn budget_ends_a_loop_that_does_not() {
    let program = parse("fn main() { while (1) { print(0); } }").unwrap();
    let run = Interpreter::new(&program).run(5);
    assert_eq!(run.end, RunEnd::StepLimit);
    assert_eq!(run.output, vec!["0"; 6]);
}

#[test]
fn budget_ends_a_recursion_that_does_not() {
    let program = parse("fn f() { print(1); f(); } fn main() { f(); }").unwrap();
    let run = Interpreter::new(&program).run(3);
    assert_eq!(run.end, RunEnd::StepLimit);
    assert_eq!(run.output, vec!["1"; 3]);
    assert_eq!(Interpreter::new(&program).run(0).end, RunEnd::StepLimit);
}

#[test]
fn interpreter_can_run_again() {
    let program = parse("fn main() { print(1); }").unwrap();
    let mut interpreter = Interpreter::new(&program);
    assert_eq!(interpreter.run(10).output, vec!["1"]);
    assert_eq!(interpreter.run(10).output, vec!["1"]);
}

#[test]
fn interpreter_recursion() {
    assert_eq!(
        output_of(
            "fn fib(n) { if (n < 2) { return n; } return fib(n - 1) + fib(n - 2); } \
             fn main() { print(fib(12)); }"
        ),
        vec!["144"]
    );
}
