use compiler::pipeline::build_program;
use compiler::runtime_error::{RuntimeError, RuntimeFault};
use compiler::vm::bytecode::{Function, Instruction, Program};
use compiler::vm::value::Value;
use compiler::vm::vm::{Run, RunEnd, StepEvent, VM};

use Instruction::{
    Add, Call, Div, EnterScope, Equal, ExitScope, Greater, Halt, Jump, JumpIfFalse, Less, Mul,
    Pop, Print, PushInt, PushString, PushVoid, Return, Sub,
};

fn load(name: &str) -> Instruction {
    Instruction::LoadVar(name.to_string())
}

fn store(name: &str) -> Instruction {
    Instruction::StoreVar(name.to_string())
}

fn call(name: &str, argc: usize) -> Instruction {
    Call(name.to_string(), argc)
}

fn function(name: &str, arity: usize, entry: usize) -> Function {
    Function { name: name.to_string(), arity, entry }
}

/// A program whose `main` is the given code.
fn with_main(code: Vec<Instruction>) -> Program {
    Program { functions: vec![function("main", 0, 0)], code }
}

fn run_code(code: Vec<Instruction>) -> Run {
    VM::new(with_main(code)).expect("the program loads").run(10_000)
}

fn output_of(source: &str) -> Vec<String> {
    let program = build_program(source).expect("the program compiles");
    let run = VM::new(program).expect("the program loads").run(1_000_000);
    assert_eq!(run.end, RunEnd::Halted);
    run.output
}

fn fault_of(code: Vec<Instruction>) -> RuntimeFault {
    match run_code(code).end {
        RunEnd::Fault(fault) => fault,
        other => panic!("the run did not fault: {:?}", other),
    }
}

#[test]
fn truthiness() {
    assert!(Value::Int(1).is_truthy());
    assert!(Value::Int(-1).is_truthy());
    assert!(!Value::Int(0).is_truthy());
    assert!(!Value::String("x".to_string()).is_truthy());
    assert!(!Value::String(String::new()).is_truthy());
    assert!(!Value::Void.is_truthy());
}

#[test]
fn rendering() {
    assert_eq!(Value::Int(0).render(), "0");
    assert_eq!(Value::Int(7).render(), "7");
    assert_eq!(Value::Int(10).render(), "10");
    assert_eq!(Value::Int(-42).render(), "-42");
    assert_eq!(Value::Int(i64::MAX).render(), "9223372036854775807");
    assert_eq!(Value::Int(i64::MIN).render(), "-9223372036854775808");
    assert_eq!(Value::String("a b".to_string()).render(), "a b");
    assert_eq!(Value::Void.render(), "");
}

#[test]
fn program_without_main_is_not_loaded() {
    let program = Program { functions: vec![function("f", 0, 0)], code: vec![Return] };
    assert_eq!(VM::new(program).err(), Some(RuntimeFault::MissingMain));
    let empty = Program { functions: vec![], code: vec![] };
    assert_eq!(VM::new(empty).err(), Some(RuntimeFault::MissingMain));
}

#[test]
fn main_with_parameters_is_not_loaded() {
    let program = Program { functions: vec![function("main", 1, 0)], code: vec![Return] };
    assert_eq!(VM::new(program).err(), Some(RuntimeFault::MainTakesArguments));
    assert_eq!(
        build_program("fn main(a) { }").map(|p| VM::new(p).err()),
        Ok(Some(RuntimeFault::MainTakesArguments))
    );
}

#[test]
fn later_table_entry_of_a_name_replaces_the_earlier_one() {
    let program = Program {
        functions: vec![function("main", 3, 0), function("main", 0, 2)],
        code: vec![PushInt(1), Print, PushInt(2), Print, Return],
    };
    let run = VM::new(program).unwrap().run(100);
    assert_eq!(run, Run { output: vec!["2".to_string()], end: RunEnd::Halted });
}

#[test]
fn machine_starts_on_the_call_of_main_and_halts_behind_it() {
    let mut vm = VM::new(with_main(vec![PushInt(5), Return])).unwrap();
    assert_eq!(vm.step(), Ok(StepEvent::Continued)); // call main
    assert_eq!(vm.step(), Ok(StepEvent::Continued)); // push
    assert_eq!(vm.step(), Ok(StepEvent::Continued)); // return
    assert_eq!(vm.step(), Ok(StepEvent::Halted));
    assert_eq!(vm.step(), Ok(StepEvent::Halted));
}

#[test]
fn step_limit_ends_a_run_that_does_not_halt() {
    let mut vm = VM::new(with_main(vec![Jump(0)])).unwrap();
    assert_eq!(vm.run(0), Run { output: vec![], end: RunEnd::StepLimit });
    assert_eq!(vm.run(50), Run { output: vec![], end: RunEnd::StepLimit });
    let mut vm = VM::new(with_main(vec![PushInt(5), Return])).unwrap();
    assert_eq!(vm.run(3).end, RunEnd::StepLimit);
    assert_eq!(vm.run(1).end, RunEnd::Halted);
}

#[test]
fn print_writes_the_value_and_leaves_void() {
    let run = run_code(vec![
        PushInt(-3),
        Print,
        Print,
        PushString("hi".to_string()),
        Print,
        Pop,
        PushVoid,
        Return,
    ]);
    assert_eq!(run.output, vec!["-3", "", "hi"]);
    assert_eq!(run.end, RunEnd::Halted);
}

#[test]
fn call_of_print_is_the_builtin() {
    let run = run_code(vec![PushInt(4), call("print", 1), Return]);
    assert_eq!(run, Run { output: vec!["4".to_string()], end: RunEnd::Halted });
    assert_eq!(fault_of(vec![call("print", 1)]), RuntimeFault::StackUnderflow);
}

#[test]
fn arithmetic() {
    let run = run_code(vec![
        PushInt(7),
        PushInt(2),
        Add,
        Print,
        Pop,
        PushInt(7),
        PushInt(2),
        Sub,
        Print,
        Pop,
        PushInt(7),
        PushInt(2),
        Mul,
        Print,
        Pop,
        PushInt(7),
        PushInt(2),
        Div,
        Print,
        Return,
    ]);
    assert_eq!(run.output, vec!["9", "5", "14", "3"]);
}

#[test]
fn division_rounds_toward_zero() {
    assert_eq!(
        output_of("fn main() { print((0 - 7) / 2); print(7 / (0 - 2)); print((0 - 7) / (0 - 2)); print(0 / 5); }"),
        vec!["-3", "-3", "3", "0"]
    );
}

#[test]
fn comparisons_yield_one_or_zero() {
    assert_eq!(
        output_of("fn main() { print(1 < 2); print(2 < 1); print(2 > 1); print(1 > 1); print(3 == 3); print(3 == 4); }"),
        vec!["1", "0", "1", "0", "1", "0"]
    );
}

#[test]
fn division_by_zero_is_a_fault() {
    assert_eq!(fault_of(vec![PushInt(1), PushInt(0), Div]), RuntimeFault::DivisionByZero);
}

#[test]
fn overflow_is_a_fault() {
    assert_eq!(fault_of(vec![PushInt(i64::MAX), PushInt(1), Add]), RuntimeFault::IntegerOverflow);
    assert_eq!(fault_of(vec![PushInt(i64::MIN), PushInt(1), Sub]), RuntimeFault::IntegerOverflow);
    assert_eq!(fault_of(vec![PushInt(i64::MAX), PushInt(2), Mul]), RuntimeFault::IntegerOverflow);
    assert_eq!(fault_of(vec![PushInt(i64::MIN), PushInt(-1), Div]), RuntimeFault::IntegerOverflow);
    let run = run_code(vec![PushInt(i64::MAX - 1), PushInt(1), Add, Print, Return]);
    assert_eq!(run.output, vec![i64::MAX.to_string()]);
}

#[test]
fn operand_that_is_no_integer_is_a_fault() {
    assert_eq!(
        fault_of(vec![PushInt(1), PushString("a".to_string()), Add]),
        RuntimeFault::ExpectedInt
    );
    assert_eq!(fault_of(vec![PushVoid, PushInt(1), Less]), RuntimeFault::ExpectedInt);
    assert_eq!(
        fault_of(vec![PushString("a".to_string()), PushString("a".to_string()), Equal]),
        RuntimeFault::ExpectedInt
    );
}

#[test]
fn right_operand_is_taken_first() {
    assert_eq!(fault_of(vec![PushString("a".to_string()), Add]), RuntimeFault::ExpectedInt);
    assert_eq!(fault_of(vec![PushInt(1), Add]), RuntimeFault::StackUnderflow);
    assert_eq!(fault_of(vec![Greater]), RuntimeFault::StackUnderflow);
}

#[test]
fn stack_underflow_is_a_fault() {
    assert_eq!(fault_of(vec![Pop]), RuntimeFault::StackUnderflow);
    assert_eq!(fault_of(vec![Print]), RuntimeFault::StackUnderflow);
    assert_eq!(fault_of(vec![store("x")]), RuntimeFault::StackUnderflow);
    assert_eq!(fault_of(vec![JumpIfFalse(0)]), RuntimeFault::StackUnderflow);
}

#[test]
fn jumps() {
    let run = run_code(vec![
        PushInt(0),
        JumpIfFalse(4), // taken: zero is false
        PushInt(1),
        Print,
        PushInt(5),
        JumpIfFalse(9), // not taken
        PushInt(2),
        Print,
        Jump(11),
        PushInt(3),
        Print,
        PushString("s".to_string()),
        JumpIfFalse(15), // taken: a string is never true
        PushInt(4),
        Print,
        PushVoid,
        JumpIfFalse(19), // taken: void is never true
        PushInt(5),
        Print,
        Return,
    ]);
    assert_eq!(run.output, vec!["2"]);
    assert_eq!(run.end, RunEnd::Halted);
}

#[test]
fn jump_out_of_the_code_is_a_fault() {
    assert_eq!(fault_of(vec![Jump(100)]), RuntimeFault::UnresolvedJump);
    assert_eq!(fault_of(vec![PushInt(0), JumpIfFalse(100)]), RuntimeFault::UnresolvedJump);
}

#[test]
fn variables_live_in_the_innermost_scope() {
    let run = run_code(vec![
        PushInt(1),
        store("x"),
        EnterScope,
        load("x"), // found in the outer scope
        Print,
        Pop,
        PushInt(2),
        store("x"), // bound in the inner scope
        load("x"),
        Print,
        Pop,
        ExitScope,
        load("x"), // the outer binding is as it was
        Print,
        Return,
    ]);
    assert_eq!(run.output, vec!["1", "2", "1"]);
}

#[test]
fn store_rebinds_within_one_scope() {
    assert_eq!(
        output_of("fn main() { let x = 1; x = x + 1; x = x * 5; print(x); }"),
        vec!["10"]
    );
}

#[test]
fn undefined_variable_is_a_fault() {
    assert_eq!(fault_of(vec![load("x")]), RuntimeFault::UndefinedVariable("x".to_string()));
    assert_eq!(
        fault_of(vec![EnterScope, PushInt(1), store("x"), ExitScope, load("x")]),
        RuntimeFault::UndefinedVariable("x".to_string())
    );
}

#[test]
fn store_without_a_scope_is_a_fault() {
    assert_eq!(fault_of(vec![ExitScope, PushInt(1), store("x")]), RuntimeFault::NoScope);
}

#[test]
fn scope_exit_without_a_scope_does_nothing() {
    let run = run_code(vec![ExitScope, ExitScope, EnterScope, PushInt(1), store("x"), load("x"), Print, Return]);
    assert_eq!(run.output, vec!["1"]);
}

#[test]
fn call_binds_arguments_to_parameters_in_order() {
    assert_eq!(
        output_of("fn f(a, b, c) { print(a); print(b); print(c); } fn main() { f(1, 2, 3); }"),
        vec!["1", "2", "3"]
    );
    assert_eq!(
        output_of("fn sub(a, b) { return a - b; } fn main() { print(sub(10, 3)); }"),
        vec!["7"]
    );
}

#[test]
fn function_without_return_yields_void() {
    assert_eq!(output_of("fn f() { } fn main() { print(f()); }"), vec![""]);
}

#[test]
fn callee_does_not_see_the_variables_of_its_caller() {
    let program = build_program("fn f() { return 1; } fn main() { let x = 1; print(f()); }").unwrap();
    assert_eq!(VM::new(program).unwrap().run(1000).output, vec!["1"]);
    let code = vec![
        // main
        PushInt(1),
        store("x"),
        call("f", 0),
        Return,
        // f
        load("x"),
        Return,
    ];
    let program = Program { functions: vec![function("main", 0, 0), function("f", 0, 4)], code };
    assert_eq!(
        VM::new(program).unwrap().run(100).end,
        RunEnd::Fault(RuntimeFault::UndefinedVariable("x".to_string()))
    );
}

#[test]
fn return_cuts_the_stack_back_to_the_frame_base() {
    let code = vec![
        // main: one value below the call, then the call with one argument
        PushInt(100),
        PushInt(7),
        call("f", 1),
        Add, // 100 + result
        Print,
        Return,
        // f: leaves garbage on the stack and forgets its argument
        PushInt(1),
        PushInt(2),
        PushInt(5),
        Return,
    ];
    let program = Program { functions: vec![function("main", 0, 0), function("f", 1, 6)], code };
    let run = VM::new(program).unwrap().run(100);
    assert_eq!(run, Run { output: vec!["105".to_string()], end: RunEnd::Halted });
}

#[test]
fn return_on_an_empty_stack_yields_void() {
    let run = run_code(vec![Return]);
    assert_eq!(run.end, RunEnd::Halted);
    let code = vec![call("f", 0), Print, Return, Return];
    let program = Program { functions: vec![function("main", 0, 0), function("f", 0, 3)], code };
    assert_eq!(VM::new(program).unwrap().run(100).output, vec![""]);
}

#[test]
fn call_faults() {
    assert_eq!(
        fault_of(vec![call("g", 0)]),
        RuntimeFault::UndefinedFunction("g".to_string())
    );
    assert_eq!(
        fault_of(vec![PushInt(1), call("main", 1)]),
        RuntimeFault::ArityMismatch("main".to_string())
    );
    let code = vec![call("f", 2), Return, Return];
    let program = Program { functions: vec![function("main", 0, 0), function("f", 2, 2)], code };
    assert_eq!(
        VM::new(program).unwrap().run(100).end,
        RunEnd::Fault(RuntimeFault::StackUnderflow)
    );
}

#[test]
fn recursion() {
    assert_eq!(
        output_of(
            "fn fact(n) { if (n < 2) { return 1; } return n * fact(n - 1); } \
             fn main() { print(fact(10)); }"
        ),
        vec!["3628800"]
    );
    assert_eq!(
        output_of(
            "fn fib(n) { if (n < 2) { return n; } return fib(n - 1) + fib(n - 2); } \
             fn main() { print(fib(15)); }"
        ),
        vec!["610"]
    );
}

#[test]
fn faults_of_a_compiled_program() {
    let fault = |source: &str| {
        let program = build_program(source).expect("the program compiles");
        match VM::new(program).expect("the program loads").run(100_000).end {
            RunEnd::Fault(f) => f,
            other => panic!("the run did not fault: {:?}", other),
        }
    };
    assert_eq!(fault("fn main() { print(1 / 0); }"), RuntimeFault::DivisionByZero);
    assert_eq!(fault("fn main() { print(\"a\" + 1); }"), RuntimeFault::ExpectedInt);
    assert_eq!(fault("fn main() { print(print(1) + 1); }"), RuntimeFault::ExpectedInt);
    assert_eq!(
        fault("fn main() { let x = 9223372036854775807; print(x + 1); }"),
        RuntimeFault::IntegerOverflow
    );
}

#[test]
fn fault_ends_the_run_and_keeps_the_output_so_far() {
    let program = build_program("fn main() { print(1); print(2 / 0); print(3); }").unwrap();
    let run = VM::new(program).unwrap().run(1000);
    assert_eq!(
        run,
        Run { output: vec!["1".to_string()], end: RunEnd::Fault(RuntimeFault::DivisionByZero) }
    );
}

#[test]
fn break_and_continue_transfer_control() {
    assert_eq!(
        output_of(
            "fn main() { while (1) { print(1); break; print(2); } print(3); }"
        ),
        vec!["1", "3"]
    );
    let program = build_program("fn main() { while (1) { print(1); continue; print(2); } }").unwrap();
    let run = VM::new(program).unwrap().run(200);
    assert_eq!(run.end, RunEnd::StepLimit);
    assert!(run.output.len() > 5);
    assert!(run.output.iter().all(|line| line == "1"));
}

#[test]
fn fault_messages() {
    assert_eq!(RuntimeFault::StackUnderflow.to_error().message, "stack underflow");
    assert_eq!(RuntimeFault::ExpectedInt.to_error().message, "expected int");
    assert_eq!(RuntimeFault::DivisionByZero.to_error().message, "division by zero");
    assert_eq!(RuntimeFault::IntegerOverflow.to_error().message, "integer overflow");
    assert_eq!(RuntimeFault::NoScope.to_error().message, "no scope");
    assert_eq!(
        RuntimeFault::ReturnOutsideFunction.to_error().message,
        "return outside function"
    );
    assert_eq!(RuntimeFault::UnresolvedJump.to_error().message, "unresolved jump target");
    assert_eq!(RuntimeFault::MissingMain.to_error().message, "no 'main' function defined");
    assert_eq!(
        RuntimeFault::MainTakesArguments.to_error().message,
        "main() must not take arguments"
    );
    assert_eq!(
        RuntimeFault::UndefinedVariable("x".to_string()).to_error().message,
        "undefined variable 'x'"
    );
    assert_eq!(
        RuntimeFault::UndefinedFunction("g".to_string()).to_error().message,
        "undefined function 'g'"
    );
    assert_eq!(
        RuntimeFault::ArityMismatch("f".to_string()).to_error(),
        RuntimeError { message: "arity mismatch in call to 'f'".to_string() }
    );
    assert_eq!(RuntimeError::new("boom").message, "boom");
}

#[test]
fn instruction_clone_is_equal() {
    let all = vec![
        PushInt(1),
        PushString("s".to_string()),
        load("x"),
        store("x"),
        PushVoid,
        EnterScope,
        ExitScope,
        Add,
        Sub,
        Mul,
        Div,
        Less,
        Equal,
        Greater,
        call("f", 2),
        Return,
        Print,
        Pop,
        Jump(3),
        JumpIfFalse(4),
        Halt,
    ];
    for instruction in &all {
        assert_eq!(&instruction.clone(), instruction);
    }
    assert_eq!(Value::String("s".to_string()).clone(), Value::String("s".to_string()));
}
