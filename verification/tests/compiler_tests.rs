use compiler::pipeline::{build_program, parse};
use compiler::vm::bytecode::{Function, Instruction, Program};
use compiler::vm::compiler::{BytecodeCompiler, PLACEHOLDER};
use compiler::vm::lowering::CompileError;

use Instruction::{
    Add, Call, Div, EnterScope, Equal, ExitScope, Greater, Jump, JumpIfFalse, Less, Mul, Pop,
    Print, PushInt, PushString, PushVoid, Return, Sub,
};

fn load(name: &str) -> Instruction {
    Instruction::LoadVar(name.to_string())
}

fn store(name: &str) -> Instruction {
    Instruction::StoreVar(name.to_string())
}

fn compile(source: &str) -> Program {
    let ast = parse(source).expect("the text parses");
    BytecodeCompiler::new().compile(&ast).expect("the program compiles")
}

fn code_of_main(body: &str) -> Vec<Instruction> {
    compile(&format!("fn main() {{ {} }}", body)).code
}

#[test]
fn empty_program_has_no_code() {
    let program = compile("");
    assert_eq!(program.code, vec![]);
    assert_eq!(program.functions, vec![]);
}

#[test]
fn empty_function_is_a_scope_and_the_implicit_return() {
    assert_eq!(code_of_main(""), vec![EnterScope, ExitScope, PushVoid, Return]);
}

#[test]
fn parameters_are_stored_in_reverse_order() {
    let program = compile("fn f(a, b, c) { }");
    assert_eq!(
        program.code,
        vec![store("c"), store("b"), store("a"), EnterScope, ExitScope, PushVoid, Return]
    );
    assert_eq!(
        program.functions,
        vec![Function { name: "f".to_string(), arity: 3, entry: 0 }]
    );
}

#[test]
fn functions_are_laid_out_in_program_order() {
    let program = compile("fn f(a) { } fn g() { return 1; } fn main() { }");
    assert_eq!(
        program.functions,
        vec![
            Function { name: "f".to_string(), arity: 1, entry: 0 },
            Function { name: "g".to_string(), arity: 0, entry: 5 },
            Function { name: "main".to_string(), arity: 0, entry: 11 },
        ]
    );
    assert_eq!(program.code.len(), 15);
    assert_eq!(program.code[5..11], [EnterScope, PushInt(1), Return, ExitScope, PushVoid, Return]);
}

#[test]
fn let_and_assign_compile_alike() {
    assert_eq!(
        code_of_main("let x = 1; x = 2;"),
        vec![EnterScope, PushInt(1), store("x"), PushInt(2), store("x"), ExitScope, PushVoid, Return]
    );
}

#[test]
fn expression_statement_discards_its_value() {
    assert_eq!(
        code_of_main("1 + 2;"),
        vec![EnterScope, PushInt(1), PushInt(2), Add, Pop, ExitScope, PushVoid, Return]
    );
}

#[test]
fn every_operator_has_its_instruction() {
    assert_eq!(
        code_of_main("a + b - c * d / e; a < b; a > b; a == b;"),
        vec![
            EnterScope,
            load("a"),
            load("b"),
            Add,
            load("c"),
            load("d"),
            Mul,
            load("e"),
            Div,
            Sub,
            Pop,
            load("a"),
            load("b"),
            Less,
            Pop,
            load("a"),
            load("b"),
            Greater,
            Pop,
            load("a"),
            load("b"),
            Equal,
            Pop,
            ExitScope,
            PushVoid,
            Return,
        ]
    );
}

#[test]
fn arguments_are_pushed_left_to_right() {
    assert_eq!(
        code_of_main("f(1, \"s\", x);"),
        vec![
            EnterScope,
            PushInt(1),
            PushString("s".to_string()),
            load("x"),
            Call("f".to_string(), 3),
            Pop,
            ExitScope,
            PushVoid,
            Return,
        ]
    );
}

#[test]
fn print_is_an_instruction_of_its_own() {
    assert_eq!(
        code_of_main("print(1);"),
        vec![EnterScope, PushInt(1), Print, Pop, ExitScope, PushVoid, Return]
    );
}

#[test]
fn if_without_else_jumps_behind_the_skip_jump() {
    assert_eq!(
        code_of_main("if (c) { a; }"),
        vec![
            EnterScope,     // 0
            load("c"),      // 1
            JumpIfFalse(8), // 2
            EnterScope,     // 3
            load("a"),      // 4
            Pop,            // 5
            ExitScope,      // 6
            Jump(8),        // 7
            ExitScope,      // 8
            PushVoid,
            Return,
        ]
    );
}

#[test]
fn if_with_else_jumps_to_the_else_block_and_over_it() {
    assert_eq!(
        code_of_main("if (c) { a; } else { b; }"),
        vec![
            EnterScope,     // 0
            load("c"),      // 1
            JumpIfFalse(8), // 2
            EnterScope,     // 3
            load("a"),      // 4
            Pop,            // 5
            ExitScope,      // 6
            Jump(12),       // 7
            EnterScope,     // 8
            load("b"),      // 9
            Pop,            // 10
            ExitScope,      // 11
            ExitScope,      // 12
            PushVoid,
            Return,
        ]
    );
}

#[test]
fn while_jumps_back_to_its_condition_and_out_behind_itself() {
    assert_eq!(
        code_of_main("while (c) { a; }"),
        vec![
            EnterScope,     // 0
            load("c"),      // 1
            JumpIfFalse(8), // 2
            EnterScope,     // 3
            load("a"),      // 4
            Pop,            // 5
            ExitScope,      // 6
            Jump(1),        // 7
            ExitScope,      // 8
            PushVoid,
            Return,
        ]
    );
}

#[test]
fn break_jumps_behind_the_loop_and_continue_to_its_condition() {
    assert_eq!(
        code_of_main("while (c) { if (a) { break; } continue; }"),
        vec![
            EnterScope,      // 0
            load("c"),       // 1
            JumpIfFalse(13), // 2
            EnterScope,      // 3
            load("a"),       // 4
            JumpIfFalse(10), // 5
            EnterScope,      // 6
            Jump(13),        // 7  break
            ExitScope,       // 8
            Jump(10),        // 9
            Jump(1),         // 10 continue
            ExitScope,       // 11
            Jump(1),         // 12
            ExitScope,       // 13
            PushVoid,
            Return,
        ]
    );
}

#[test]
fn break_leaves_only_the_innermost_loop() {
    assert_eq!(
        code_of_main("while (a) { while (b) { break; } break; }"),
        vec![
            EnterScope,      // 0
            load("a"),       // 1
            JumpIfFalse(13), // 2
            EnterScope,      // 3
            load("b"),       // 4
            JumpIfFalse(10), // 5
            EnterScope,      // 6
            Jump(10),        // 7  inner break
            ExitScope,       // 8
            Jump(4),         // 9
            Jump(13),        // 10 outer break
            ExitScope,       // 11
            Jump(1),         // 12
            ExitScope,       // 13
            PushVoid,
            Return,
        ]
    );
}

#[test]
fn loop_in_a_later_function_has_absolute_targets() {
    let program = compile("fn f() { } fn main() { while (c) { } }");
    assert_eq!(
        program.code[4..],
        [
            EnterScope,     // 4
            load("c"),      // 5
            JumpIfFalse(10), // 6
            EnterScope,     // 7
            ExitScope,      // 8
            Jump(5),        // 9
            ExitScope,      // 10
            PushVoid,
            Return,
        ]
    );
}

#[test]
fn no_jump_keeps_the_placeholder_or_leaves_the_code() {
    let program = compile(
        "fn f(n) { while (n) { if (n == 3) { break; } else { continue; } } return n; } \
         fn main() { if (f(1)) { while (1) { while (0) { continue; } break; } } }",
    );
    let mut jumps = 0;
    for instruction in &program.code {
        match instruction {
            Jump(target) | JumpIfFalse(target) => {
                jumps += 1;
                assert_ne!(*target, PLACEHOLDER);
                assert!(*target < program.code.len());
            }
            _ => {}
        }
    }
    assert_eq!(jumps, 14);
}

#[test]
fn compiling_twice_gives_the_same_program() {
    let source = "fn f(a) { while (a) { if (a) { break; } } return a + 1; } fn main() { print(f(2)); }";
    let ast = parse(source).unwrap();
    let first = BytecodeCompiler::new().compile(&ast).unwrap();
    let second = BytecodeCompiler::new().compile(&ast).unwrap();
    assert_eq!(first, second);
    assert_eq!(build_program(source).unwrap(), first);
}

#[test]
fn stray_break_or_continue_is_refused_by_the_compiler_too() {
    let stray_break = parse("fn main() { if (1) { break; } }").unwrap();
    assert_eq!(
        BytecodeCompiler::new().compile(&stray_break),
        Err(CompileError::BreakOutsideLoop)
    );
    let stray_continue = parse("fn f() { } fn main() { while (1) { } continue; }").unwrap();
    assert_eq!(
        BytecodeCompiler::new().compile(&stray_continue),
        Err(CompileError::ContinueOutsideLoop)
    );
    let both = parse("fn main() { continue; break; }").unwrap();
    assert_eq!(
        BytecodeCompiler::new().compile(&both),
        Err(CompileError::ContinueOutsideLoop)
    );
}

#[test]
fn compiler_does_not_check_names_or_arity() {
    let program = compile("fn main() { g(x, 1); }");
    assert_eq!(
        program.code,
        vec![EnterScope, load("x"), PushInt(1), Call("g".to_string(), 2), Pop, ExitScope, PushVoid, Return]
    );
}
