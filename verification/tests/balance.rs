use compiler::pipeline::build_program;
use compiler::vm::bytecode::Instruction;
use compiler::vm::vm::{StepEvent, VM};

/// What a walk through a run has seen.
struct Walk {
    /// The calls that returned.
    calls_returned: usize,
    /// The blocks that were entered and left through their end.
    blocks_closed: usize,
    /// The deepest scope stack of any frame.
    deepest_scopes: usize,
    output: Vec<String>,
}

/// Runs the program for at most `limit` steps. Checks at every return
/// that the operand stack is one deeper than it was below the arguments
/// of the call, and, if `blocks` is set, at every `scope-exit` that the
/// scope stack of the frame becomes as deep as it was before the
/// matching `scope-enter`.
fn walk(source: &str, limit: usize, blocks: bool) -> Walk {
    let code = build_program(source).expect("the program compiles").code;
    let mut vm = VM::new(build_program(source).unwrap()).expect("the program loads");
    // For each open call: the stack depth that the return must leave.
    let mut expected: Vec<usize> = Vec::new();
    // For each open call: the scope depths before its open blocks.
    let mut open_blocks: Vec<Vec<usize>> = Vec::new();
    let mut seen = Walk { calls_returned: 0, blocks_closed: 0, deepest_scopes: 0, output: vec![] };
    for _ in 0..limit {
        let instruction = code.get(vm.ip()).cloned();
        let frames_before = vm.frame_depth();
        let stack_before = vm.stack_depth();
        let scopes_before = vm.scope_depth();
        match vm.step().expect("the run does not fault") {
            StepEvent::Halted => break,
            StepEvent::Printed(line) => seen.output.push(line),
            StepEvent::Continued => {}
        }
        match instruction {
            Some(Instruction::Call(name, argc)) if name != "print" => {
                assert_eq!(vm.frame_depth(), frames_before + 1);
                expected.push(stack_before - argc + 1);
                open_blocks.push(Vec::new());
            }
            // The call of `main` stands behind the program's code.
            None if vm.frame_depth() == frames_before + 1 => {
                expected.push(stack_before + 1);
                open_blocks.push(Vec::new());
            }
            Some(Instruction::Return) => {
                assert_eq!(vm.frame_depth() + 1, frames_before);
                assert_eq!(vm.stack_depth(), expected.pop().unwrap());
                open_blocks.pop();
                seen.calls_returned += 1;
            }
            Some(Instruction::EnterScope) => {
                open_blocks.last_mut().unwrap().push(scopes_before.unwrap());
            }
            Some(Instruction::ExitScope) if blocks => {
                let before = open_blocks.last_mut().unwrap().pop().unwrap();
                assert_eq!(vm.scope_depth(), Some(before));
                seen.blocks_closed += 1;
            }
            _ => {}
        }
        if let Some(depth) = vm.scope_depth() {
            seen.deepest_scopes = seen.deepest_scopes.max(depth);
        }
    }
    seen
}

#[test]
fn every_return_leaves_the_stack_one_deeper_than_below_the_arguments() {
    let seen = walk(
        "fn fib(n) { if (n < 2) { return n; } return fib(n - 1) + fib(n - 2); } \
         fn three(a, b, c) { let unused = a * b; print(unused); } \
         fn main() { print(fib(10) + 1); three(1, 2, 3); print(three(4, 5, 6)); }",
        100_000,
        true,
    );
    assert_eq!(seen.output, vec!["56", "2", "20", ""]);
    assert_eq!(seen.calls_returned, 177 + 2 + 1);
}

#[test]
fn a_block_leaves_the_scope_stack_as_deep_as_it_found_it() {
    let seen = walk(
        "fn count(n) { if (n > 0) { let m = n - 1; if (m == 2) { print(m); } else { count(m); } } } \
         fn main() { let x = 1; if (x) { let y = 2; if (y) { let z = 3; print(x + y + z); } } count(5); }",
        100_000,
        true,
    );
    assert_eq!(seen.output, vec!["6", "2"]);
    assert!(seen.blocks_closed > 10);
    // one scope for the call, one for the body, and one for each open block
    assert_eq!(seen.deepest_scopes, 4);
}

#[test]
fn a_loop_that_ends_by_its_condition_keeps_the_scope_stack() {
    let seen = walk(
        "fn main() { while (0) { print(1); } let n = 0; while (n) { print(2); } print(3); }",
        1_000,
        true,
    );
    assert_eq!(seen.output, vec!["3"]);
    assert_eq!(seen.deepest_scopes, 2);
}

#[test]
fn break_and_continue_leave_the_scopes_of_the_blocks_they_skip() {
    // Each `break` leaves the scopes of the conditional and of the loop
    // body on the scope stack: the block of the function does not find
    // its own scope on top when it ends.
    let with_break = walk("fn main() { while (1) { if (1) { break; } } print(1); }", 1_000, false);
    assert_eq!(with_break.output, vec!["1"]);
    assert_eq!(with_break.deepest_scopes, 4);
    // Each `continue` leaves one more scope behind.
    let with_continue = walk("fn main() { while (1) { continue; } }", 301, false);
    assert!(with_continue.deepest_scopes > 50);
}

#[test]
fn return_from_inside_blocks_and_loops_is_balanced_for_the_caller() {
    let seen = walk(
        "fn find(n) { while (1) { if (n) { return n + 1; } } } \
         fn main() { print(find(4)); print(find(5)); }",
        10_000,
        false,
    );
    assert_eq!(seen.output, vec!["5", "6"]);
    assert_eq!(seen.calls_returned, 3);
}
