use compiler::ast::{BinOp, Block, Expr, FunctionDecl, Program, Stmt};
use compiler::vm::bytecode::Instruction;
use compiler::vm::compiler::BytecodeCompiler;
use compiler::vm::vm::{RunEnd, VM};

fn var(name: &str) -> Expr {
    Expr::VarRef(name.to_string())
}

fn call(name: &str, args: Vec<Expr>) -> Expr {
    Expr::Call { name: name.to_string(), args }
}

fn binary(left: Expr, op: BinOp, right: Expr) -> Expr {
    Expr::Binary { left: Box::new(left), op, right: Box::new(right) }
}

fn function(name: &str, params: &[&str], statements: Vec<Stmt>) -> FunctionDecl {
    FunctionDecl {
        name: name.to_string(),
        params: params.iter().map(|p| p.to_string()).collect(),
        body: Block { statements },
    }
}

#[test]
fn assignment_in_loop_body_does_not_reach_outer_variable() {
    let program = Program {
        functions: vec![function(
            "main",
            &[],
            vec![
                Stmt::Let { name: "x".to_string(), value: Expr::IntLiteral(0) },
                Stmt::While {
                    condition: binary(var("x"), BinOp::Less, Expr::IntLiteral(3)),
                    body: Block {
                        statements: vec![
                            Stmt::ExprStmt(call("print", vec![var("x")])),
                            Stmt::Assign {
                                name: "x".to_string(),
                                value: binary(var("x"), BinOp::Add, Expr::IntLiteral(1)),
                            },
                        ],
                    },
                },
            ],
        )],
    };
    let compiled = BytecodeCompiler::new().compile(&program).unwrap();
    assert_eq!(
        compiled.code,
        vec![
            Instruction::EnterScope,
            Instruction::PushInt(0),
            Instruction::StoreVar("x".to_string()),
            Instruction::LoadVar("x".to_string()),
            Instruction::PushInt(3),
            Instruction::Less,
            Instruction::JumpIfFalse(17),
            Instruction::EnterScope,
            Instruction::LoadVar("x".to_string()),
            Instruction::Print,
            Instruction::Pop,
            Instruction::LoadVar("x".to_string()),
            Instruction::PushInt(1),
            Instruction::Add,
            Instruction::StoreVar("x".to_string()),
            Instruction::ExitScope,
            Instruction::Jump(3),
            Instruction::ExitScope,
            Instruction::PushVoid,
            Instruction::Return,
        ]
    );
    // The assignment in the loop body binds `x` in the body's own scope,
    // which the end of the body drops: the condition never changes.
    let mut vm = VM::new(compiled).unwrap();
    let run = vm.run(140);
    assert_eq!(run.end, RunEnd::StepLimit);
    assert_eq!(run.output, vec!["0"; 10]);
}
