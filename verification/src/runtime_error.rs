//! Faults of a running program and the error that reports them.

use vstd::prelude::*;
use vstd::string::StringExecFns;

verus! {

/// A runtime error as it is reported: a message.
#[derive(Debug, PartialEq, Eq)]
pub struct RuntimeError {
    pub message: String,
}

impl RuntimeError {
    pub fn new(msg: &str) -> (e: Self)
        ensures
            e.message@ == msg@,
    {
        RuntimeError { message: String::from_str(msg) }
    }
}

/// Model of a runtime fault.
pub enum SpecFault {
    StackUnderflow,
    UndefinedVariable(Seq<char>),
    UndefinedFunction(Seq<char>),
    ArityMismatch(Seq<char>),
    ExpectedInt,
    DivisionByZero,
    IntegerOverflow,
    NoScope,
    ReturnOutsideFunction,
    UnresolvedJump,
    MissingMain,
    MainTakesArguments,
    MissingArgument,
    BreakOutsideLoop,
    ContinueOutsideLoop,
}

impl SpecFault {
    /// The message that reports the fault.
    pub open spec fn message(self) -> Seq<char> {
        match self {
            SpecFault::StackUnderflow => "stack underflow"@,
            SpecFault::UndefinedVariable(name) => "undefined variable '"@ + name + "'"@,
            SpecFault::UndefinedFunction(name) => "undefined function '"@ + name + "'"@,
            SpecFault::ArityMismatch(name) => "arity mismatch in call to '"@ + name + "'"@,
            SpecFault::ExpectedInt => "expected int"@,
            SpecFault::DivisionByZero => "division by zero"@,
            SpecFault::IntegerOverflow => "integer overflow"@,
            SpecFault::NoScope => "no scope"@,
            SpecFault::ReturnOutsideFunction => "return outside function"@,
            SpecFault::UnresolvedJump => "unresolved jump target"@,
            SpecFault::MissingMain => "no 'main' function defined"@,
            SpecFault::MainTakesArguments => "main() must not take arguments"@,
            SpecFault::MissingArgument => "print expects value"@,
            SpecFault::BreakOutsideLoop => "break used outside loop"@,
            SpecFault::ContinueOutsideLoop => "continue used outside loop"@,
        }
    }
}

/// What can go wrong while a program is loaded or runs. Each fault ends
/// the run.
#[derive(Debug, PartialEq, Eq)]
pub enum RuntimeFault {
    /// An instruction needed more operands than the stack holds.
    StackUnderflow,
    /// A variable was read that no scope and no global binds.
    UndefinedVariable(String),
    /// A call named a function that the program does not have.
    UndefinedFunction(String),
    /// A call passed another number of arguments than the function takes.
    ArityMismatch(String),
    /// An arithmetic or comparison operand was not an integer.
    ExpectedInt,
    /// The divisor was zero.
    DivisionByZero,
    /// The result of an arithmetic instruction does not fit in 64 bits.
    IntegerOverflow,
    /// A variable was stored while the active frame had no scope left.
    NoScope,
    /// A return was executed while no call was in progress.
    ReturnOutsideFunction,
    /// The program counter points outside the instruction sequence.
    UnresolvedJump,
    /// The program has no function named `main`.
    MissingMain,
    /// The function `main` declares parameters.
    MainTakesArguments,
    /// `print` was called without an argument.
    MissingArgument,
    /// A `break` was executed while no loop was running.
    BreakOutsideLoop,
    /// A `continue` was executed while no loop was running.
    ContinueOutsideLoop,
}

impl View for RuntimeFault {
    type V = SpecFault;

    open spec fn view(&self) -> SpecFault {
        match self {
            RuntimeFault::StackUnderflow => SpecFault::StackUnderflow,
            RuntimeFault::UndefinedVariable(n) => SpecFault::UndefinedVariable(n@),
            RuntimeFault::UndefinedFunction(n) => SpecFault::UndefinedFunction(n@),
            RuntimeFault::ArityMismatch(n) => SpecFault::ArityMismatch(n@),
            RuntimeFault::ExpectedInt => SpecFault::ExpectedInt,
            RuntimeFault::DivisionByZero => SpecFault::DivisionByZero,
            RuntimeFault::IntegerOverflow => SpecFault::IntegerOverflow,
            RuntimeFault::NoScope => SpecFault::NoScope,
            RuntimeFault::ReturnOutsideFunction => SpecFault::ReturnOutsideFunction,
            RuntimeFault::UnresolvedJump => SpecFault::UnresolvedJump,
            RuntimeFault::MissingMain => SpecFault::MissingMain,
            RuntimeFault::MainTakesArguments => SpecFault::MainTakesArguments,
            RuntimeFault::MissingArgument => SpecFault::MissingArgument,
            RuntimeFault::BreakOutsideLoop => SpecFault::BreakOutsideLoop,
            RuntimeFault::ContinueOutsideLoop => SpecFault::ContinueOutsideLoop,
        }
    }
}

fn quoted(prefix: &str, name: &String) -> (s: String)
    ensures
        s@ == prefix@ + name@ + "'"@,
{
    let mut s = String::from_str(prefix);
    s.append(name.as_str());
    s.append("'");
    s
}

impl RuntimeFault {
    /// The error that reports this fault.
    pub fn to_error(&self) -> (e: RuntimeError)
        ensures
            e.message@ == self@.message(),
    {
        match self {
            RuntimeFault::StackUnderflow => RuntimeError::new("stack underflow"),
            RuntimeFault::UndefinedVariable(n) => RuntimeError {
                message: quoted("undefined variable '", n),
            },
            RuntimeFault::UndefinedFunction(n) => RuntimeError {
                message: quoted("undefined function '", n),
            },
            RuntimeFault::ArityMismatch(n) => RuntimeError {
                message: quoted("arity mismatch in call to '", n),
            },
            RuntimeFault::ExpectedInt => RuntimeError::new("expected int"),
            RuntimeFault::DivisionByZero => RuntimeError::new("division by zero"),
            RuntimeFault::IntegerOverflow => RuntimeError::new("integer overflow"),
            RuntimeFault::NoScope => RuntimeError::new("no scope"),
            RuntimeFault::ReturnOutsideFunction => RuntimeError::new("return outside function"),
            RuntimeFault::UnresolvedJump => RuntimeError::new("unresolved jump target"),
            RuntimeFault::MissingMain => RuntimeError::new("no 'main' function defined"),
            RuntimeFault::MainTakesArguments => RuntimeError::new(
                "main() must not take arguments",
            ),
            RuntimeFault::MissingArgument => RuntimeError::new("print expects value"),
            RuntimeFault::BreakOutsideLoop => RuntimeError::new("break used outside loop"),
            RuntimeFault::ContinueOutsideLoop => RuntimeError::new("continue used outside loop"),
        }
    }
}

} // verus!
