//! Instructions and compiled programs.

use vstd::prelude::*;

verus! {

/// Model of an instruction: names are character sequences, addresses and
/// counts are natural numbers.
pub enum SpecInstruction {
    PushInt(i64),
    PushString(Seq<char>),
    LoadVar(Seq<char>),
    StoreVar(Seq<char>),
    PushVoid,
    EnterScope,
    ExitScope,
    Add,
    Sub,
    Mul,
    Div,
    Less,
    Equal,
    Greater,
    Call(Seq<char>, nat),
    Return,
    Print,
    Pop,
    Jump(nat),
    JumpIfFalse(nat),
    Halt,
}

impl SpecInstruction {
    /// The address a jump instruction names, if it is one.
    pub open spec fn jump_target(self) -> Option<nat> {
        match self {
            SpecInstruction::Jump(t) => Some(t),
            SpecInstruction::JumpIfFalse(t) => Some(t),
            _ => None,
        }
    }
}

/// One instruction of the stack machine. Jump targets are absolute
/// indices into the instruction sequence.
#[derive(Debug, PartialEq, Eq)]
pub enum Instruction {
    PushInt(i64),
    PushString(String),
    LoadVar(String),
    StoreVar(String),
    PushVoid,
    EnterScope,
    ExitScope,
    Add,
    Sub,
    Mul,
    Div,
    Less,
    Equal,
    Greater,
    Call(String, usize),
    Return,
    Print,
    Pop,
    Jump(usize),
    JumpIfFalse(usize),
    Halt,
}

impl View for Instruction {
    type V = SpecInstruction;

    open spec fn view(&self) -> SpecInstruction {
        match self {
            Instruction::PushInt(v) => SpecInstruction::PushInt(*v),
            Instruction::PushString(s) => SpecInstruction::PushString(s@),
            Instruction::LoadVar(n) => SpecInstruction::LoadVar(n@),
            Instruction::StoreVar(n) => SpecInstruction::StoreVar(n@),
            Instruction::PushVoid => SpecInstruction::PushVoid,
            Instruction::EnterScope => SpecInstruction::EnterScope,
            Instruction::ExitScope => SpecInstruction::ExitScope,
            Instruction::Add => SpecInstruction::Add,
            Instruction::Sub => SpecInstruction::Sub,
            Instruction::Mul => SpecInstruction::Mul,
            Instruction::Div => SpecInstruction::Div,
            Instruction::Less => SpecInstruction::Less,
            Instruction::Equal => SpecInstruction::Equal,
            Instruction::Greater => SpecInstruction::Greater,
            Instruction::Call(n, argc) => SpecInstruction::Call(n@, *argc as nat),
            Instruction::Return => SpecInstruction::Return,
            Instruction::Print => SpecInstruction::Print,
            Instruction::Pop => SpecInstruction::Pop,
            Instruction::Jump(t) => SpecInstruction::Jump(*t as nat),
            Instruction::JumpIfFalse(t) => SpecInstruction::JumpIfFalse(*t as nat),
            Instruction::Halt => SpecInstruction::Halt,
        }
    }
}

impl Clone for Instruction {
    fn clone(&self) -> (r: Self)
        ensures
            r@ == self@,
    {
        match self {
            Instruction::PushInt(v) => Instruction::PushInt(*v),
            Instruction::PushString(s) => Instruction::PushString(s.clone()),
            Instruction::LoadVar(n) => Instruction::LoadVar(n.clone()),
            Instruction::StoreVar(n) => Instruction::StoreVar(n.clone()),
            Instruction::PushVoid => Instruction::PushVoid,
            Instruction::EnterScope => Instruction::EnterScope,
            Instruction::ExitScope => Instruction::ExitScope,
            Instruction::Add => Instruction::Add,
            Instruction::Sub => Instruction::Sub,
            Instruction::Mul => Instruction::Mul,
            Instruction::Div => Instruction::Div,
            Instruction::Less => Instruction::Less,
            Instruction::Equal => Instruction::Equal,
            Instruction::Greater => Instruction::Greater,
            Instruction::Call(n, argc) => Instruction::Call(n.clone(), *argc),
            Instruction::Return => Instruction::Return,
            Instruction::Print => Instruction::Print,
            Instruction::Pop => Instruction::Pop,
            Instruction::Jump(t) => Instruction::Jump(*t),
            Instruction::JumpIfFalse(t) => Instruction::JumpIfFalse(*t),
            Instruction::Halt => Instruction::Halt,
        }
    }
}

/// Model of a function table entry.
pub struct SpecFunction {
    pub name: Seq<char>,
    pub arity: nat,
    pub entry: nat,
}

/// A function table entry: where the function's code begins and how many
/// arguments it takes.
#[derive(Debug, PartialEq, Eq)]
pub struct Function {
    pub name: String,
    pub arity: usize,
    pub entry: usize,
}

impl View for Function {
    type V = SpecFunction;

    open spec fn view(&self) -> SpecFunction {
        SpecFunction { name: self.name@, arity: self.arity as nat, entry: self.entry as nat }
    }
}

/// Model of a compiled program.
pub struct SpecProgram {
    pub functions: Seq<SpecFunction>,
    pub code: Seq<SpecInstruction>,
}

/// A compiled program: one instruction sequence and the table of the
/// functions in it.
#[derive(Debug, PartialEq, Eq)]
pub struct Program {
    pub functions: Vec<Function>,
    pub code: Vec<Instruction>,
}

impl View for Program {
    type V = SpecProgram;

    open spec fn view(&self) -> SpecProgram {
        SpecProgram { functions: functions_view(self.functions@), code: code_view(self.code@) }
    }
}

/// The models of a sequence of instructions, element by element.
pub open spec fn code_view(s: Seq<Instruction>) -> Seq<SpecInstruction> {
    Seq::new(s.len(), |i: int| s[i]@)
}

/// The models of a sequence of table entries, element by element.
pub open spec fn functions_view(s: Seq<Function>) -> Seq<SpecFunction> {
    Seq::new(s.len(), |i: int| s[i]@)
}

/// The entry for `name` that a call resolves to: the last one in the
/// table, as a later entry replaces an earlier one of the same name.
pub open spec fn find_function(table: Seq<SpecFunction>, name: Seq<char>) -> Option<SpecFunction>
    decreases table.len(),
{
    if table.len() == 0 {
        None
    } else if table.last().name == name {
        Some(table.last())
    } else {
        find_function(table.drop_last(), name)
    }
}

} // verus!
