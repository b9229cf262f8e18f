//! The stack machine: loads a compiled program and executes it one
//! instruction at a time.

use super::bytecode::{
    code_view, find_function, functions_view, Function, Instruction, Program, SpecInstruction,
    SpecProgram,
};
use super::model::{
    arith, arith_stack, compare, compare_stack, lookup_scopes, pop_int as spec_pop_int, run,
    run_from, run_stop, ArithOp, CompareOp, SpecEvent, SpecFrame, SpecRun, SpecRunEnd, SpecVm,
};
use super::scope::{scopes_view, Scope};
use super::value::{values_view, SpecValue, Value};
use crate::runtime_error::{RuntimeFault, SpecFault};
use vstd::prelude::*;
use vstd::string::StringExecFns;

verus! {

/// The record of one call in progress.
pub struct CallFrame {
    return_ip: usize,
    base: usize,
    scopes: Vec<Scope<Value>>,
}

impl View for CallFrame {
    type V = SpecFrame;

    closed spec fn view(&self) -> SpecFrame {
        SpecFrame {
            return_ip: self.return_ip as nat,
            base: self.base as nat,
            scopes: scopes_view(self.scopes@),
        }
    }
}

/// The models of a stack of frames, element by element.
pub open spec fn frames_view(s: Seq<CallFrame>) -> Seq<SpecFrame> {
    Seq::new(s.len(), |i: int| s[i]@)
}

/// What one step lets the caller observe.
#[derive(Debug, PartialEq, Eq)]
pub enum StepEvent {
    /// The machine went on silently.
    Continued,
    /// The machine printed one line with this text; the caller writes it.
    Printed(String),
    /// The machine has halted.
    Halted,
}

impl View for StepEvent {
    type V = SpecEvent;

    open spec fn view(&self) -> SpecEvent {
        match self {
            StepEvent::Continued => SpecEvent::Continued,
            StepEvent::Printed(s) => SpecEvent::Printed(s@),
            StepEvent::Halted => SpecEvent::Halted,
        }
    }
}

/// How a bounded run ended.
#[derive(Debug, PartialEq, Eq)]
pub enum RunEnd {
    /// The machine executed `halt`.
    Halted,
    /// The step limit was reached before the machine halted.
    StepLimit,
    /// A fault ended the run.
    Fault(RuntimeFault),
}

impl View for RunEnd {
    type V = SpecRunEnd;

    open spec fn view(&self) -> SpecRunEnd {
        match self {
            RunEnd::Halted => SpecRunEnd::Halted,
            RunEnd::StepLimit => SpecRunEnd::StepLimit,
            RunEnd::Fault(f) => SpecRunEnd::Fault(f@),
        }
    }
}

/// The record of a bounded run: the lines it printed and how it ended.
#[derive(Debug, PartialEq, Eq)]
pub struct Run {
    pub output: Vec<String>,
    pub end: RunEnd,
}

impl View for Run {
    type V = SpecRun;

    open spec fn view(&self) -> SpecRun {
        SpecRun { output: lines_view(self.output@), end: self.end@ }
    }
}

/// The texts of a sequence of lines, element by element.
pub open spec fn lines_view(s: Seq<String>) -> Seq<Seq<char>> {
    Seq::new(s.len(), |i: int| s[i]@)
}

/// The state that a program starts in: the program counter on a
/// two-instruction prologue behind the program's code, which calls `main`
/// and halts. A program without `main`, or whose `main` takes arguments,
/// is not loaded.
pub open spec fn load(p: SpecProgram) -> Result<SpecVm, SpecFault> {
    match find_function(p.functions, "main"@) {
        None => Err(SpecFault::MissingMain),
        Some(f) => if f.arity != 0 {
            Err(SpecFault::MainTakesArguments)
        } else {
            Ok(
                SpecVm {
                    ip: p.code.len(),
                    stack: Seq::empty(),
                    globals: Map::empty(),
                    frames: Seq::empty(),
                    functions: p.functions,
                    code: p.code.push(SpecInstruction::Call("main"@, 0)).push(
                        SpecInstruction::Halt,
                    ),
                },
            )
        },
    }
}

/// The stack machine.
pub struct VM {
    ip: usize,
    stack: Vec<Value>,
    globals: Scope<Value>,
    frames: Vec<CallFrame>,
    functions: Vec<Function>,
    code: Vec<Instruction>,
}

impl View for VM {
    type V = SpecVm;

    closed spec fn view(&self) -> SpecVm {
        SpecVm {
            ip: self.ip as nat,
            stack: values_view(self.stack@),
            globals: self.globals@,
            frames: frames_view(self.frames@),
            functions: functions_view(self.functions@),
            code: code_view(self.code@),
        }
    }
}

/// Looks `name` up in a function table; the last entry of that name
/// counts.
fn find_entry(functions: &Vec<Function>, name: &String) -> (r: Option<(usize, usize)>)
    ensures
        match find_function(functions_view(functions@), name@) {
            Some(f) => r == Some((f.entry as usize, f.arity as usize)) && f.entry <= usize::MAX
                && f.arity <= usize::MAX,
            None => r is None,
        },
{
    let ghost table = functions_view(functions@);
    let mut i: usize = functions.len();
    assert(table.take(i as int) == table);
    while i > 0
        invariant
            i <= functions@.len(),
            table == functions_view(functions@),
            find_function(table, name@) == find_function(table.take(i as int), name@),
        decreases i,
    {
        i = i - 1;
        assert(table.take(i + 1).drop_last() == table.take(i as int));
        if functions[i].name == *name {
            return Some((functions[i].entry, functions[i].arity));
        }
    }
    None
}

/// Takes an integer off the top of the stack.
fn pop_int(stack: &mut Vec<Value>) -> (r: Result<i64, RuntimeFault>)
    ensures
        match spec_pop_int(values_view(old(stack)@)) {
            Ok((v, rest)) => r == Ok::<i64, RuntimeFault>(v) && values_view(final(stack)@) == rest,
            Err(f) => r matches Err(e) && e@ == f,
        },
{
    match stack.pop() {
        None => Err(RuntimeFault::StackUnderflow),
        Some(Value::Int(v)) => {
            assert(values_view(stack@) == values_view(old(stack)@).drop_last());
            Ok(v)
        },
        Some(_) => Err(RuntimeFault::ExpectedInt),
    }
}

/// The result of an arithmetic instruction on two integers.
pub(crate) fn apply_arith(op: ArithOp, a: i64, b: i64) -> (r: Result<i64, RuntimeFault>)
    ensures
        match arith(op, a, b) {
            Ok(v) => r == Ok::<i64, RuntimeFault>(v),
            Err(f) => r matches Err(e) && e@ == f,
        },
{
    let checked = match op {
        ArithOp::Add => a.checked_add(b),
        ArithOp::Sub => a.checked_sub(b),
        ArithOp::Mul => a.checked_mul(b),
        ArithOp::Div => {
            if b == 0 {
                return Err(RuntimeFault::DivisionByZero);
            }
            a.checked_div(b)
        },
    };
    match checked {
        Some(v) => Ok(v),
        None => Err(RuntimeFault::IntegerOverflow),
    }
}

/// An arithmetic instruction on the stack: replaces the two topmost
/// integers by the result.
fn binop(stack: &mut Vec<Value>, op: ArithOp) -> (r: Result<(), RuntimeFault>)
    ensures
        match arith_stack(op, values_view(old(stack)@)) {
            Ok(s) => r is Ok && values_view(final(stack)@) == s,
            Err(f) => r matches Err(e) && e@ == f,
        },
{
    let b = pop_int(stack)?;
    let a = pop_int(stack)?;
    let v = apply_arith(op, a, b)?;
    assert(values_view(stack@.push(Value::Int(v))) == values_view(stack@).push(SpecValue::Int(v)));
    stack.push(Value::Int(v));
    Ok(())
}

/// A comparison instruction on the stack: replaces the two topmost
/// integers by 1 or 0.
fn cmpop(stack: &mut Vec<Value>, op: CompareOp) -> (r: Result<(), RuntimeFault>)
    ensures
        match compare_stack(op, values_view(old(stack)@)) {
            Ok(s) => r is Ok && values_view(final(stack)@) == s,
            Err(f) => r matches Err(e) && e@ == f,
        },
{
    let b = pop_int(stack)?;
    let a = pop_int(stack)?;
    let holds = match op {
        CompareOp::Less => a < b,
        CompareOp::Greater => a > b,
        CompareOp::Equal => a == b,
    };
    let v: i64 = if holds {
        1
    } else {
        0
    };
    assert(values_view(stack@.push(Value::Int(v))) == values_view(stack@).push(SpecValue::Int(v)));
    stack.push(Value::Int(v));
    Ok(())
}

impl VM {
    /// Loads a compiled program. The machine starts on a prologue that it
    /// puts behind the program's code: a call of `main`, then `halt`.
    pub fn new(program: Program) -> (r: Result<VM, RuntimeFault>)
        ensures
            match load(program@) {
                Ok(s) => r matches Ok(vm) && vm@ == s,
                Err(f) => r matches Err(e) && e@ == f,
            },
    {
        let main = String::from_str("main");
        match find_entry(&program.functions, &main) {
            None => Err(RuntimeFault::MissingMain),
            Some((_, arity)) => {
                if arity != 0 {
                    return Err(RuntimeFault::MainTakesArguments);
                }
                let Program { functions, code } = program;
                let mut code = code;
                let entry_ip = code.len();
                code.push(Instruction::Call(main, 0));
                code.push(Instruction::Halt);
                let vm = VM {
                    ip: entry_ip,
                    stack: Vec::new(),
                    globals: Scope::new(),
                    frames: Vec::new(),
                    functions,
                    code,
                };
                proof {
                    let s = load(program@)->Ok_0;
                    assert(vm@.stack == s.stack);
                    assert(vm@.frames == s.frames);
                    assert(vm@.code == s.code);
                }
                Ok(vm)
            },
        }
    }

    /// The address of the instruction to execute next.
    pub fn ip(&self) -> (ip: usize)
        ensures
            ip == self@.ip,
    {
        self.ip
    }

    /// The number of values on the operand stack.
    pub fn stack_depth(&self) -> (n: usize)
        ensures
            n == self@.stack.len(),
    {
        self.stack.len()
    }

    /// The number of calls in progress.
    pub fn frame_depth(&self) -> (n: usize)
        ensures
            n == self@.frames.len(),
    {
        self.frames.len()
    }

    /// The number of scopes of the active frame; `None` outside any
    /// call.
    pub fn scope_depth(&self) -> (n: Option<usize>)
        ensures
            match n {
                Some(n) => self@.frames.len() > 0 && n == self@.frames.last().scopes.len(),
                None => self@.frames.len() == 0,
            },
    {
        match self.current_frame() {
            Some(frame) => Some(frame.scopes.len()),
            None => None,
        }
    }

    fn current_frame(&self) -> (r: Option<&CallFrame>)
        ensures
            match r {
                Some(f) => self@.frames.len() > 0 && f@ == self@.frames.last(),
                None => self@.frames.len() == 0,
            },
    {
        let n = self.frames.len();
        if n == 0 {
            None
        } else {
            Some(&self.frames[n - 1])
        }
    }

    /// What `name` resolves to: the innermost scope of the active frame
    /// that binds it, else the global table.
    fn lookup(&self, name: &String) -> (r: Option<Value>)
        ensures
            match self@.lookup(name@) {
                Some(v) => r matches Some(x) && x@ == v,
                None => r is None,
            },
    {
        match self.current_frame() {
            Some(frame) => {
                let ghost scopes = scopes_view(frame.scopes@);
                let mut i: usize = frame.scopes.len();
                assert(scopes.take(i as int) == scopes);
                while i > 0
                    invariant
                        i <= frame.scopes@.len(),
                        scopes == scopes_view(frame.scopes@),
                        self@.frames.len() > 0,
                        self@.frames.last().scopes == scopes,
                        lookup_scopes(scopes, name@) == lookup_scopes(
                            scopes.take(i as int),
                            name@,
                        ),
                    decreases i,
                {
                    i = i - 1;
                    assert(scopes.take(i + 1).drop_last() == scopes.take(i as int));
                    assert(scopes.take(i + 1).last() == frame.scopes@[i as int]@);
                    match frame.scopes[i].get(name) {
                        Some(v) => {
                            return Some(v.clone());
                        },
                        None => {},
                    }
                }
            },
            None => {},
        }
        match self.globals.get(name) {
            Some(v) => Some(v.clone()),
            None => None,
        }
    }

    fn load_var(&mut self, name: String) -> (r: Result<(), RuntimeFault>)
        requires
            old(self).ip < old(self).code.len(),
        ensures
            match old(self)@.step_load(name@) {
                Ok(s) => r is Ok && final(self)@ == s,
                Err(f) => r matches Err(e) && e@ == f,
            },
    {
        match self.lookup(&name) {
            None => Err(RuntimeFault::UndefinedVariable(name)),
            Some(v) => {
                self.push(v);
                self.ip = self.ip + 1;
                Ok(())
            },
        }
    }

    fn push(&mut self, v: Value)
        ensures
            final(self)@ == old(self)@.with_stack(old(self)@.stack.push(v@)),
            final(self).ip == old(self).ip,
            final(self).code == old(self).code,
    {
        assert(values_view(self.stack@.push(v)) == values_view(self.stack@).push(v@));
        self.stack.push(v);
    }

    fn pop(&mut self) -> (r: Option<Value>)
        ensures
            final(self).ip == old(self).ip,
            final(self).code == old(self).code,
            match r {
                Some(v) => old(self)@.stack.len() > 0 && v@ == old(self)@.stack.last()
                    && final(self)@ == old(self)@.with_stack(old(self)@.stack.drop_last()),
                None => old(self)@.stack.len() == 0 && final(self)@ == old(self)@,
            },
    {
        let r = self.stack.pop();
        assert(r is Some ==> values_view(self.stack@) == values_view(old(self).stack@).drop_last());
        r
    }

    fn store_var(&mut self, name: String) -> (r: Result<(), RuntimeFault>)
        requires
            old(self).ip < old(self).code.len(),
        ensures
            match old(self)@.step_store(name@) {
                Ok(s) => r is Ok && final(self)@ == s,
                Err(f) => r matches Err(e) && e@ == f,
            },
    {
        let value = match self.pop() {
            Some(v) => v,
            None => {
                return Err(RuntimeFault::StackUnderflow);
            },
        };
        match self.frames.pop() {
            None => {
                assert(frames_view(self.frames@) == frames_view(old(self).frames@));
                self.globals.insert(name, value);
            },
            Some(frame) => {
                let mut frame = frame;
                match frame.scopes.pop() {
                    None => {
                        return Err(RuntimeFault::NoScope);
                    },
                    Some(scope) => {
                        let mut scope = scope;
                        scope.insert(name, value);
                        frame.scopes.push(scope);
                    },
                }
                self.frames.push(frame);
                proof {
                    let before = old(self)@.frames.last();
                    assert(frame@.scopes == before.bind(name@, value@).scopes);
                    assert(frames_view(self.frames@) == old(self)@.frames.update(
                        old(self)@.frames.len() - 1,
                        before.bind(name@, value@),
                    ));
                }
            },
        }
        self.ip = self.ip + 1;
        Ok(())
    }

    fn enter_scope(&mut self)
        requires
            old(self).ip < old(self).code.len(),
        ensures
            final(self)@ == old(self)@.step_enter_scope(),
    {
        match self.frames.pop() {
            None => {
                assert(frames_view(self.frames@) == frames_view(old(self).frames@));
            },
            Some(frame) => {
                let mut frame = frame;
                frame.scopes.push(Scope::new());
                self.frames.push(frame);
                proof {
                    let before = old(self)@.frames.last();
                    assert(frame@.scopes == before.enter_scope().scopes);
                    assert(frames_view(self.frames@) == old(self)@.frames.update(
                        old(self)@.frames.len() - 1,
                        before.enter_scope(),
                    ));
                }
            },
        }
        self.ip = self.ip + 1;
    }

    fn exit_scope(&mut self)
        requires
            old(self).ip < old(self).code.len(),
        ensures
            final(self)@ == old(self)@.step_exit_scope(),
    {
        match self.frames.pop() {
            None => {
                assert(frames_view(self.frames@) == frames_view(old(self).frames@));
            },
            Some(frame) => {
                let mut frame = frame;
                let _ = frame.scopes.pop();
                self.frames.push(frame);
                proof {
                    let before = old(self)@.frames.last();
                    assert(frame@.scopes == before.exit_scope().scopes);
                    assert(frames_view(self.frames@) == old(self)@.frames.update(
                        old(self)@.frames.len() - 1,
                        before.exit_scope(),
                    ));
                }
            },
        }
        self.ip = self.ip + 1;
    }

    fn print(&mut self) -> (r: Result<StepEvent, RuntimeFault>)
        requires
            old(self).ip < old(self).code.len(),
        ensures
            match old(self)@.step_print() {
                Ok((s, event)) => r matches Ok(e) && e@ == event && final(self)@ == s,
                Err(f) => r matches Err(e) && e@ == f,
            },
    {
        match self.pop() {
            None => Err(RuntimeFault::StackUnderflow),
            Some(v) => {
                let text = v.render();
                self.push(Value::Void);
                self.ip = self.ip + 1;
                Ok(StepEvent::Printed(text))
            },
        }
    }

    fn jump_if_false(&mut self, target: usize) -> (r: Result<(), RuntimeFault>)
        requires
            old(self).ip < old(self).code.len(),
        ensures
            match old(self)@.step_jump_if_false(target as nat) {
                Ok(s) => r is Ok && final(self)@ == s,
                Err(f) => r matches Err(e) && e@ == f,
            },
    {
        match self.pop() {
            None => Err(RuntimeFault::StackUnderflow),
            Some(v) => {
                if v.is_truthy() {
                    self.ip = self.ip + 1;
                } else {
                    self.ip = target;
                }
                Ok(())
            },
        }
    }

    fn call(&mut self, name: String, argc: usize) -> (r: Result<(), RuntimeFault>)
        requires
            old(self).ip < old(self).code.len(),
        ensures
            match old(self)@.step_call(name@, argc as nat) {
                Ok(s) => r is Ok && final(self)@ == s,
                Err(f) => r matches Err(e) && e@ == f,
            },
    {
        match find_entry(&self.functions, &name) {
            None => Err(RuntimeFault::UndefinedFunction(name)),
            Some((entry, arity)) => {
                if argc != arity {
                    return Err(RuntimeFault::ArityMismatch(name));
                }
                if argc > self.stack.len() {
                    return Err(RuntimeFault::StackUnderflow);
                }
                let mut scopes: Vec<Scope<Value>> = Vec::new();
                scopes.push(Scope::new());
                let frame = CallFrame {
                    return_ip: self.ip + 1,
                    base: self.stack.len() - argc,
                    scopes,
                };
                proof {
                    assert(frame@.scopes == seq![Map::<Seq<char>, SpecValue>::empty()]);
                    assert(frames_view(self.frames@.push(frame)) == frames_view(
                        self.frames@,
                    ).push(frame@));
                }
                self.frames.push(frame);
                self.ip = entry;
                Ok(())
            },
        }
    }

    fn ret(&mut self) -> (r: Result<(), RuntimeFault>)
        ensures
            match old(self)@.step_return() {
                Ok(s) => r is Ok && final(self)@ == s,
                Err(f) => r matches Err(e) && e@ == f,
            },
    {
        let frame = match self.frames.pop() {
            Some(f) => f,
            None => {
                return Err(RuntimeFault::ReturnOutsideFunction);
            },
        };
        assert(frames_view(self.frames@) == old(self)@.frames.drop_last());
        let result = match self.pop() {
            Some(v) => v,
            None => Value::Void,
        };
        let ghost rest = values_view(self.stack@);
        self.stack.truncate(frame.base);
        proof {
            let cut = if frame.base < rest.len() {
                rest.take(frame.base as int)
            } else {
                rest
            };
            assert(values_view(self.stack@) == cut);
        }
        self.push(result);
        self.ip = frame.return_ip;
        Ok(())
    }

    /// Executes the instruction under the program counter. A printed
    /// line is handed to the caller, who writes it. After a fault the
    /// machine's state is unspecified and the run is over.
    pub fn step(&mut self) -> (r: Result<StepEvent, RuntimeFault>)
        ensures
            match old(self)@.step() {
                Ok((s, event)) => r matches Ok(e) && e@ == event && final(self)@ == s,
                Err(f) => r matches Err(e) && e@ == f,
            },
    {
        if self.ip >= self.code.len() {
            return Err(RuntimeFault::UnresolvedJump);
        }
        let instruction = self.code[self.ip].clone();
        match instruction {
            Instruction::PushInt(v) => {
                self.push(Value::Int(v));
                self.ip = self.ip + 1;
                Ok(StepEvent::Continued)
            },
            Instruction::PushString(s) => {
                self.push(Value::String(s));
                self.ip = self.ip + 1;
                Ok(StepEvent::Continued)
            },
            Instruction::PushVoid => {
                self.push(Value::Void);
                self.ip = self.ip + 1;
                Ok(StepEvent::Continued)
            },
            Instruction::LoadVar(name) => {
                self.load_var(name)?;
                Ok(StepEvent::Continued)
            },
            Instruction::StoreVar(name) => {
                self.store_var(name)?;
                Ok(StepEvent::Continued)
            },
            Instruction::EnterScope => {
                self.enter_scope();
                Ok(StepEvent::Continued)
            },
            Instruction::ExitScope => {
                self.exit_scope();
                Ok(StepEvent::Continued)
            },
            Instruction::Add => self.arith(ArithOp::Add),
            Instruction::Sub => self.arith(ArithOp::Sub),
            Instruction::Mul => self.arith(ArithOp::Mul),
            Instruction::Div => self.arith(ArithOp::Div),
            Instruction::Less => self.compare(CompareOp::Less),
            Instruction::Greater => self.compare(CompareOp::Greater),
            Instruction::Equal => self.compare(CompareOp::Equal),
            Instruction::Print => self.print(),
            Instruction::Pop => {
                match self.pop() {
                    None => Err(RuntimeFault::StackUnderflow),
                    Some(_) => {
                        self.ip = self.ip + 1;
                        Ok(StepEvent::Continued)
                    },
                }
            },
            Instruction::Jump(target) => {
                self.ip = target;
                Ok(StepEvent::Continued)
            },
            Instruction::JumpIfFalse(target) => {
                self.jump_if_false(target)?;
                Ok(StepEvent::Continued)
            },
            Instruction::Call(name, argc) => {
                let print = String::from_str("print");
                if name == print {
                    self.print()
                } else {
                    self.call(name, argc)?;
                    Ok(StepEvent::Continued)
                }
            },
            Instruction::Return => {
                self.ret()?;
                Ok(StepEvent::Continued)
            },
            Instruction::Halt => Ok(StepEvent::Halted),
        }
    }

    fn arith(&mut self, op: ArithOp) -> (r: Result<StepEvent, RuntimeFault>)
        requires
            old(self).ip < old(self).code.len(),
        ensures
            match old(self)@.step_arith(op) {
                Ok(s) => r matches Ok(e) && e@ == SpecEvent::Continued && final(self)@ == s,
                Err(f) => r matches Err(e) && e@ == f,
            },
    {
        binop(&mut self.stack, op)?;
        self.ip = self.ip + 1;
        Ok(StepEvent::Continued)
    }

    fn compare(&mut self, op: CompareOp) -> (r: Result<StepEvent, RuntimeFault>)
        requires
            old(self).ip < old(self).code.len(),
        ensures
            match old(self)@.step_compare(op) {
                Ok(s) => r matches Ok(e) && e@ == SpecEvent::Continued && final(self)@ == s,
                Err(f) => r matches Err(e) && e@ == f,
            },
    {
        cmpop(&mut self.stack, op)?;
        self.ip = self.ip + 1;
        Ok(StepEvent::Continued)
    }

    /// Runs until the machine halts or faults, but for at most `limit`
    /// steps, and collects the printed lines. Unless a fault ended the
    /// run, the machine is left in the state in which the run stopped.
    pub fn run(&mut self, limit: u64) -> (r: Run)
        ensures
            r@ == run(old(self)@, limit as nat),
            !(r.end is Fault) ==> final(self)@ == run_stop(old(self)@, limit as nat),
    {
        let mut output: Vec<String> = Vec::new();
        let mut left: u64 = limit;
        assert(lines_view(output@) == Seq::<Seq<char>>::empty());
        while left > 0
            invariant
                run(old(self)@, limit as nat) == run_from(self@, left as nat, lines_view(output@)),
                run_stop(old(self)@, limit as nat) == run_stop(self@, left as nat),
            decreases left,
        {
            match self.step() {
                Err(f) => {
                    return Run { output, end: RunEnd::Fault(f) };
                },
                Ok(StepEvent::Halted) => {
                    return Run { output, end: RunEnd::Halted };
                },
                Ok(StepEvent::Printed(line)) => {
                    assert(lines_view(output@.push(line)) == lines_view(output@).push(line@));
                    output.push(line);
                },
                Ok(StepEvent::Continued) => {},
            }
            left = left - 1;
        }
        Run { output, end: RunEnd::StepLimit }
    }
}

} // verus!
