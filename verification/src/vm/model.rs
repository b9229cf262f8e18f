//! The stack machine as a mathematical transition system: its states and
//! what one instruction does to a state.

use super::bytecode::{find_function, SpecFunction, SpecInstruction};
use super::value::SpecValue;
use crate::runtime_error::SpecFault;
use vstd::prelude::*;

verus! {

/// A scope of the model: a map from names to values.
pub type SpecScope = Map<Seq<char>, SpecValue>;

/// Model of a call frame.
pub struct SpecFrame {
    /// Where execution resumes when the call returns.
    pub return_ip: nat,
    /// The operand-stack depth that the return restores before it pushes
    /// the result.
    pub base: nat,
    /// The lexical scopes of the call, innermost last.
    pub scopes: Seq<SpecScope>,
}

/// Model of the machine's state.
pub struct SpecVm {
    pub ip: nat,
    pub stack: Seq<SpecValue>,
    pub globals: SpecScope,
    pub frames: Seq<SpecFrame>,
    pub functions: Seq<SpecFunction>,
    pub code: Seq<SpecInstruction>,
}

/// What a step lets the outside observe.
pub enum SpecEvent {
    /// The machine went on silently.
    Continued,
    /// The machine printed one line with this text.
    Printed(Seq<char>),
    /// The machine has halted.
    Halted,
}

/// The four arithmetic instructions.
#[derive(Debug, Clone, Copy, PartialEq, Eq, Structural)]
pub enum ArithOp {
    Add,
    Sub,
    Mul,
    Div,
}

/// The three comparison instructions.
#[derive(Debug, Clone, Copy, PartialEq, Eq, Structural)]
pub enum CompareOp {
    Less,
    Greater,
    Equal,
}

/// Integer division that rounds toward zero, for a nonzero divisor.
pub open spec fn truncated_quotient(a: int, b: int) -> int {
    if a >= 0 && b > 0 {
        a / b
    } else if a < 0 && b < 0 {
        (-a) / (-b)
    } else if a < 0 {
        -((-a) / b)
    } else {
        -(a / (-b))
    }
}

/// The exact result of an arithmetic instruction on `a` and `b`.
pub open spec fn arith_exact(op: ArithOp, a: int, b: int) -> int {
    match op {
        ArithOp::Add => a + b,
        ArithOp::Sub => a - b,
        ArithOp::Mul => a * b,
        ArithOp::Div => truncated_quotient(a, b),
    }
}

/// What an arithmetic instruction yields: the exact result where it fits
/// in 64 bits; a fault on a zero divisor or a result out of range.
pub open spec fn arith(op: ArithOp, a: i64, b: i64) -> Result<i64, SpecFault> {
    if op == ArithOp::Div && b == 0 {
        Err(SpecFault::DivisionByZero)
    } else {
        let exact = arith_exact(op, a as int, b as int);
        if i64::MIN <= exact <= i64::MAX {
            Ok(exact as i64)
        } else {
            Err(SpecFault::IntegerOverflow)
        }
    }
}

/// What a comparison instruction yields: 1 for true, 0 for false.
pub open spec fn compare(op: CompareOp, a: i64, b: i64) -> i64 {
    let holds = match op {
        CompareOp::Less => a < b,
        CompareOp::Greater => a > b,
        CompareOp::Equal => a == b,
    };
    if holds {
        1
    } else {
        0
    }
}

/// Takes an integer off the top of the stack.
pub open spec fn pop_int(stack: Seq<SpecValue>) -> Result<(i64, Seq<SpecValue>), SpecFault> {
    if stack.len() == 0 {
        Err(SpecFault::StackUnderflow)
    } else {
        match stack.last() {
            SpecValue::Int(v) => Ok((v, stack.drop_last())),
            _ => Err(SpecFault::ExpectedInt),
        }
    }
}

/// Takes the right operand, then the left one, off the stack.
pub open spec fn pop_operands(stack: Seq<SpecValue>) -> Result<
    (i64, i64, Seq<SpecValue>),
    SpecFault,
> {
    match pop_int(stack) {
        Err(f) => Err(f),
        Ok((b, rest)) => match pop_int(rest) {
            Err(f) => Err(f),
            Ok((a, rest2)) => Ok((a, b, rest2)),
        },
    }
}

/// The stack after an arithmetic instruction.
pub open spec fn arith_stack(op: ArithOp, stack: Seq<SpecValue>) -> Result<
    Seq<SpecValue>,
    SpecFault,
> {
    match pop_operands(stack) {
        Err(f) => Err(f),
        Ok((a, b, rest)) => match arith(op, a, b) {
            Err(f) => Err(f),
            Ok(v) => Ok(rest.push(SpecValue::Int(v))),
        },
    }
}

/// The stack after a comparison instruction.
pub open spec fn compare_stack(op: CompareOp, stack: Seq<SpecValue>) -> Result<
    Seq<SpecValue>,
    SpecFault,
> {
    match pop_operands(stack) {
        Err(f) => Err(f),
        Ok((a, b, rest)) => Ok(rest.push(SpecValue::Int(compare(op, a, b)))),
    }
}

/// Looks a name up in a stack of scopes, innermost first.
pub open spec fn lookup_scopes(scopes: Seq<SpecScope>, name: Seq<char>) -> Option<SpecValue>
    decreases scopes.len(),
{
    if scopes.len() == 0 {
        None
    } else if scopes.last().contains_key(name) {
        Some(scopes.last()[name])
    } else {
        lookup_scopes(scopes.drop_last(), name)
    }
}

impl SpecFrame {
    /// The frame with one more, empty scope.
    pub open spec fn enter_scope(self) -> SpecFrame {
        SpecFrame { scopes: self.scopes.push(Map::empty()), ..self }
    }

    /// The frame without its innermost scope; unchanged if it has none.
    pub open spec fn exit_scope(self) -> SpecFrame {
        if self.scopes.len() == 0 {
            self
        } else {
            SpecFrame { scopes: self.scopes.drop_last(), ..self }
        }
    }

    /// The frame with `name` bound in its innermost scope.
    pub open spec fn bind(self, name: Seq<char>, value: SpecValue) -> SpecFrame
        recommends
            self.scopes.len() > 0,
    {
        SpecFrame {
            scopes: self.scopes.update(
                self.scopes.len() - 1,
                self.scopes.last().insert(name, value),
            ),
            ..self
        }
    }
}

impl SpecVm {
    /// The instruction that the program counter points at.
    pub open spec fn fetch(self) -> Option<SpecInstruction> {
        if self.ip < self.code.len() {
            Some(self.code[self.ip as int])
        } else {
            None
        }
    }

    /// The state with the program counter at `ip`.
    pub open spec fn goto(self, ip: nat) -> SpecVm {
        SpecVm { ip, ..self }
    }

    /// The state with the program counter on the next instruction.
    pub open spec fn advance(self) -> SpecVm {
        self.goto(self.ip + 1)
    }

    /// The state with another operand stack.
    pub open spec fn with_stack(self, stack: Seq<SpecValue>) -> SpecVm {
        SpecVm { stack, ..self }
    }

    /// The state with another top frame.
    pub open spec fn with_top_frame(self, frame: SpecFrame) -> SpecVm
        recommends
            self.frames.len() > 0,
    {
        SpecVm { frames: self.frames.update(self.frames.len() - 1, frame), ..self }
    }

    /// What a variable resolves to: the innermost scope of the active
    /// frame that binds it, else the global table.
    pub open spec fn lookup(self, name: Seq<char>) -> Option<SpecValue> {
        let local = if self.frames.len() > 0 {
            lookup_scopes(self.frames.last().scopes, name)
        } else {
            None
        };
        match local {
            Some(v) => Some(v),
            None => if self.globals.contains_key(name) {
                Some(self.globals[name])
            } else {
                None
            },
        }
    }

    /// `load-var`: pushes what the name resolves to.
    pub open spec fn step_load(self, name: Seq<char>) -> Result<SpecVm, SpecFault> {
        match self.lookup(name) {
            Some(v) => Ok(self.with_stack(self.stack.push(v)).advance()),
            None => Err(SpecFault::UndefinedVariable(name)),
        }
    }

    /// `store-var`: pops a value and binds the name to it, in the
    /// innermost scope of the active frame, or globally without a frame.
    pub open spec fn step_store(self, name: Seq<char>) -> Result<SpecVm, SpecFault> {
        if self.stack.len() == 0 {
            Err(SpecFault::StackUnderflow)
        } else {
            let value = self.stack.last();
            let popped = self.with_stack(self.stack.drop_last());
            if self.frames.len() == 0 {
                Ok(SpecVm { globals: self.globals.insert(name, value), ..popped }.advance())
            } else if self.frames.last().scopes.len() == 0 {
                Err(SpecFault::NoScope)
            } else {
                Ok(popped.with_top_frame(self.frames.last().bind(name, value)).advance())
            }
        }
    }

    /// `scope-enter`: a new empty scope on the active frame, if any.
    pub open spec fn step_enter_scope(self) -> SpecVm {
        if self.frames.len() == 0 {
            self.advance()
        } else {
            self.with_top_frame(self.frames.last().enter_scope()).advance()
        }
    }

    /// `scope-exit`: drops the innermost scope of the active frame, if any.
    pub open spec fn step_exit_scope(self) -> SpecVm {
        if self.frames.len() == 0 {
            self.advance()
        } else {
            self.with_top_frame(self.frames.last().exit_scope()).advance()
        }
    }

    /// `print`: pops a value, emits its text, pushes void.
    pub open spec fn step_print(self) -> Result<(SpecVm, SpecEvent), SpecFault> {
        if self.stack.len() == 0 {
            Err(SpecFault::StackUnderflow)
        } else {
            Ok(
                (
                    self.with_stack(self.stack.drop_last().push(SpecValue::Void)).advance(),
                    SpecEvent::Printed(self.stack.last().rendered()),
                ),
            )
        }
    }

    /// `pop`: discards the top of the stack.
    pub open spec fn step_pop(self) -> Result<SpecVm, SpecFault> {
        if self.stack.len() == 0 {
            Err(SpecFault::StackUnderflow)
        } else {
            Ok(self.with_stack(self.stack.drop_last()).advance())
        }
    }

    /// `jump-if-false`: pops a value and jumps unless it is true.
    pub open spec fn step_jump_if_false(self, target: nat) -> Result<SpecVm, SpecFault> {
        if self.stack.len() == 0 {
            Err(SpecFault::StackUnderflow)
        } else {
            let popped = self.with_stack(self.stack.drop_last());
            if self.stack.last().is_truthy() {
                Ok(popped.advance())
            } else {
                Ok(popped.goto(target))
            }
        }
    }

    /// `call` of a function of the program: checks the callee and the
    /// argument count, opens a frame over the arguments and jumps to the
    /// entry.
    pub open spec fn step_call(self, name: Seq<char>, argc: nat) -> Result<SpecVm, SpecFault> {
        match find_function(self.functions, name) {
            None => Err(SpecFault::UndefinedFunction(name)),
            Some(f) => if argc != f.arity {
                Err(SpecFault::ArityMismatch(name))
            } else if argc > self.stack.len() {
                Err(SpecFault::StackUnderflow)
            } else {
                let frame = SpecFrame {
                    return_ip: self.ip + 1,
                    base: (self.stack.len() - argc) as nat,
                    scopes: seq![Map::empty()],
                };
                Ok(SpecVm { frames: self.frames.push(frame), ..self }.goto(f.entry))
            },
        }
    }

    /// `return`: takes the result off the stack (void if it is empty),
    /// closes the active frame, cuts the stack back to the frame's base,
    /// pushes the result and resumes after the call.
    pub open spec fn step_return(self) -> Result<SpecVm, SpecFault> {
        if self.frames.len() == 0 {
            Err(SpecFault::ReturnOutsideFunction)
        } else {
            let frame = self.frames.last();
            let (result, rest) = if self.stack.len() == 0 {
                (SpecValue::Void, self.stack)
            } else {
                (self.stack.last(), self.stack.drop_last())
            };
            let cut = if frame.base < rest.len() {
                rest.take(frame.base as int)
            } else {
                rest
            };
            Ok(
                SpecVm { frames: self.frames.drop_last(), stack: cut.push(result), ..self }.goto(
                    frame.return_ip,
                ),
            )
        }
    }

    /// What executing the instruction under the program counter does:
    /// the next state and what the outside observes, or the fault that
    /// ends the run.
    pub open spec fn step(self) -> Result<(SpecVm, SpecEvent), SpecFault> {
        match self.fetch() {
            None => Err(SpecFault::UnresolvedJump),
            Some(instruction) => match instruction {
                SpecInstruction::PushInt(v) => silent(
                    Ok(self.with_stack(self.stack.push(SpecValue::Int(v))).advance()),
                ),
                SpecInstruction::PushString(s) => silent(
                    Ok(self.with_stack(self.stack.push(SpecValue::String(s))).advance()),
                ),
                SpecInstruction::PushVoid => silent(
                    Ok(self.with_stack(self.stack.push(SpecValue::Void)).advance()),
                ),
                SpecInstruction::LoadVar(name) => silent(self.step_load(name)),
                SpecInstruction::StoreVar(name) => silent(self.step_store(name)),
                SpecInstruction::EnterScope => silent(Ok(self.step_enter_scope())),
                SpecInstruction::ExitScope => silent(Ok(self.step_exit_scope())),
                SpecInstruction::Add => silent(self.step_arith(ArithOp::Add)),
                SpecInstruction::Sub => silent(self.step_arith(ArithOp::Sub)),
                SpecInstruction::Mul => silent(self.step_arith(ArithOp::Mul)),
                SpecInstruction::Div => silent(self.step_arith(ArithOp::Div)),
                SpecInstruction::Less => silent(self.step_compare(CompareOp::Less)),
                SpecInstruction::Greater => silent(self.step_compare(CompareOp::Greater)),
                SpecInstruction::Equal => silent(self.step_compare(CompareOp::Equal)),
                SpecInstruction::Print => self.step_print(),
                SpecInstruction::Pop => silent(self.step_pop()),
                SpecInstruction::Jump(target) => silent(Ok(self.goto(target))),
                SpecInstruction::JumpIfFalse(target) => silent(self.step_jump_if_false(target)),
                SpecInstruction::Call(name, argc) => if name == "print"@ {
                    self.step_print()
                } else {
                    silent(self.step_call(name, argc))
                },
                SpecInstruction::Return => silent(self.step_return()),
                SpecInstruction::Halt => Ok((self, SpecEvent::Halted)),
            },
        }
    }

    /// An arithmetic instruction: replaces the two operands by the result.
    pub open spec fn step_arith(self, op: ArithOp) -> Result<SpecVm, SpecFault> {
        match arith_stack(op, self.stack) {
            Err(f) => Err(f),
            Ok(stack) => Ok(self.with_stack(stack).advance()),
        }
    }

    /// A comparison instruction: replaces the two operands by 1 or 0.
    pub open spec fn step_compare(self, op: CompareOp) -> Result<SpecVm, SpecFault> {
        match compare_stack(op, self.stack) {
            Err(f) => Err(f),
            Ok(stack) => Ok(self.with_stack(stack).advance()),
        }
    }
}

/// A step that the outside does not observe.
pub open spec fn silent(r: Result<SpecVm, SpecFault>) -> Result<(SpecVm, SpecEvent), SpecFault> {
    match r {
        Ok(s) => Ok((s, SpecEvent::Continued)),
        Err(f) => Err(f),
    }
}

/// How a bounded run ended.
pub enum SpecRunEnd {
    /// The machine executed `halt`.
    Halted,
    /// The step limit was reached before the machine halted.
    StepLimit,
    /// A fault ended the run.
    Fault(SpecFault),
}

/// Model of the record of a bounded run.
pub struct SpecRun {
    /// The lines printed, in order.
    pub output: Seq<Seq<char>>,
    pub end: SpecRunEnd,
}

/// The record of running from `s` for at most `limit` steps, behind the
/// lines in `output` that were printed before.
pub open spec fn run_from(s: SpecVm, limit: nat, output: Seq<Seq<char>>) -> SpecRun
    decreases limit,
{
    if limit == 0 {
        SpecRun { output, end: SpecRunEnd::StepLimit }
    } else {
        match s.step() {
            Err(f) => SpecRun { output, end: SpecRunEnd::Fault(f) },
            Ok((_, SpecEvent::Halted)) => SpecRun { output, end: SpecRunEnd::Halted },
            Ok((next, SpecEvent::Printed(line))) => run_from(
                next,
                (limit - 1) as nat,
                output.push(line),
            ),
            Ok((next, SpecEvent::Continued)) => run_from(next, (limit - 1) as nat, output),
        }
    }
}

/// The record of running from `s` for at most `limit` steps.
pub open spec fn run(s: SpecVm, limit: nat) -> SpecRun {
    run_from(s, limit, Seq::empty())
}

/// The state in which a run from `s` of at most `limit` steps stops: the
/// state at the `halt`, the state after `limit` steps, or the state in
/// which the next step faults.
pub open spec fn run_stop(s: SpecVm, limit: nat) -> SpecVm
    decreases limit,
{
    if limit == 0 {
        s
    } else {
        match s.step() {
            Err(_) => s,
            Ok((next, SpecEvent::Halted)) => next,
            Ok((next, _)) => run_stop(next, (limit - 1) as nat),
        }
    }
}

/// The state after `n` steps from `s`, if none of them faults.
pub open spec fn steps(s: SpecVm, n: nat) -> Option<SpecVm>
    decreases n,
{
    if n == 0 {
        Some(s)
    } else {
        match s.step() {
            Ok((next, _)) => steps(next, (n - 1) as nat),
            Err(_) => None,
        }
    }
}

/// A step never changes the code or the function table.
pub proof fn lemma_step_keeps_program(s: SpecVm)
    requires
        s.step() is Ok,
    ensures
        s.step()->Ok_0.0.code == s.code,
        s.step()->Ok_0.0.functions == s.functions,
{
}

/// A run never changes the code or the function table.
pub proof fn lemma_run_keeps_program(s: SpecVm, n: nat)
    requires
        steps(s, n) is Some,
    ensures
        steps(s, n)->Some_0.code == s.code,
        steps(s, n)->Some_0.functions == s.functions,
    decreases n,
{
    if n > 0 {
        lemma_step_keeps_program(s);
        lemma_run_keeps_program(s.step()->Ok_0.0, (n - 1) as nat);
    }
}

/// Steps taken one after the other add up.
pub proof fn lemma_steps_split(s: SpecVm, n: nat, m: nat)
    ensures
        steps(s, n + m) == match steps(s, n) {
            Some(t) => steps(t, m),
            None => None,
        },
    decreases n,
{
    if n > 0 {
        match s.step() {
            Ok((next, _)) => {
                lemma_steps_split(next, (n - 1) as nat, m);
            },
            Err(_) => {},
        }
    }
}

} // verus!
