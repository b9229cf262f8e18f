//! The reference interpreter: executes a program by walking its syntax
//! tree, without compiling it.
//!
//! Each call has one flat environment: a block opens no scope of its own,
//! and an assignment changes the variable wherever in the function it was
//! declared. What `print` writes is collected line by line. A budget
//! bounds the depth of nested calls and the number of iterations of each
//! loop, so that every run ends.

use crate::ast::{
    BinOp, Block, Expr, FunctionDecl, Program, SpecBlock, SpecExpr, SpecFunctionDecl, SpecStmt,
    Stmt,
};
use crate::parser::decls_view;
use crate::runtime_error::{RuntimeFault, SpecFault};
use crate::text::{decimal_int, int_to_string};
use crate::vm::model::{arith, compare, ArithOp, CompareOp, SpecRun, SpecRunEnd};
use crate::vm::scope::Scope;
use crate::vm::vm::{apply_arith, lines_view, Run, RunEnd};
use vstd::prelude::*;
use vstd::string::StringExecFns;

verus! {

/// Model of a value of the interpreter.
pub enum SpecValue {
    Int(i64),
    Str(Seq<char>),
    Void,
}

impl SpecValue {
    /// Only a nonzero integer counts as true.
    pub open spec fn is_true(self) -> bool {
        self matches SpecValue::Int(v) && v != 0
    }

    /// The lines that printing the value writes: one for an integer or a
    /// string, none for void.
    pub open spec fn printed(self) -> Seq<Seq<char>> {
        match self {
            SpecValue::Int(v) => seq![decimal_int(v as int)],
            SpecValue::Str(s) => seq![s],
            SpecValue::Void => Seq::empty(),
        }
    }
}

/// A value of the interpreter.
#[derive(Debug, PartialEq, Eq)]
pub enum Value {
    Int(i64),
    Str(String),
    Void,
}

impl View for Value {
    type V = SpecValue;

    open spec fn view(&self) -> SpecValue {
        match self {
            Value::Int(v) => SpecValue::Int(*v),
            Value::Str(s) => SpecValue::Str(s@),
            Value::Void => SpecValue::Void,
        }
    }
}

impl Clone for Value {
    fn clone(&self) -> (r: Self)
        ensures
            r@ == self@,
    {
        match self {
            Value::Int(v) => Value::Int(*v),
            Value::Str(s) => Value::Str(s.clone()),
            Value::Void => Value::Void,
        }
    }
}

impl Value {
    /// Only a nonzero integer counts as true.
    pub fn is_true(&self) -> (b: bool)
        ensures
            b == self@.is_true(),
    {
        match self {
            Value::Int(v) => *v != 0,
            _ => false,
        }
    }
}

/// Model of how a statement hands control on.
pub enum SpecControl {
    /// To the next statement.
    Next,
    /// Out of the enclosing loop.
    Break,
    /// To the next iteration of the enclosing loop.
    Continue,
    /// Out of the function, with this result.
    Return(SpecValue),
}

/// Why an evaluation stopped before it was done.
pub enum SpecStop {
    Fault(SpecFault),
    /// The budget was used up.
    StepLimit,
}

/// An environment of the model: the variables of one call.
pub type SpecEnv = Map<Seq<char>, SpecValue>;

/// The lines printed so far.
pub type Lines = Seq<Seq<char>>;

/// The declaration that a call of `name` runs: the last one of that name
/// in the program.
pub open spec fn find_decl(fs: Seq<SpecFunctionDecl>, name: Seq<char>) -> Option<
    SpecFunctionDecl,
>
    decreases fs.len(),
{
    if fs.len() == 0 {
        None
    } else if fs.last().name == name {
        Some(fs.last())
    } else {
        find_decl(fs.drop_last(), name)
    }
}

/// The result of a binary operator on two values: both must be integers;
/// a comparison yields 1 or 0; arithmetic out of the 64-bit range and
/// division by zero are faults.
pub open spec fn apply(op: BinOp, left: SpecValue, right: SpecValue) -> Result<
    SpecValue,
    SpecStop,
> {
    match (left, right) {
        (SpecValue::Int(a), SpecValue::Int(b)) => match op {
            BinOp::Add => arith_value(ArithOp::Add, a, b),
            BinOp::Sub => arith_value(ArithOp::Sub, a, b),
            BinOp::Mul => arith_value(ArithOp::Mul, a, b),
            BinOp::Div => arith_value(ArithOp::Div, a, b),
            BinOp::Greater => Ok(SpecValue::Int(compare(CompareOp::Greater, a, b))),
            BinOp::Less => Ok(SpecValue::Int(compare(CompareOp::Less, a, b))),
            BinOp::Equal => Ok(SpecValue::Int(compare(CompareOp::Equal, a, b))),
        },
        _ => Err(SpecStop::Fault(SpecFault::ExpectedInt)),
    }
}

/// The result of an arithmetic operator on two integers.
pub open spec fn arith_value(op: ArithOp, a: i64, b: i64) -> Result<SpecValue, SpecStop> {
    match arith(op, a, b) {
        Ok(v) => Ok(SpecValue::Int(v)),
        Err(f) => Err(SpecStop::Fault(f)),
    }
}

/// The number of arguments that a call binds: as many as there are both
/// parameters and arguments.
pub open spec fn bound_count(params: Seq<Seq<char>>, args: Seq<SpecExpr>) -> nat {
    if params.len() <= args.len() {
        params.len()
    } else {
        args.len()
    }
}

/// The number of nodes of an expression.
pub open spec fn expr_size(e: SpecExpr) -> nat
    decreases e, 0nat,
{
    match e {
        SpecExpr::Binary { left, op, right } => 1 + expr_size(*left) + expr_size(*right),
        SpecExpr::Call { name, args } => 1 + exprs_size(args, args.len()),
        _ => 1,
    }
}

/// The number of nodes of the first `n` expressions of a list, and one
/// more for each of them.
pub open spec fn exprs_size(args: Seq<SpecExpr>, n: nat) -> nat
    decreases args, n,
{
    if n == 0 || n > args.len() {
        0
    } else {
        exprs_size(args, (n - 1) as nat) + expr_size(args[n - 1]) + 1
    }
}

/// A shorter prefix of a list of expressions has no more nodes.
pub proof fn lemma_exprs_size_grows(args: Seq<SpecExpr>, n: nat, m: nat)
    requires
        n <= m <= args.len(),
    ensures
        exprs_size(args, n) <= exprs_size(args, m),
    decreases m,
{
    if n < m {
        lemma_exprs_size_grows(args, n, (m - 1) as nat);
    }
}

/// The number of nodes of a statement.
pub open spec fn stmt_size(s: SpecStmt) -> nat
    decreases s, 0nat,
{
    match s {
        SpecStmt::Let { name, value } => 1 + expr_size(value),
        SpecStmt::Assign { name, value } => 1 + expr_size(value),
        SpecStmt::ExprStmt(e) => 1 + expr_size(e),
        SpecStmt::Return(e) => 1 + expr_size(e),
        SpecStmt::If { condition, then_block, else_block } => 1 + expr_size(condition)
            + stmts_size(then_block, then_block.len()) + match else_block {
            Some(b) => stmts_size(b, b.len()),
            None => 0,
        },
        SpecStmt::While { condition, body } => 1 + expr_size(condition) + stmts_size(
            body,
            body.len(),
        ),
        SpecStmt::Break => 1,
        SpecStmt::Continue => 1,
    }
}

/// The number of nodes of the first `n` statements of a block, and one
/// more for each of them.
pub open spec fn stmts_size(b: SpecBlock, n: nat) -> nat
    decreases b, n,
{
    if n == 0 || n > b.len() {
        0
    } else {
        stmts_size(b, (n - 1) as nat) + stmt_size(b[n - 1]) + 1
    }
}

/// The value of an expression in the environment `env`, and the lines
/// that its evaluation prints. `in_loop` says whether a loop is running,
/// in this call or in one of its callers; `fuel` is the budget.
pub open spec fn eval_expr(
    fs: Seq<SpecFunctionDecl>,
    e: SpecExpr,
    env: SpecEnv,
    in_loop: bool,
    fuel: nat,
) -> (Result<SpecValue, SpecStop>, Lines)
    decreases fuel, expr_size(e), 0nat,
{
    match e {
        SpecExpr::IntLiteral(v) => (Ok(SpecValue::Int(v)), Seq::empty()),
        SpecExpr::StringLiteral(s) => (Ok(SpecValue::Str(s)), Seq::empty()),
        SpecExpr::VarRef(name) => if env.contains_key(name) {
            (Ok(env[name]), Seq::empty())
        } else {
            (Err(SpecStop::Fault(SpecFault::UndefinedVariable(name))), Seq::empty())
        },
        SpecExpr::Binary { left, op, right } => {
            let (l, out1) = eval_expr(fs, *left, env, in_loop, fuel);
            match l {
                Err(stop) => (Err(stop), out1),
                Ok(a) => {
                    let (r, out2) = eval_expr(fs, *right, env, in_loop, fuel);
                    match r {
                        Err(stop) => (Err(stop), out1 + out2),
                        Ok(b) => (apply(op, a, b), out1 + out2),
                    }
                },
            }
        },
        SpecExpr::Call { name, args } => if name == "print"@ {
            if args.len() == 0 {
                (Err(SpecStop::Fault(SpecFault::MissingArgument)), Seq::empty())
            } else {
                proof {
                    lemma_exprs_size_grows(args, 1, args.len());
                    assert(exprs_size(args, 1) == exprs_size(args, 0) + expr_size(args[0]) + 1);
                }
                let (r, out) = eval_expr(fs, args[0], env, in_loop, fuel);
                match r {
                    Err(stop) => (Err(stop), out),
                    Ok(v) => (Ok(SpecValue::Void), out + v.printed()),
                }
            }
        } else {
            match find_decl(fs, name) {
                None => (Err(SpecStop::Fault(SpecFault::UndefinedFunction(name))), Seq::empty()),
                Some(f) => {
                    proof {
                        lemma_exprs_size_grows(args, bound_count(f.params, args), args.len());
                    }
                    let (bound, out1) = bind_args(
                        fs,
                        f.params,
                        args,
                        bound_count(f.params, args),
                        env,
                        in_loop,
                        fuel,
                    );
                    match bound {
                        Err(stop) => (Err(stop), out1),
                        Ok(local) => if fuel == 0 {
                            (Err(SpecStop::StepLimit), out1)
                        } else {
                            let (r, _, out2) = exec_stmts(
                                fs,
                                f.body,
                                f.body.len(),
                                local,
                                in_loop,
                                (fuel - 1) as nat,
                            );
                            match r {
                                Err(stop) => (Err(stop), out1 + out2),
                                Ok(SpecControl::Return(v)) => (Ok(v), out1 + out2),
                                Ok(_) => (Ok(SpecValue::Void), out1 + out2),
                            }
                        },
                    }
                },
            }
        },
    }
}

/// The environment of a callee after its first `n` parameters were
/// bound to the values of the first `n` arguments, which are evaluated
/// left to right in the caller's environment `env`.
pub open spec fn bind_args(
    fs: Seq<SpecFunctionDecl>,
    params: Seq<Seq<char>>,
    args: Seq<SpecExpr>,
    n: nat,
    env: SpecEnv,
    in_loop: bool,
    fuel: nat,
) -> (Result<SpecEnv, SpecStop>, Lines)
    decreases fuel, exprs_size(args, n), 0nat,
{
    if n == 0 || n > args.len() || n > params.len() {
        (Ok(Map::empty()), Seq::empty())
    } else {
        let (before, out1) = bind_args(fs, params, args, (n - 1) as nat, env, in_loop, fuel);
        match before {
            Err(stop) => (Err(stop), out1),
            Ok(local) => {
                let (r, out2) = eval_expr(fs, args[n - 1], env, in_loop, fuel);
                match r {
                    Err(stop) => (Err(stop), out1 + out2),
                    Ok(v) => (Ok(local.insert(params[n - 1], v)), out1 + out2),
                }
            },
        }
    }
}

/// What executing a statement does: how control goes on, the
/// environment behind the statement, and the lines printed.
pub open spec fn exec_stmt(
    fs: Seq<SpecFunctionDecl>,
    s: SpecStmt,
    env: SpecEnv,
    in_loop: bool,
    fuel: nat,
) -> (Result<SpecControl, SpecStop>, SpecEnv, Lines)
    decreases fuel, stmt_size(s), 1nat,
{
    match s {
        SpecStmt::Let { name, value } => {
            let (r, out) = eval_expr(fs, value, env, in_loop, fuel);
            match r {
                Err(stop) => (Err(stop), env, out),
                Ok(v) => (Ok(SpecControl::Next), env.insert(name, v), out),
            }
        },
        SpecStmt::Assign { name, value } => {
            let (r, out) = eval_expr(fs, value, env, in_loop, fuel);
            match r {
                Err(stop) => (Err(stop), env, out),
                Ok(v) => if env.contains_key(name) {
                    (Ok(SpecControl::Next), env.insert(name, v), out)
                } else {
                    (Err(SpecStop::Fault(SpecFault::UndefinedVariable(name))), env, out)
                },
            }
        },
        SpecStmt::ExprStmt(e) => {
            let (r, out) = eval_expr(fs, e, env, in_loop, fuel);
            match r {
                Err(stop) => (Err(stop), env, out),
                Ok(_) => (Ok(SpecControl::Next), env, out),
            }
        },
        SpecStmt::Return(e) => {
            let (r, out) = eval_expr(fs, e, env, in_loop, fuel);
            match r {
                Err(stop) => (Err(stop), env, out),
                Ok(v) => (Ok(SpecControl::Return(v)), env, out),
            }
        },
        SpecStmt::If { condition, then_block, else_block } => {
            let (r, out1) = eval_expr(fs, condition, env, in_loop, fuel);
            match r {
                Err(stop) => (Err(stop), env, out1),
                Ok(v) => {
                    let (c, after, out2) = if v.is_true() {
                        exec_stmts(fs, then_block, then_block.len(), env, in_loop, fuel)
                    } else {
                        match else_block {
                            Some(b) => exec_stmts(fs, b, b.len(), env, in_loop, fuel),
                            None => (Ok(SpecControl::Next), env, Seq::empty()),
                        }
                    };
                    (c, after, out1 + out2)
                },
            }
        },
        SpecStmt::While { condition, body } => exec_while(fs, s, env, fuel),
        SpecStmt::Break => if in_loop {
            (Ok(SpecControl::Break), env, Seq::empty())
        } else {
            (Err(SpecStop::Fault(SpecFault::BreakOutsideLoop)), env, Seq::empty())
        },
        SpecStmt::Continue => if in_loop {
            (Ok(SpecControl::Continue), env, Seq::empty())
        } else {
            (Err(SpecStop::Fault(SpecFault::ContinueOutsideLoop)), env, Seq::empty())
        },
    }
}

/// What executing the loop `s` does, from the evaluation of its
/// condition on. Each further iteration takes one unit of the budget.
pub open spec fn exec_while(fs: Seq<SpecFunctionDecl>, s: SpecStmt, env: SpecEnv, fuel: nat) -> (
    Result<SpecControl, SpecStop>,
    SpecEnv,
    Lines,
)
    decreases fuel, stmt_size(s), 0nat,
{
    match s {
        SpecStmt::While { condition, body } => {
            let (r, out1) = eval_expr(fs, condition, env, true, fuel);
            match r {
                Err(stop) => (Err(stop), env, out1),
                Ok(v) => if !v.is_true() {
                    (Ok(SpecControl::Next), env, out1)
                } else {
                    let (c, after, out2) = exec_stmts(fs, body, body.len(), env, true, fuel);
                    match c {
                        Err(stop) => (Err(stop), after, out1 + out2),
                        Ok(SpecControl::Return(v)) => (
                            Ok(SpecControl::Return(v)),
                            after,
                            out1 + out2,
                        ),
                        Ok(SpecControl::Break) => (Ok(SpecControl::Next), after, out1 + out2),
                        Ok(_) => if fuel == 0 {
                            (Err(SpecStop::StepLimit), after, out1 + out2)
                        } else {
                            let (c2, last, out3) = exec_while(fs, s, after, (fuel - 1) as nat);
                            (c2, last, out1 + out2 + out3)
                        },
                    }
                },
            }
        },
        _ => (Ok(SpecControl::Next), env, Seq::empty()),
    }
}

/// What executing the first `n` statements of a block does. The first
/// statement that does not hand control to the next one ends the
/// execution.
pub open spec fn exec_stmts(
    fs: Seq<SpecFunctionDecl>,
    b: SpecBlock,
    n: nat,
    env: SpecEnv,
    in_loop: bool,
    fuel: nat,
) -> (Result<SpecControl, SpecStop>, SpecEnv, Lines)
    decreases fuel, stmts_size(b, n), 0nat,
{
    if n == 0 || n > b.len() {
        (Ok(SpecControl::Next), env, Seq::empty())
    } else {
        let (c, mid, out1) = exec_stmts(fs, b, (n - 1) as nat, env, in_loop, fuel);
        match c {
            Ok(SpecControl::Next) => {
                let (c2, after, out2) = exec_stmt(fs, b[n - 1], mid, in_loop, fuel);
                (c2, after, out1 + out2)
            },
            _ => (c, mid, out1),
        }
    }
}

/// The record of running a program: `main` is executed in an empty
/// environment, outside any loop.
pub open spec fn interpret(fs: Seq<SpecFunctionDecl>, fuel: nat) -> SpecRun {
    match find_decl(fs, "main"@) {
        None => SpecRun {
            output: Seq::empty(),
            end: SpecRunEnd::Fault(SpecFault::MissingMain),
        },
        Some(main) => {
            let (c, _, output) = exec_stmts(
                fs,
                main.body,
                main.body.len(),
                Map::empty(),
                false,
                fuel,
            );
            match c {
                Err(SpecStop::Fault(f)) => SpecRun { output, end: SpecRunEnd::Fault(f) },
                Err(SpecStop::StepLimit) => SpecRun { output, end: SpecRunEnd::StepLimit },
                Ok(_) => SpecRun { output, end: SpecRunEnd::Halted },
            }
        },
    }
}

/// How a statement hands control on.
enum Control {
    Next,
    Break,
    Continue,
    Return(Value),
}

impl View for Control {
    type V = SpecControl;

    closed spec fn view(&self) -> SpecControl {
        match self {
            Control::Next => SpecControl::Next,
            Control::Break => SpecControl::Break,
            Control::Continue => SpecControl::Continue,
            Control::Return(v) => SpecControl::Return(v@),
        }
    }
}

/// Why an evaluation stopped before it was done.
enum Stop {
    Fault(RuntimeFault),
    StepLimit,
}

impl View for Stop {
    type V = SpecStop;

    closed spec fn view(&self) -> SpecStop {
        match self {
            Stop::Fault(f) => SpecStop::Fault(f@),
            Stop::StepLimit => SpecStop::StepLimit,
        }
    }
}

/// Whether `r` is the outcome `expected`.
spec fn is_value(r: Result<Value, Stop>, expected: Result<SpecValue, SpecStop>) -> bool {
    match expected {
        Ok(v) => r matches Ok(x) && x@ == v,
        Err(stop) => r matches Err(e) && e@ == stop,
    }
}

/// The result of a binary operator on two values.
fn apply_op(op: BinOp, left: Value, right: Value) -> (r: Result<Value, Stop>)
    ensures
        is_value(r, apply(op, left@, right@)),
{
    match (left, right) {
        (Value::Int(a), Value::Int(b)) => {
            let arithmetic = match op {
                BinOp::Add => Some(ArithOp::Add),
                BinOp::Sub => Some(ArithOp::Sub),
                BinOp::Mul => Some(ArithOp::Mul),
                BinOp::Div => Some(ArithOp::Div),
                _ => None,
            };
            match arithmetic {
                Some(op) => match apply_arith(op, a, b) {
                    Ok(v) => Ok(Value::Int(v)),
                    Err(f) => Err(Stop::Fault(f)),
                },
                None => {
                    let holds = match op {
                        BinOp::Greater => a > b,
                        BinOp::Less => a < b,
                        _ => a == b,
                    };
                    if holds {
                        Ok(Value::Int(1))
                    } else {
                        Ok(Value::Int(0))
                    }
                },
            }
        },
        _ => Err(Stop::Fault(RuntimeFault::ExpectedInt)),
    }
}

/// Appends the lines that printing `v` writes.
fn print_value(v: &Value, out: &mut Vec<String>)
    ensures
        lines_view(final(out)@) == lines_view(old(out)@) + v@.printed(),
{
    match v {
        Value::Int(i) => {
            let line = int_to_string(*i);
            assert(lines_view(out@.push(line)) == lines_view(out@) + v@.printed());
            out.push(line);
        },
        Value::Str(s) => {
            let line = s.clone();
            assert(lines_view(out@.push(line)) == lines_view(out@) + v@.printed());
            out.push(line);
        },
        Value::Void => {
            assert(lines_view(out@) == lines_view(out@) + v@.printed());
        },
    }
}

/// The reference interpreter, loaded with the functions of a program.
pub struct Interpreter {
    functions: Vec<FunctionDecl>,
}

impl View for Interpreter {
    type V = Seq<SpecFunctionDecl>;

    closed spec fn view(&self) -> Seq<SpecFunctionDecl> {
        decls_view(self.functions@)
    }
}

impl Interpreter {
    /// An interpreter for `program`.
    pub fn new(program: &Program) -> (i: Self)
        ensures
            i@ == program@.functions,
    {
        let copy = program.clone();
        let interpreter = Interpreter { functions: copy.functions };
        assert(interpreter@ == program@.functions);
        interpreter
    }

    /// The declaration that a call of `name` runs.
    fn find(&self, name: &String) -> (r: Option<&FunctionDecl>)
        ensures
            match find_decl(self@, name@) {
                Some(f) => r matches Some(d) && d@ == f,
                None => r is None,
            },
    {
        let ghost fs = self@;
        let mut i: usize = self.functions.len();
        assert(fs.take(i as int) == fs);
        while i > 0
            invariant
                i <= self.functions@.len(),
                fs == self@,
                find_decl(fs, name@) == find_decl(fs.take(i as int), name@),
            decreases i,
        {
            i = i - 1;
            assert(fs.take(i + 1).drop_last() == fs.take(i as int));
            if self.functions[i].name == *name {
                return Some(&self.functions[i]);
            }
        }
        None
    }

    fn eval_expr(
        &self,
        expr: &Expr,
        env: &Scope<Value>,
        in_loop: bool,
        fuel: u64,
        out: &mut Vec<String>,
    ) -> (r: Result<Value, Stop>)
        ensures
            is_value(r, eval_expr(self@, expr@, env@, in_loop, fuel as nat).0),
            lines_view(final(out)@) == lines_view(old(out)@) + eval_expr(
                self@,
                expr@,
                env@,
                in_loop,
                fuel as nat,
            ).1,
        decreases fuel, expr_size(expr@), 1nat,
    {
        let ghost before = lines_view(out@);
        let ghost none = Seq::<Seq<char>>::empty();
        assert(before + none == before);
        match expr {
            Expr::IntLiteral(v) => Ok(Value::Int(*v)),
            Expr::StringLiteral(s) => Ok(Value::Str(s.clone())),
            Expr::VarRef(name) => match env.get(name) {
                Some(v) => Ok(v.clone()),
                None => Err(Stop::Fault(RuntimeFault::UndefinedVariable(name.clone()))),
            },
            Expr::Binary { left, op, right } => {
                let ghost out1 = eval_expr(self@, left@, env@, in_loop, fuel as nat).1;
                let ghost out2 = eval_expr(self@, right@, env@, in_loop, fuel as nat).1;
                assert((before + out1) + out2 == before + (out1 + out2));
                let a = match self.eval_expr(left, env, in_loop, fuel, out) {
                    Err(stop) => {
                        return Err(stop);
                    },
                    Ok(a) => a,
                };
                let b = match self.eval_expr(right, env, in_loop, fuel, out) {
                    Err(stop) => {
                        return Err(stop);
                    },
                    Ok(b) => b,
                };
                apply_op(*op, a, b)
            },
            Expr::Call { name, args } => {
                let ghost models = expr@->args;
                if *name == String::from_str("print") {
                    if args.len() == 0 {
                        return Err(Stop::Fault(RuntimeFault::MissingArgument));
                    }
                    proof {
                        lemma_exprs_size_grows(models, 1, models.len());
                        assert(exprs_size(models, 1) == exprs_size(models, 0) + expr_size(
                            models[0],
                        ) + 1);
                        assert(models[0] == args[0]@);
                        let out1 = eval_expr(self@, models[0], env@, in_loop, fuel as nat).1;
                        let shown = eval_expr(
                            self@,
                            models[0],
                            env@,
                            in_loop,
                            fuel as nat,
                        ).0->Ok_0.printed();
                        assert((before + out1) + shown == before + (out1 + shown));
                    }
                    let v = match self.eval_expr(&args[0], env, in_loop, fuel, out) {
                        Err(stop) => {
                            return Err(stop);
                        },
                        Ok(v) => v,
                    };
                    print_value(&v, out);
                    Ok(Value::Void)
                } else {
                    let callee = match self.find(name) {
                        None => {
                            return Err(
                                Stop::Fault(RuntimeFault::UndefinedFunction(name.clone())),
                            );
                        },
                        Some(callee) => callee,
                    };
                    let ghost f = callee@;
                    let ghost count = bound_count(f.params, models);
                    let ghost out1 = bind_args(
                        self@,
                        f.params,
                        models,
                        count,
                        env@,
                        in_loop,
                        fuel as nat,
                    ).1;
                    proof {
                        lemma_exprs_size_grows(models, count, models.len());
                        assert(models == crate::parser::exprs_view(args@));
                    }
                    let mut local = match self.bind_args(
                        &callee.params,
                        args,
                        expr,
                        env,
                        in_loop,
                        fuel,
                        out,
                    ) {
                        Err(stop) => {
                            return Err(stop);
                        },
                        Ok(local) => local,
                    };
                    if fuel == 0 {
                        return Err(Stop::StepLimit);
                    }
                    let ghost out2 = exec_stmts(
                        self@,
                        f.body,
                        f.body.len(),
                        local@,
                        in_loop,
                        (fuel - 1) as nat,
                    ).2;
                    assert((before + out1) + out2 == before + (out1 + out2));
                    match self.exec_block(&callee.body, &mut local, in_loop, fuel - 1, out) {
                        Err(stop) => Err(stop),
                        Ok(Control::Return(v)) => Ok(v),
                        Ok(_) => Ok(Value::Void),
                    }
                }
            },
        }
    }

    /// Binds the parameters of a callee to the values of the arguments of
    /// the call `call`, as far as there are both.
    fn bind_args(
        &self,
        params: &Vec<String>,
        args: &Vec<Expr>,
        call: &Expr,
        env: &Scope<Value>,
        in_loop: bool,
        fuel: u64,
        out: &mut Vec<String>,
    ) -> (r: Result<Scope<Value>, Stop>)
        requires
            call@ is Call,
            call@->args == crate::parser::exprs_view(args@),
        ensures
            ({
                let (bound, lines) = bind_args(
                    self@,
                    crate::ast::names_view(params@),
                    call@->args,
                    bound_count(crate::ast::names_view(params@), call@->args),
                    env@,
                    in_loop,
                    fuel as nat,
                );
                &&& lines_view(final(out)@) == lines_view(old(out)@) + lines
                &&& match bound {
                    Ok(local) => r matches Ok(x) && x@ == local,
                    Err(stop) => r matches Err(e) && e@ == stop,
                }
            }),
        decreases fuel, expr_size(call@), 0nat,
    {
        let ghost names = crate::ast::names_view(params@);
        let ghost models = call@->args;
        let ghost before = lines_view(out@);
        let count = if params.len() <= args.len() {
            params.len()
        } else {
            args.len()
        };
        let mut local: Scope<Value> = Scope::new();
        let mut i: usize = 0;
        assert(before + Seq::<Seq<char>>::empty() == before);
        while i < count
            invariant
                i <= count,
                count == bound_count(names, models),
                count <= params.len(),
                count <= args.len(),
                names == crate::ast::names_view(params@),
                models == crate::parser::exprs_view(args@),
                models == call@->args,
                call@ is Call,
                before == lines_view(old(out)@),
                bind_args(self@, names, models, i as nat, env@, in_loop, fuel as nat).0 == Ok::<
                    SpecEnv,
                    SpecStop,
                >(local@),
                lines_view(out@) == before + bind_args(
                    self@,
                    names,
                    models,
                    i as nat,
                    env@,
                    in_loop,
                    fuel as nat,
                ).1,
            decreases count - i,
        {
            let ghost out1 = bind_args(
                self@,
                names,
                models,
                i as nat,
                env@,
                in_loop,
                fuel as nat,
            ).1;
            let ghost out2 = eval_expr(self@, models[i as int], env@, in_loop, fuel as nat).1;
            proof {
                lemma_exprs_size_grows(models, (i + 1) as nat, models.len());
                assert((before + out1) + out2 == before + (out1 + out2));
            }
            let v = match self.eval_expr(&args[i], env, in_loop, fuel, out) {
                Err(stop) => {
                    proof {
                        lemma_bind_args_stops(
                            self@,
                            names,
                            models,
                            (i + 1) as nat,
                            count as nat,
                            env@,
                            in_loop,
                            fuel as nat,
                        );
                    }
                    return Err(stop);
                },
                Ok(v) => v,
            };
            local.insert(params[i].clone(), v);
            i = i + 1;
        }
        Ok(local)
    }

    fn exec_stmt(
        &self,
        stmt: &Stmt,
        env: &mut Scope<Value>,
        in_loop: bool,
        fuel: u64,
        out: &mut Vec<String>,
    ) -> (r: Result<Control, Stop>)
        ensures
            ({
                let (c, after, lines) = exec_stmt(self@, stmt@, old(env)@, in_loop, fuel as nat);
                &&& lines_view(final(out)@) == lines_view(old(out)@) + lines
                &&& match c {
                    Ok(control) => r matches Ok(x) && x@ == control && final(env)@ == after,
                    Err(stop) => r matches Err(e) && e@ == stop,
                }
            }),
        decreases fuel, stmt_size(stmt@), 1nat,
    {
        let ghost before = lines_view(out@);
        let ghost none = Seq::<Seq<char>>::empty();
        assert(before + none == before);
        match stmt {
            Stmt::Let { name, value } => {
                let v = match self.eval_expr(value, env, in_loop, fuel, out) {
                    Err(stop) => {
                        return Err(stop);
                    },
                    Ok(v) => v,
                };
                env.insert(name.clone(), v);
                Ok(Control::Next)
            },
            Stmt::Assign { name, value } => {
                let v = match self.eval_expr(value, env, in_loop, fuel, out) {
                    Err(stop) => {
                        return Err(stop);
                    },
                    Ok(v) => v,
                };
                if env.get(name).is_none() {
                    return Err(Stop::Fault(RuntimeFault::UndefinedVariable(name.clone())));
                }
                env.insert(name.clone(), v);
                Ok(Control::Next)
            },
            Stmt::ExprStmt(e) => {
                match self.eval_expr(e, env, in_loop, fuel, out) {
                    Err(stop) => Err(stop),
                    Ok(_) => Ok(Control::Next),
                }
            },
            Stmt::Return(e) => {
                match self.eval_expr(e, env, in_loop, fuel, out) {
                    Err(stop) => Err(stop),
                    Ok(v) => Ok(Control::Return(v)),
                }
            },
            Stmt::If { condition, then_block, else_block } => {
                let ghost out1 = eval_expr(self@, condition@, env@, in_loop, fuel as nat).1;
                let v = match self.eval_expr(condition, env, in_loop, fuel, out) {
                    Err(stop) => {
                        return Err(stop);
                    },
                    Ok(v) => v,
                };
                if v.is_true() {
                    let ghost out2 = exec_stmts(
                        self@,
                        then_block@,
                        then_block@.len(),
                        env@,
                        in_loop,
                        fuel as nat,
                    ).2;
                    assert((before + out1) + out2 == before + (out1 + out2));
                    self.exec_block(then_block, env, in_loop, fuel, out)
                } else {
                    match else_block {
                        Some(b) => {
                            let ghost out2 = exec_stmts(
                                self@,
                                b@,
                                b@.len(),
                                env@,
                                in_loop,
                                fuel as nat,
                            ).2;
                            assert((before + out1) + out2 == before + (out1 + out2));
                            self.exec_block(b, env, in_loop, fuel, out)
                        },
                        None => {
                            assert(before + out1 == before + (out1 + none));
                            Ok(Control::Next)
                        },
                    }
                }
            },
            Stmt::While { .. } => self.exec_while(stmt, env, fuel, out),
            Stmt::Break => {
                if in_loop {
                    Ok(Control::Break)
                } else {
                    Err(Stop::Fault(RuntimeFault::BreakOutsideLoop))
                }
            },
            Stmt::Continue => {
                if in_loop {
                    Ok(Control::Continue)
                } else {
                    Err(Stop::Fault(RuntimeFault::ContinueOutsideLoop))
                }
            },
        }
    }

    /// Executes the loop `stmt`.
    fn exec_while(
        &self,
        stmt: &Stmt,
        env: &mut Scope<Value>,
        fuel: u64,
        out: &mut Vec<String>,
    ) -> (r: Result<Control, Stop>)
        requires
            stmt is While,
        ensures
            ({
                let (c, after, lines) = exec_while(self@, stmt@, old(env)@, fuel as nat);
                &&& lines_view(final(out)@) == lines_view(old(out)@) + lines
                &&& match c {
                    Ok(control) => r matches Ok(x) && x@ == control && final(env)@ == after,
                    Err(stop) => r matches Err(e) && e@ == stop,
                }
            }),
        decreases fuel, stmt_size(stmt@), 0nat,
    {
        let ghost before = lines_view(out@);
        let ghost none = Seq::<Seq<char>>::empty();
        assert(before + none == before);
        match stmt {
            Stmt::While { condition, body } => {
                let ghost out1 = eval_expr(self@, condition@, env@, true, fuel as nat).1;
                let v = match self.eval_expr(condition, env, true, fuel, out) {
                    Err(stop) => {
                        return Err(stop);
                    },
                    Ok(v) => v,
                };
                if !v.is_true() {
                    return Ok(Control::Next);
                }
                let ghost out2 = exec_stmts(self@, body@, body@.len(), env@, true, fuel as nat).2;
                assert((before + out1) + out2 == before + (out1 + out2));
                match self.exec_block(body, env, true, fuel, out) {
                    Err(stop) => Err(stop),
                    Ok(Control::Return(v)) => Ok(Control::Return(v)),
                    Ok(Control::Break) => Ok(Control::Next),
                    Ok(_) => {
                        if fuel == 0 {
                            return Err(Stop::StepLimit);
                        }
                        let ghost out3 = exec_while(self@, stmt@, env@, (fuel - 1) as nat).2;
                        assert(((before + out1) + out2) + out3 == before + (out1 + out2 + out3));
                        self.exec_while(stmt, env, fuel - 1, out)
                    },
                }
            },
            _ => unreached(),
        }
    }

    fn exec_block(
        &self,
        block: &Block,
        env: &mut Scope<Value>,
        in_loop: bool,
        fuel: u64,
        out: &mut Vec<String>,
    ) -> (r: Result<Control, Stop>)
        ensures
            ({
                let (c, after, lines) = exec_stmts(
                    self@,
                    block@,
                    block@.len(),
                    old(env)@,
                    in_loop,
                    fuel as nat,
                );
                &&& lines_view(final(out)@) == lines_view(old(out)@) + lines
                &&& match c {
                    Ok(control) => r matches Ok(x) && x@ == control && final(env)@ == after,
                    Err(stop) => r matches Err(e) && e@ == stop,
                }
            }),
        decreases fuel, stmts_size(block@, block@.len()), 0nat,
    {
        let ghost before = lines_view(out@);
        let ghost start = env@;
        let mut i: usize = 0;
        assert(before + Seq::<Seq<char>>::empty() == before);
        while i < block.statements.len()
            invariant
                i <= block.statements.len(),
                block@.len() == block.statements.len(),
                before == lines_view(old(out)@),
                start == old(env)@,
                exec_stmts(self@, block@, i as nat, start, in_loop, fuel as nat).0 == Ok::<
                    SpecControl,
                    SpecStop,
                >(SpecControl::Next),
                exec_stmts(self@, block@, i as nat, start, in_loop, fuel as nat).1 == env@,
                lines_view(out@) == before + exec_stmts(
                    self@,
                    block@,
                    i as nat,
                    start,
                    in_loop,
                    fuel as nat,
                ).2,
            decreases block.statements.len() - i,
        {
            let ghost out1 = exec_stmts(self@, block@, i as nat, start, in_loop, fuel as nat).2;
            let ghost out2 = exec_stmt(self@, block@[i as int], env@, in_loop, fuel as nat).2;
            proof {
                assert(block@[i as int] == block.statements[i as int]@);
                lemma_stmts_size_grows(block@, (i + 1) as nat, block@.len());
                assert((before + out1) + out2 == before + (out1 + out2));
            }
            match self.exec_stmt(&block.statements[i], env, in_loop, fuel, out) {
                Ok(Control::Next) => {},
                other => {
                    proof {
                        lemma_exec_stmts_stops(
                            self@,
                            block@,
                            (i + 1) as nat,
                            block@.len(),
                            start,
                            in_loop,
                            fuel as nat,
                        );
                    }
                    return other;
                },
            }
            i = i + 1;
        }
        Ok(Control::Next)
    }

    /// Runs `main` and returns the lines printed and how the run ended.
    /// `fuel` bounds the depth of nested calls and the number of
    /// iterations of each loop.
    pub fn run(&mut self, fuel: u64) -> (r: Run)
        ensures
            r@ == interpret(old(self)@, fuel as nat),
            final(self)@ == old(self)@,
    {
        let mut output: Vec<String> = Vec::new();
        assert(lines_view(output@) == Seq::<Seq<char>>::empty());
        let main = match self.find(&String::from_str("main")) {
            None => {
                return Run { output, end: RunEnd::Fault(RuntimeFault::MissingMain) };
            },
            Some(main) => main,
        };
        let mut env: Scope<Value> = Scope::new();
        let ghost lines = exec_stmts(
            self@,
            main@.body,
            main@.body.len(),
            Map::empty(),
            false,
            fuel as nat,
        ).2;
        assert(Seq::<Seq<char>>::empty() + lines == lines);
        match self.exec_block(&main.body, &mut env, false, fuel, &mut output) {
            Err(Stop::Fault(f)) => Run { output, end: RunEnd::Fault(f) },
            Err(Stop::StepLimit) => Run { output, end: RunEnd::StepLimit },
            Ok(_) => Run { output, end: RunEnd::Halted },
        }
    }
}

/// A longer prefix of a block has no fewer nodes.
pub proof fn lemma_stmts_size_grows(b: SpecBlock, n: nat, m: nat)
    requires
        n <= m <= b.len(),
    ensures
        stmts_size(b, n) <= stmts_size(b, m),
    decreases m,
{
    if n < m {
        lemma_stmts_size_grows(b, n, (m - 1) as nat);
    }
}

/// Once the execution of a block has ended at a statement, no later
/// statement is executed.
pub proof fn lemma_exec_stmts_stops(
    fs: Seq<SpecFunctionDecl>,
    b: SpecBlock,
    n: nat,
    m: nat,
    env: SpecEnv,
    in_loop: bool,
    fuel: nat,
)
    requires
        n <= m <= b.len(),
        exec_stmts(fs, b, n, env, in_loop, fuel).0 != Ok::<SpecControl, SpecStop>(
            SpecControl::Next,
        ),
    ensures
        exec_stmts(fs, b, m, env, in_loop, fuel) == exec_stmts(fs, b, n, env, in_loop, fuel),
    decreases m,
{
    if n < m {
        lemma_exec_stmts_stops(fs, b, n, (m - 1) as nat, env, in_loop, fuel);
    }
}

/// Once the evaluation of an argument has stopped, no later argument is
/// evaluated.
pub proof fn lemma_bind_args_stops(
    fs: Seq<SpecFunctionDecl>,
    params: Seq<Seq<char>>,
    args: Seq<SpecExpr>,
    n: nat,
    m: nat,
    env: SpecEnv,
    in_loop: bool,
    fuel: nat,
)
    requires
        n <= m,
        m <= args.len(),
        m <= params.len(),
        bind_args(fs, params, args, n, env, in_loop, fuel).0 is Err,
    ensures
        bind_args(fs, params, args, m, env, in_loop, fuel) == bind_args(
            fs,
            params,
            args,
            n,
            env,
            in_loop,
            fuel,
        ),
    decreases m,
{
    if n < m {
        lemma_bind_args_stops(fs, params, args, n, (m - 1) as nat, env, in_loop, fuel);
    }
}

} // verus!
