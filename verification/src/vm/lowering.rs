//! What compilation yields, stated on the models: the instruction
//! sequence of each construct, laid out at a given address, with every
//! jump target written out directly.

use super::bytecode::{SpecFunction, SpecInstruction, SpecProgram};
use crate::ast::{BinOp, SpecBlock, SpecExpr, SpecFunctionDecl, SpecProgram as SpecSource, SpecStmt};
use vstd::prelude::*;

verus! {

/// Why a program cannot be compiled.
#[derive(Debug, Clone, Copy, PartialEq, Eq, Structural)]
pub enum CompileError {
    /// A `break` stands outside every loop.
    BreakOutsideLoop,
    /// A `continue` stands outside every loop.
    ContinueOutsideLoop,
}

/// The two statements that leave the body of a loop.
#[derive(Debug, Clone, Copy, PartialEq, Eq, Structural)]
pub enum LoopExit {
    Break,
    Continue,
}

/// Where the jumps of the enclosing loop go: `continue` to `start`, the
/// address of the loop's condition; `break` to `end`, the address behind
/// the loop.
pub struct LoopTargets {
    pub start: nat,
    pub end: nat,
}

impl LoopTargets {
    /// The target of the jump that `exit` compiles to.
    pub open spec fn of(self, exit: LoopExit) -> nat {
        match exit {
            LoopExit::Break => self.end,
            LoopExit::Continue => self.start,
        }
    }

    /// These targets with the one for `exit` replaced by `target`.
    pub open spec fn with(self, exit: LoopExit, target: nat) -> LoopTargets {
        match exit {
            LoopExit::Break => LoopTargets { end: target, ..self },
            LoopExit::Continue => LoopTargets { start: target, ..self },
        }
    }
}

/// The instruction of a binary operator.
pub open spec fn op_instruction(op: BinOp) -> SpecInstruction {
    match op {
        BinOp::Add => SpecInstruction::Add,
        BinOp::Sub => SpecInstruction::Sub,
        BinOp::Mul => SpecInstruction::Mul,
        BinOp::Div => SpecInstruction::Div,
        BinOp::Less => SpecInstruction::Less,
        BinOp::Greater => SpecInstruction::Greater,
        BinOp::Equal => SpecInstruction::Equal,
    }
}

/// The instruction that ends a call: the builtin `print`, or a call of
/// the named function with the number of arguments given.
pub open spec fn call_instruction(name: Seq<char>, argc: nat) -> SpecInstruction {
    if name == "print"@ {
        SpecInstruction::Print
    } else {
        SpecInstruction::Call(name, argc)
    }
}

/// The code of an expression: it leaves the expression's value on the
/// stack. It holds no jump, so it does not depend on where it stands.
pub open spec fn expr_code(e: SpecExpr) -> Seq<SpecInstruction>
    decreases e, 0nat,
{
    match e {
        SpecExpr::IntLiteral(v) => seq![SpecInstruction::PushInt(v)],
        SpecExpr::StringLiteral(s) => seq![SpecInstruction::PushString(s)],
        SpecExpr::VarRef(name) => seq![SpecInstruction::LoadVar(name)],
        SpecExpr::Binary { left, op, right } => (expr_code(*left) + expr_code(*right)).push(
            op_instruction(op),
        ),
        SpecExpr::Call { name, args } => args_code(args, args.len()).push(
            call_instruction(name, args.len()),
        ),
    }
}

/// The code of the first `n` arguments of a call, left to right.
pub open spec fn args_code(args: Seq<SpecExpr>, n: nat) -> Seq<SpecInstruction>
    decreases args, n,
{
    if n == 0 || n > args.len() {
        Seq::empty()
    } else {
        args_code(args, (n - 1) as nat) + expr_code(args[n - 1])
    }
}

/// The number of instructions of a statement.
pub open spec fn stmt_len(s: SpecStmt) -> nat
    decreases s, 0nat,
{
    match s {
        SpecStmt::Let { name, value } => expr_code(value).len() + 1,
        SpecStmt::Assign { name, value } => expr_code(value).len() + 1,
        SpecStmt::ExprStmt(e) => expr_code(e).len() + 1,
        SpecStmt::Return(e) => expr_code(e).len() + 1,
        SpecStmt::If { condition, then_block, else_block } => expr_code(condition).len() + 1
            + block_len(then_block) + 1 + else_len(else_block),
        SpecStmt::While { condition, body } => expr_code(condition).len() + 1 + block_len(body)
            + 1,
        SpecStmt::Break => 1,
        SpecStmt::Continue => 1,
    }
}

/// The number of instructions of an optional else-block.
pub open spec fn else_len(b: Option<SpecBlock>) -> nat
    decreases b, 0nat,
{
    match b {
        Some(b) => block_len(b),
        None => 0,
    }
}

/// The number of instructions of a block: its statements between a
/// `scope-enter` and a `scope-exit`.
pub open spec fn block_len(b: SpecBlock) -> nat
    decreases b, b.len() + 1,
{
    stmts_len(b, b.len()) + 2
}

/// The number of instructions of the first `n` statements of a block.
pub open spec fn stmts_len(b: SpecBlock, n: nat) -> nat
    decreases b, n,
{
    if n == 0 || n > b.len() {
        0
    } else {
        stmts_len(b, (n - 1) as nat) + stmt_len(b[n - 1])
    }
}

/// The code of a statement that stands at address `at` inside the loop
/// with the targets `lp`. Outside any loop `lp` is not looked at, as long
/// as the statement holds no stray `break` or `continue`.
pub open spec fn stmt_code(s: SpecStmt, at: nat, lp: LoopTargets) -> Seq<SpecInstruction>
    decreases s, 0nat,
{
    match s {
        SpecStmt::Let { name, value } => expr_code(value).push(SpecInstruction::StoreVar(name)),
        SpecStmt::Assign { name, value } => expr_code(value).push(
            SpecInstruction::StoreVar(name),
        ),
        SpecStmt::ExprStmt(e) => expr_code(e).push(SpecInstruction::Pop),
        SpecStmt::Return(e) => expr_code(e).push(SpecInstruction::Return),
        SpecStmt::If { condition, then_block, else_block } => {
            let then_at = at + expr_code(condition).len() + 1;
            let else_at = then_at + block_len(then_block) + 1;
            let end = else_at + else_len(else_block);
            expr_code(condition).push(SpecInstruction::JumpIfFalse(else_at)) + block_code(
                then_block,
                then_at,
                lp,
            ).push(SpecInstruction::Jump(end)) + else_code(else_block, else_at, lp)
        },
        SpecStmt::While { condition, body } => {
            let body_at = at + expr_code(condition).len() + 1;
            let end = body_at + block_len(body) + 1;
            expr_code(condition).push(SpecInstruction::JumpIfFalse(end)) + block_code(
                body,
                body_at,
                LoopTargets { start: at, end },
            ).push(SpecInstruction::Jump(at))
        },
        SpecStmt::Break => seq![SpecInstruction::Jump(lp.end)],
        SpecStmt::Continue => seq![SpecInstruction::Jump(lp.start)],
    }
}

/// The code of an optional else-block at address `at`.
pub open spec fn else_code(b: Option<SpecBlock>, at: nat, lp: LoopTargets) -> Seq<
    SpecInstruction,
>
    decreases b, 0nat,
{
    match b {
        Some(b) => block_code(b, at, lp),
        None => Seq::empty(),
    }
}

/// The code of a block at address `at`.
pub open spec fn block_code(b: SpecBlock, at: nat, lp: LoopTargets) -> Seq<SpecInstruction>
    decreases b, b.len() + 1,
{
    (seq![SpecInstruction::EnterScope] + stmts_code(b, b.len(), at + 1, lp)).push(
        SpecInstruction::ExitScope,
    )
}

/// The code of the first `n` statements of a block, the first of them at
/// address `at`.
pub open spec fn stmts_code(b: SpecBlock, n: nat, at: nat, lp: LoopTargets) -> Seq<
    SpecInstruction,
>
    decreases b, n,
{
    if n == 0 || n > b.len() {
        Seq::empty()
    } else {
        stmts_code(b, (n - 1) as nat, at, lp) + stmt_code(
            b[n - 1],
            at + stmts_len(b, (n - 1) as nat),
            lp,
        )
    }
}

/// The first stray `break` or `continue` of a statement, if it has one.
/// `in_loop` says whether the statement stands inside a loop.
pub open spec fn stmt_fault(s: SpecStmt, in_loop: bool) -> Option<CompileError>
    decreases s, 0nat,
{
    match s {
        SpecStmt::If { condition, then_block, else_block } => match block_fault(
            then_block,
            in_loop,
        ) {
            Some(e) => Some(e),
            None => else_fault(else_block, in_loop),
        },
        SpecStmt::While { condition, body } => block_fault(body, true),
        SpecStmt::Break => if in_loop {
            None
        } else {
            Some(CompileError::BreakOutsideLoop)
        },
        SpecStmt::Continue => if in_loop {
            None
        } else {
            Some(CompileError::ContinueOutsideLoop)
        },
        _ => None,
    }
}

/// The first stray `break` or `continue` of an optional else-block.
pub open spec fn else_fault(b: Option<SpecBlock>, in_loop: bool) -> Option<CompileError>
    decreases b, 0nat,
{
    match b {
        Some(b) => block_fault(b, in_loop),
        None => None,
    }
}

/// The first stray `break` or `continue` of a block.
pub open spec fn block_fault(b: SpecBlock, in_loop: bool) -> Option<CompileError>
    decreases b, b.len() + 1,
{
    stmts_fault(b, b.len(), in_loop)
}

/// The first stray `break` or `continue` among the first `n` statements
/// of a block.
pub open spec fn stmts_fault(b: SpecBlock, n: nat, in_loop: bool) -> Option<CompileError>
    decreases b, n,
{
    if n == 0 || n > b.len() {
        None
    } else {
        match stmts_fault(b, (n - 1) as nat, in_loop) {
            Some(e) => Some(e),
            None => stmt_fault(b[n - 1], in_loop),
        }
    }
}

/// The addresses of the jumps that a statement at address `at` emits for
/// the `break`s, or for the `continue`s, of the enclosing loop, in the
/// order of emission.
pub open spec fn stmt_sites(s: SpecStmt, at: nat, exit: LoopExit) -> Seq<nat>
    decreases s, 0nat,
{
    match s {
        SpecStmt::If { condition, then_block, else_block } => {
            let then_at = at + expr_code(condition).len() + 1;
            let else_at = then_at + block_len(then_block) + 1;
            block_sites(then_block, then_at, exit) + else_sites(else_block, else_at, exit)
        },
        SpecStmt::Break => if exit == LoopExit::Break {
            seq![at]
        } else {
            Seq::empty()
        },
        SpecStmt::Continue => if exit == LoopExit::Continue {
            seq![at]
        } else {
            Seq::empty()
        },
        _ => Seq::empty(),
    }
}

/// The addresses of such jumps in an optional else-block.
pub open spec fn else_sites(b: Option<SpecBlock>, at: nat, exit: LoopExit) -> Seq<nat>
    decreases b, 0nat,
{
    match b {
        Some(b) => block_sites(b, at, exit),
        None => Seq::empty(),
    }
}

/// The addresses of such jumps in a block at address `at`.
pub open spec fn block_sites(b: SpecBlock, at: nat, exit: LoopExit) -> Seq<nat>
    decreases b, b.len() + 1,
{
    stmts_sites(b, b.len(), at + 1, exit)
}

/// The addresses of such jumps in the first `n` statements of a block.
pub open spec fn stmts_sites(b: SpecBlock, n: nat, at: nat, exit: LoopExit) -> Seq<nat>
    decreases b, n,
{
    if n == 0 || n > b.len() {
        Seq::empty()
    } else {
        stmts_sites(b, (n - 1) as nat, at, exit) + stmt_sites(
            b[n - 1],
            at + stmts_len(b, (n - 1) as nat),
            exit,
        )
    }
}

/// Whether the instruction at address `p` is the jump of a `break` or a
/// `continue` of a statement that stands at `at`, of whatever loop.
pub open spec fn stmt_exit_at(s: SpecStmt, at: nat, p: nat) -> bool
    decreases s, 0nat,
{
    match s {
        SpecStmt::If { condition, then_block, else_block } => {
            let then_at = at + expr_code(condition).len() + 1;
            let else_at = then_at + block_len(then_block) + 1;
            block_exit_at(then_block, then_at, p) || else_exit_at(else_block, else_at, p)
        },
        SpecStmt::While { condition, body } => block_exit_at(
            body,
            at + expr_code(condition).len() + 1,
            p,
        ),
        SpecStmt::Break => p == at,
        SpecStmt::Continue => p == at,
        _ => false,
    }
}

/// Whether the instruction at `p` is such a jump of an optional
/// else-block.
pub open spec fn else_exit_at(b: Option<SpecBlock>, at: nat, p: nat) -> bool
    decreases b, 0nat,
{
    match b {
        Some(b) => block_exit_at(b, at, p),
        None => false,
    }
}

/// Whether the instruction at `p` is such a jump of a block.
pub open spec fn block_exit_at(b: SpecBlock, at: nat, p: nat) -> bool
    decreases b, b.len() + 1,
{
    stmts_exit_at(b, b.len(), at + 1, p)
}

/// Whether the instruction at `p` is such a jump of the first `n`
/// statements of a block.
pub open spec fn stmts_exit_at(b: SpecBlock, n: nat, at: nat, p: nat) -> bool
    decreases b, n,
{
    if n == 0 || n > b.len() {
        false
    } else {
        stmts_exit_at(b, (n - 1) as nat, at, p) || stmt_exit_at(
            b[n - 1],
            at + stmts_len(b, (n - 1) as nat),
            p,
        )
    }
}

/// Whether the instruction at `p` is such a jump of the first `n`
/// functions.
pub open spec fn functions_exit_at(fs: Seq<SpecFunctionDecl>, n: nat, p: nat) -> bool
    decreases n,
{
    if n == 0 || n > fs.len() {
        false
    } else {
        functions_exit_at(fs, (n - 1) as nat, p) || block_exit_at(
            fs[n - 1].body,
            functions_len(fs, (n - 1) as nat) + fs[n - 1].params.len(),
            p,
        )
    }
}

/// Whether the instruction at `p` of a compiled program is the jump of a
/// `break` or a `continue`.
pub open spec fn exit_at(p: SpecSource, address: nat) -> bool {
    functions_exit_at(p.functions, p.functions.len(), address)
}

/// The prologue of a function: one `store-var` for each parameter, the
/// last parameter first, since the caller pushed the arguments left to
/// right.
pub open spec fn params_code(params: Seq<Seq<char>>) -> Seq<SpecInstruction> {
    Seq::new(params.len(), |i: int| SpecInstruction::StoreVar(params[params.len() - 1 - i]))
}

/// The number of instructions of a function.
pub open spec fn function_len(f: SpecFunctionDecl) -> nat {
    f.params.len() + block_len(f.body) + 2
}

/// The code of a function whose entry is address `at`: the prologue, the
/// body, and a `push-void` and `return` for a body that ends without
/// returning.
pub open spec fn function_code(f: SpecFunctionDecl, at: nat) -> Seq<SpecInstruction> {
    (params_code(f.params) + block_code(
        f.body,
        at + f.params.len(),
        LoopTargets { start: 0, end: 0 },
    )).push(SpecInstruction::PushVoid).push(SpecInstruction::Return)
}

/// The number of instructions of the first `n` functions.
pub open spec fn functions_len(fs: Seq<SpecFunctionDecl>, n: nat) -> nat
    decreases n,
{
    if n == 0 || n > fs.len() {
        0
    } else {
        functions_len(fs, (n - 1) as nat) + function_len(fs[n - 1])
    }
}

/// The code of the first `n` functions, one behind the other from
/// address 0.
pub open spec fn functions_code(fs: Seq<SpecFunctionDecl>, n: nat) -> Seq<SpecInstruction>
    decreases n,
{
    if n == 0 || n > fs.len() {
        Seq::empty()
    } else {
        functions_code(fs, (n - 1) as nat) + function_code(
            fs[n - 1],
            functions_len(fs, (n - 1) as nat),
        )
    }
}

/// The first stray `break` or `continue` among the first `n` functions.
pub open spec fn functions_fault(fs: Seq<SpecFunctionDecl>, n: nat) -> Option<CompileError>
    decreases n,
{
    if n == 0 || n > fs.len() {
        None
    } else {
        match functions_fault(fs, (n - 1) as nat) {
            Some(e) => Some(e),
            None => block_fault(fs[n - 1].body, false),
        }
    }
}

/// The table entry of the `i`-th function.
pub open spec fn table_entry(fs: Seq<SpecFunctionDecl>, i: int) -> SpecFunction {
    SpecFunction {
        name: fs[i].name,
        arity: fs[i].params.len(),
        entry: functions_len(fs, i as nat),
    }
}

/// The function table: one entry for each function, in program order.
pub open spec fn function_table(fs: Seq<SpecFunctionDecl>) -> Seq<SpecFunction> {
    Seq::new(fs.len(), |i: int| table_entry(fs, i))
}

/// What compiling a program yields: the functions' code in program
/// order with the table of their entries, or the first stray `break` or
/// `continue`.
pub open spec fn compile(p: SpecSource) -> Result<SpecProgram, CompileError> {
    match functions_fault(p.functions, p.functions.len()) {
        Some(e) => Err(e),
        None => Ok(
            SpecProgram {
                functions: function_table(p.functions),
                code: functions_code(p.functions, p.functions.len()),
            },
        ),
    }
}

/// The code of a statement has the statement's length, wherever it
/// stands.
pub proof fn lemma_stmt_code_len(s: SpecStmt, at: nat, lp: LoopTargets)
    ensures
        stmt_code(s, at, lp).len() == stmt_len(s),
    decreases s, 0nat,
{
    match s {
        SpecStmt::If { condition, then_block, else_block } => {
            let then_at = at + expr_code(condition).len() + 1;
            let else_at = then_at + block_len(then_block) + 1;
            lemma_block_code_len(then_block, then_at, lp);
            lemma_else_code_len(else_block, else_at, lp);
        },
        SpecStmt::While { condition, body } => {
            let body_at = at + expr_code(condition).len() + 1;
            let end = body_at + block_len(body) + 1;
            lemma_block_code_len(body, body_at, LoopTargets { start: at, end });
        },
        _ => {},
    }
}

/// The code of an optional else-block has the block's length.
pub proof fn lemma_else_code_len(b: Option<SpecBlock>, at: nat, lp: LoopTargets)
    ensures
        else_code(b, at, lp).len() == else_len(b),
    decreases b, 0nat,
{
    match b {
        Some(b) => lemma_block_code_len(b, at, lp),
        None => {},
    }
}

/// The code of a block has the block's length.
pub proof fn lemma_block_code_len(b: SpecBlock, at: nat, lp: LoopTargets)
    ensures
        block_code(b, at, lp).len() == block_len(b),
    decreases b, b.len() + 1,
{
    lemma_stmts_code_len(b, b.len(), at + 1, lp);
}

/// The code of the first `n` statements has their length.
pub proof fn lemma_stmts_code_len(b: SpecBlock, n: nat, at: nat, lp: LoopTargets)
    ensures
        stmts_code(b, n, at, lp).len() == stmts_len(b, n),
    decreases b, n,
{
    if n == 0 || n > b.len() {
    } else {
        lemma_stmts_code_len(b, (n - 1) as nat, at, lp);
        lemma_stmt_code_len(b[n - 1], at + stmts_len(b, (n - 1) as nat), lp);
    }
}

/// `code`, which stands at address `at`, after each jump at an address in
/// `sites` was pointed to `end`.
pub open spec fn patched(code: Seq<SpecInstruction>, at: nat, sites: Seq<nat>, end: nat) -> Seq<
    SpecInstruction,
> {
    Seq::new(
        code.len(),
        |i: int|
            if sites.contains((at + i) as nat) {
                SpecInstruction::Jump(end)
            } else {
                code[i]
            },
    )
}

/// Whether every address in `sites` lies in `lo..hi`.
pub open spec fn sites_within(sites: Seq<nat>, lo: nat, hi: nat) -> bool {
    forall|k: int| 0 <= k < sites.len() ==> lo <= #[trigger] sites[k] < hi
}

/// Patching two pieces of code that stand one behind the other, each with
/// its own sites, is patching each of them.
pub proof fn lemma_patched_concat(
    a: Seq<SpecInstruction>,
    b: Seq<SpecInstruction>,
    at: nat,
    sa: Seq<nat>,
    sb: Seq<nat>,
    end: nat,
)
    requires
        sites_within(sa, at, at + a.len()),
        sites_within(sb, at + a.len(), at + a.len() + b.len()),
    ensures
        patched(a + b, at, sa + sb, end) == patched(a, at, sa, end) + patched(
            b,
            at + a.len(),
            sb,
            end,
        ),
        sites_within(sa + sb, at, at + a.len() + b.len()),
{
    let whole = patched(a + b, at, sa + sb, end);
    let parts = patched(a, at, sa, end) + patched(b, at + a.len(), sb, end);
    assert forall|i: int| 0 <= i < whole.len() implies whole[i] == parts[i] by {
        let p = (at + i) as nat;
        if (sa + sb).contains(p) {
            let k = choose|k: int| 0 <= k < (sa + sb).len() && (sa + sb)[k] == p;
            if k < sa.len() {
                assert(sa[k] == p);
            } else {
                assert(sb[k - sa.len()] == p);
            }
        }
        if i < a.len() {
            if sa.contains(p) {
                let k = choose|k: int| 0 <= k < sa.len() && sa[k] == p;
                assert((sa + sb)[k] == p);
            }
        } else {
            if sb.contains(p) {
                let k = choose|k: int| 0 <= k < sb.len() && sb[k] == p;
                assert((sa + sb)[k + sa.len()] == p);
            }
        }
    }
    assert(whole =~= parts);
}

/// Code without sites is left as it is.
pub proof fn lemma_patched_none(a: Seq<SpecInstruction>, at: nat, end: nat)
    ensures
        patched(a, at, Seq::empty(), end) == a,
{
    assert(patched(a, at, Seq::empty(), end) =~= a);
}

/// Pointing the jumps of a statement for one kind of loop exit to
/// `target` gives the code of the statement in a loop with that target.
pub proof fn lemma_patch_stmt(s: SpecStmt, at: nat, lp: LoopTargets, exit: LoopExit, target: nat)
    ensures
        patched(stmt_code(s, at, lp), at, stmt_sites(s, at, exit), target) == stmt_code(
            s,
            at,
            lp.with(exit, target),
        ),
        sites_within(stmt_sites(s, at, exit), at, at + stmt_len(s)),
    decreases s, 0nat,
{
    let lp1 = lp.with(exit, target);
    match s {
        SpecStmt::If { condition, then_block, else_block } => {
            let then_at = at + expr_code(condition).len() + 1;
            let else_at = then_at + block_len(then_block) + 1;
            let end_if = else_at + else_len(else_block);
            let a1 = expr_code(condition).push(SpecInstruction::JumpIfFalse(else_at));
            let t0 = block_code(then_block, then_at, lp);
            let t1 = block_code(then_block, then_at, lp1);
            let e0 = else_code(else_block, else_at, lp);
            let st = block_sites(then_block, then_at, exit);
            let se = else_sites(else_block, else_at, exit);
            let none = Seq::<nat>::empty();
            lemma_patch_block(then_block, then_at, lp, exit, target);
            lemma_patch_else(else_block, else_at, lp, exit, target);
            lemma_block_code_len(then_block, then_at, lp);
            lemma_else_code_len(else_block, else_at, lp);
            lemma_patched_none(a1, at, target);
            assert(patched(t0.push(SpecInstruction::Jump(end_if)), then_at, st, target)
                =~= t1.push(SpecInstruction::Jump(end_if)));
            lemma_patched_concat(
                a1,
                t0.push(SpecInstruction::Jump(end_if)),
                at,
                none,
                st,
                target,
            );
            lemma_patched_concat(
                a1 + t0.push(SpecInstruction::Jump(end_if)),
                e0,
                at,
                none + st,
                se,
                target,
            );
            assert(none + st =~= st);
        },
        SpecStmt::While { condition, body } => {
            lemma_patched_none(stmt_code(s, at, lp), at, target);
        },
        SpecStmt::Break => {
            if exit == LoopExit::Break {
                assert(seq![at][0] == at);
                assert(patched(stmt_code(s, at, lp), at, stmt_sites(s, at, exit), target)
                    =~= stmt_code(s, at, lp1));
            } else {
                lemma_patched_none(stmt_code(s, at, lp), at, target);
            }
        },
        SpecStmt::Continue => {
            if exit == LoopExit::Continue {
                assert(seq![at][0] == at);
                assert(patched(stmt_code(s, at, lp), at, stmt_sites(s, at, exit), target)
                    =~= stmt_code(s, at, lp1));
            } else {
                lemma_patched_none(stmt_code(s, at, lp), at, target);
            }
        },
        _ => {
            lemma_patched_none(stmt_code(s, at, lp), at, target);
        },
    }
}

/// Pointing the jumps of an optional else-block for one kind of loop
/// exit to `target`.
pub proof fn lemma_patch_else(
    b: Option<SpecBlock>,
    at: nat,
    lp: LoopTargets,
    exit: LoopExit,
    target: nat,
)
    ensures
        patched(else_code(b, at, lp), at, else_sites(b, at, exit), target) == else_code(
            b,
            at,
            lp.with(exit, target),
        ),
        sites_within(else_sites(b, at, exit), at, at + else_len(b)),
    decreases b, 0nat,
{
    match b {
        Some(b) => lemma_patch_block(b, at, lp, exit, target),
        None => lemma_patched_none(Seq::empty(), at, target),
    }
}

/// Pointing the jumps of a block for one kind of loop exit to `target`
/// gives the code of the block in a loop with that target.
pub proof fn lemma_patch_block(
    b: SpecBlock,
    at: nat,
    lp: LoopTargets,
    exit: LoopExit,
    target: nat,
)
    ensures
        patched(block_code(b, at, lp), at, block_sites(b, at, exit), target) == block_code(
            b,
            at,
            lp.with(exit, target),
        ),
        sites_within(block_sites(b, at, exit), at, at + block_len(b)),
    decreases b, b.len() + 1,
{
    let lp1 = lp.with(exit, target);
    let enter = seq![SpecInstruction::EnterScope];
    let leave = seq![SpecInstruction::ExitScope];
    let s0 = stmts_code(b, b.len(), at + 1, lp);
    let s1 = stmts_code(b, b.len(), at + 1, lp1);
    let sites = block_sites(b, at, exit);
    let none = Seq::<nat>::empty();
    lemma_patch_stmts(b, b.len(), at + 1, lp, exit, target);
    lemma_stmts_code_len(b, b.len(), at + 1, lp);
    lemma_patched_none(enter, at, target);
    lemma_patched_none(leave, at + 1 + s0.len(), target);
    lemma_patched_concat(enter, s0, at, none, sites, target);
    lemma_patched_concat(enter + s0, leave, at, none + sites, none, target);
    assert(none + sites =~= sites);
    assert(sites + none =~= sites);
    assert(block_code(b, at, lp) =~= (enter + s0) + leave);
    assert(block_code(b, at, lp1) =~= (enter + s1) + leave);
}

/// Pointing the jumps of the first `n` statements for one kind of loop
/// exit to `target`.
pub proof fn lemma_patch_stmts(
    b: SpecBlock,
    n: nat,
    at: nat,
    lp: LoopTargets,
    exit: LoopExit,
    target: nat,
)
    ensures
        patched(stmts_code(b, n, at, lp), at, stmts_sites(b, n, at, exit), target) == stmts_code(
            b,
            n,
            at,
            lp.with(exit, target),
        ),
        sites_within(stmts_sites(b, n, at, exit), at, at + stmts_len(b, n)),
    decreases b, n,
{
    if n == 0 || n > b.len() {
        lemma_patched_none(Seq::empty(), at, target);
    } else {
        let m = (n - 1) as nat;
        let next = at + stmts_len(b, m);
        lemma_patch_stmts(b, m, at, lp, exit, target);
        lemma_patch_stmt(b[n - 1], next, lp, exit, target);
        lemma_stmts_code_len(b, m, at, lp);
        lemma_stmt_code_len(b[n - 1], next, lp);
        lemma_patched_concat(
            stmts_code(b, m, at, lp),
            stmt_code(b[n - 1], next, lp),
            at,
            stmts_sites(b, m, at, exit),
            stmt_sites(b[n - 1], next, exit),
            target,
        );
    }
}

/// Pointing one more site to `end` overwrites the instruction there.
pub proof fn lemma_patched_next(code: Seq<SpecInstruction>, sites: Seq<nat>, k: int, end: nat)
    requires
        0 <= k < sites.len(),
        sites[k] < code.len(),
    ensures
        patched(code, 0, sites.take(k + 1), end) == patched(code, 0, sites.take(k), end).update(
            sites[k] as int,
            SpecInstruction::Jump(end),
        ),
{
    let more = sites.take(k + 1);
    let less = sites.take(k);
    let lhs = patched(code, 0, more, end);
    let rhs = patched(code, 0, less, end).update(sites[k] as int, SpecInstruction::Jump(end));
    assert forall|i: int| 0 <= i < code.len() implies lhs[i] == rhs[i] by {
        let p = i as nat;
        if more.contains(p) {
            let j = choose|j: int| 0 <= j < more.len() && more[j] == p;
            if j < k {
                assert(less[j] == p);
            }
        }
        if less.contains(p) {
            let j = choose|j: int| 0 <= j < less.len() && less[j] == p;
            assert(more[j] == p);
        }
        if p == sites[k] {
            assert(more[k] == p);
        }
    }
    assert(lhs =~= rhs);
}

/// A fault among the first `n` statements is the fault of the block.
pub proof fn lemma_stmts_fault_stable(b: SpecBlock, n: nat, in_loop: bool)
    requires
        n <= b.len(),
        stmts_fault(b, n, in_loop) is Some,
    ensures
        block_fault(b, in_loop) == stmts_fault(b, n, in_loop),
    decreases b.len() - n,
{
    if n < b.len() {
        lemma_stmts_fault_stable(b, n + 1, in_loop);
    }
}

/// Statements without fault have no fault among their first `n`.
pub proof fn lemma_stmts_fault_prefix(b: SpecBlock, n: nat, m: nat, in_loop: bool)
    requires
        n <= m <= b.len(),
        stmts_fault(b, m, in_loop) is None,
    ensures
        stmts_fault(b, n, in_loop) is None,
    decreases m,
{
    if n < m {
        lemma_stmts_fault_prefix(b, n, (m - 1) as nat, in_loop);
    }
}

/// Functions without fault have no fault among their first `n`.
pub proof fn lemma_functions_fault_prefix(fs: Seq<SpecFunctionDecl>, n: nat, m: nat)
    requires
        n <= m <= fs.len(),
        functions_fault(fs, m) is None,
    ensures
        functions_fault(fs, n) is None,
    decreases m,
{
    if n < m {
        lemma_functions_fault_prefix(fs, n, (m - 1) as nat);
    }
}

/// A fault among the first `n` functions is the fault of the program.
pub proof fn lemma_functions_fault_stable(fs: Seq<SpecFunctionDecl>, n: nat)
    requires
        n <= fs.len(),
        functions_fault(fs, n) is Some,
    ensures
        functions_fault(fs, fs.len()) == functions_fault(fs, n),
    decreases fs.len() - n,
{
    if n < fs.len() {
        lemma_functions_fault_stable(fs, n + 1);
    }
}

/// Determinism: compiling a program twice yields the same instruction
/// sequence and the same function table. `first` and `second` stand for
/// the outcomes of two compilations of `p`.
pub proof fn lemma_compile_deterministic(
    p: SpecSource,
    first: Result<SpecProgram, CompileError>,
    second: Result<SpecProgram, CompileError>,
)
    requires
        first == compile(p),
        second == compile(p),
    ensures
        first == second,
        first matches Ok(a) ==> second matches Ok(b) && a.code == b.code && a.functions
            == b.functions,
{
}

} // verus!
