//! Scope balance: the scope instructions of compiled code nest, and a
//! block leaves the scope stack of its frame as deep as it found it.

use super::bytecode::{find_function, SpecFunction, SpecInstruction};

use super::vm::load;
use super::jumps::lemma_expr_jumps;
use super::lowering::{
    args_code, block_code, block_fault, block_len, call_instruction, compile, else_code, else_len,
    expr_code, function_code, functions_code, functions_fault, functions_len, lemma_block_code_len,
    lemma_else_code_len, lemma_stmts_code_len, block_exit_at, exit_at, functions_exit_at,
    op_instruction, params_code, stmt_code, stmt_exit_at, stmt_fault, stmts_code, stmts_exit_at,
    stmts_fault, stmts_len, LoopTargets,
};
use super::model::{lemma_steps_split, steps, SpecVm};
use crate::ast::{SpecBlock, SpecExpr, SpecFunctionDecl, SpecProgram as SpecSource, SpecStmt};
use vstd::prelude::*;

verus! {

/// What an instruction does to the depth of scope nesting: `scope-enter`
/// adds one, `scope-exit` takes one off, nothing else changes it.
pub open spec fn scope_effect(i: SpecInstruction) -> int {
    match i {
        SpecInstruction::EnterScope => 1,
        SpecInstruction::ExitScope => -1,
        _ => 0,
    }
}

/// The effect of the instruction at address `i`; nothing behind the
/// code.
pub open spec fn effect_at(code: Seq<SpecInstruction>, i: nat) -> int {
    if i < code.len() {
        scope_effect(code[i as int])
    } else {
        0
    }
}

/// The static depth of scope nesting at address `pc`: how many more
/// `scope-enter` than `scope-exit` stand before it.
pub open spec fn depth_at(code: Seq<SpecInstruction>, pc: nat) -> int
    decreases pc,
{
    if pc == 0 {
        0
    } else {
        depth_at(code, (pc - 1) as nat) + effect_at(code, (pc - 1) as nat)
    }
}

/// The depth behind the whole code.
pub open spec fn net(code: Seq<SpecInstruction>) -> int {
    depth_at(code, code.len())
}

/// Whether the scope instructions of `code` nest: no `scope-exit`
/// without a `scope-enter` before it.
pub open spec fn nests(code: Seq<SpecInstruction>) -> bool {
    forall|pc: nat| #[trigger] depth_at(code, pc) >= 0
}

/// Whether `code` nests and closes every scope it opens.
pub open spec fn balanced(code: Seq<SpecInstruction>) -> bool {
    nests(code) && net(code) == 0
}

/// Behind the code the depth stays what it is at its end.
pub proof fn lemma_depth_beyond(code: Seq<SpecInstruction>, pc: nat)
    requires
        pc >= code.len(),
    ensures
        depth_at(code, pc) == net(code),
    decreases pc,
{
    if pc > code.len() {
        lemma_depth_beyond(code, (pc - 1) as nat);
    }
}

/// Inside the first of two pieces of code the depth is that of the first
/// piece alone.
pub proof fn lemma_depth_prefix(a: Seq<SpecInstruction>, b: Seq<SpecInstruction>, pc: nat)
    requires
        pc <= a.len(),
    ensures
        depth_at(a + b, pc) == depth_at(a, pc),
    decreases pc,
{
    if pc > 0 {
        lemma_depth_prefix(a, b, (pc - 1) as nat);
        assert((a + b)[pc - 1] == a[pc - 1]);
    }
}

/// Inside the second of two pieces of code the depth is that of the
/// second piece on top of what the first piece leaves.
pub proof fn lemma_depth_suffix(a: Seq<SpecInstruction>, b: Seq<SpecInstruction>, j: nat)
    ensures
        depth_at(a + b, a.len() + j) == net(a) + depth_at(b, j),
    decreases j,
{
    if j == 0 {
        lemma_depth_prefix(a, b, a.len());
    } else {
        lemma_depth_suffix(a, b, (j - 1) as nat);
        if j - 1 < b.len() {
            assert((a + b)[a.len() + j - 1] == b[j - 1]);
        }
    }
}

/// Two pieces of code that nest, one behind the other, nest, and their
/// net depths add up.
pub proof fn lemma_nests_concat(a: Seq<SpecInstruction>, b: Seq<SpecInstruction>)
    requires
        nests(a),
        forall|j: nat| net(a) + #[trigger] depth_at(b, j) >= 0,
    ensures
        nests(a + b),
        net(a + b) == net(a) + net(b),
{
    lemma_depth_suffix(a, b, b.len());
    assert forall|pc: nat| #[trigger] depth_at(a + b, pc) >= 0 by {
        if pc <= a.len() {
            lemma_depth_prefix(a, b, pc);
        } else {
            lemma_depth_suffix(a, b, (pc - a.len()) as nat);
        }
    }
}

/// Two balanced pieces of code, one behind the other, are balanced.
pub proof fn lemma_balanced_concat(a: Seq<SpecInstruction>, b: Seq<SpecInstruction>)
    requires
        balanced(a),
        balanced(b),
    ensures
        balanced(a + b),
{
    lemma_nests_concat(a, b);
}

/// Balanced code with an instruction behind it that is no scope
/// instruction is balanced.
pub proof fn lemma_balanced_push(a: Seq<SpecInstruction>, x: SpecInstruction)
    requires
        balanced(a),
        scope_effect(x) == 0,
    ensures
        balanced(a.push(x)),
{
    lemma_single_balanced(x);
    lemma_balanced_concat(a, seq![x]);
    assert(a.push(x) =~= a + seq![x]);
}

/// One instruction that is no scope instruction is balanced code.
pub proof fn lemma_single_balanced(x: SpecInstruction)
    requires
        scope_effect(x) == 0,
    ensures
        balanced(seq![x]),
{
    let code = seq![x];
    assert(depth_at(code, 1) == depth_at(code, 0) + effect_at(code, 0));
    assert forall|pc: nat| #[trigger] depth_at(code, pc) >= 0 by {
        if pc >= 1 {
            lemma_depth_beyond(code, pc);
        }
    }
}

/// No code at all is balanced.
pub proof fn lemma_empty_balanced()
    ensures
        balanced(Seq::<SpecInstruction>::empty()),
{
    let code = Seq::<SpecInstruction>::empty();
    assert forall|pc: nat| #[trigger] depth_at(code, pc) >= 0 by {
        lemma_depth_beyond(code, pc);
    }
}

/// The code of an expression is balanced: it holds no scope instruction.
pub proof fn lemma_expr_balanced(e: SpecExpr)
    ensures
        balanced(expr_code(e)),
    decreases e, 0nat,
{
    match e {
        SpecExpr::IntLiteral(v) => lemma_single_balanced(SpecInstruction::PushInt(v)),
        SpecExpr::StringLiteral(s) => lemma_single_balanced(SpecInstruction::PushString(s)),
        SpecExpr::VarRef(name) => lemma_single_balanced(SpecInstruction::LoadVar(name)),
        SpecExpr::Binary { left, op, right } => {
            lemma_expr_balanced(*left);
            lemma_expr_balanced(*right);
            lemma_balanced_concat(expr_code(*left), expr_code(*right));
            lemma_balanced_push(expr_code(*left) + expr_code(*right), op_instruction(op));
        },
        SpecExpr::Call { name, args } => {
            lemma_args_balanced(args, args.len());
            lemma_balanced_push(
                args_code(args, args.len()),
                call_instruction(name, args.len()),
            );
        },
    }
}

/// The code of the arguments of a call is balanced.
pub proof fn lemma_args_balanced(args: Seq<SpecExpr>, n: nat)
    ensures
        balanced(args_code(args, n)),
    decreases args, n,
{
    if n == 0 || n > args.len() {
        lemma_empty_balanced();
    } else {
        lemma_args_balanced(args, (n - 1) as nat);
        lemma_expr_balanced(args[n - 1]);
        lemma_balanced_concat(args_code(args, (n - 1) as nat), expr_code(args[n - 1]));
    }
}

/// The code of a statement is balanced.
pub proof fn lemma_stmt_balanced(s: SpecStmt, at: nat, lp: LoopTargets)
    ensures
        balanced(stmt_code(s, at, lp)),
    decreases s, 0nat,
{
    match s {
        SpecStmt::Let { name, value } => {
            lemma_expr_balanced(value);
            lemma_balanced_push(expr_code(value), SpecInstruction::StoreVar(name));
        },
        SpecStmt::Assign { name, value } => {
            lemma_expr_balanced(value);
            lemma_balanced_push(expr_code(value), SpecInstruction::StoreVar(name));
        },
        SpecStmt::ExprStmt(e) => {
            lemma_expr_balanced(e);
            lemma_balanced_push(expr_code(e), SpecInstruction::Pop);
        },
        SpecStmt::Return(e) => {
            lemma_expr_balanced(e);
            lemma_balanced_push(expr_code(e), SpecInstruction::Return);
        },
        SpecStmt::If { condition, then_block, else_block } => {
            let then_at = at + expr_code(condition).len() + 1;
            let else_at = then_at + block_len(then_block) + 1;
            let end = else_at + super::lowering::else_len(else_block);
            let head = expr_code(condition).push(SpecInstruction::JumpIfFalse(else_at));
            let middle = block_code(then_block, then_at, lp).push(SpecInstruction::Jump(end));
            let tail = else_code(else_block, else_at, lp);
            lemma_expr_balanced(condition);
            lemma_balanced_push(expr_code(condition), SpecInstruction::JumpIfFalse(else_at));
            lemma_block_balanced(then_block, then_at, lp);
            lemma_balanced_push(block_code(then_block, then_at, lp), SpecInstruction::Jump(end));
            match else_block {
                Some(b) => lemma_block_balanced(b, else_at, lp),
                None => lemma_empty_balanced(),
            }
            lemma_balanced_concat(head, middle);
            lemma_balanced_concat(head + middle, tail);
        },
        SpecStmt::While { condition, body } => {
            let body_at = at + expr_code(condition).len() + 1;
            let end = body_at + block_len(body) + 1;
            let inner = LoopTargets { start: at, end };
            let head = expr_code(condition).push(SpecInstruction::JumpIfFalse(end));
            lemma_expr_balanced(condition);
            lemma_balanced_push(expr_code(condition), SpecInstruction::JumpIfFalse(end));
            lemma_block_balanced(body, body_at, inner);
            lemma_balanced_push(block_code(body, body_at, inner), SpecInstruction::Jump(at));
            lemma_balanced_concat(
                head,
                block_code(body, body_at, inner).push(SpecInstruction::Jump(at)),
            );
        },
        SpecStmt::Break => lemma_single_balanced(SpecInstruction::Jump(lp.end)),
        SpecStmt::Continue => lemma_single_balanced(SpecInstruction::Jump(lp.start)),
    }
}

/// The code of a block is balanced: its `scope-exit` closes the scope
/// that its `scope-enter` opens, and between them the statements close
/// what they open.
pub proof fn lemma_block_balanced(b: SpecBlock, at: nat, lp: LoopTargets)
    ensures
        balanced(block_code(b, at, lp)),
    decreases b, b.len() + 1,
{
    let enter = seq![SpecInstruction::EnterScope];
    let leave = seq![SpecInstruction::ExitScope];
    let inner = stmts_code(b, b.len(), at + 1, lp);
    lemma_stmts_balanced(b, b.len(), at + 1, lp);
    assert(depth_at(enter, 1) == depth_at(enter, 0) + effect_at(enter, 0));
    assert(depth_at(leave, 1) == depth_at(leave, 0) + effect_at(leave, 0));
    assert forall|pc: nat| #[trigger] depth_at(enter, pc) >= 0 by {
        if pc >= 1 {
            lemma_depth_beyond(enter, pc);
        }
    }
    lemma_nests_concat(enter, inner);
    assert forall|j: nat| net(enter + inner) + #[trigger] depth_at(leave, j) >= 0 by {
        if j >= 1 {
            lemma_depth_beyond(leave, j);
        }
    }
    lemma_nests_concat(enter + inner, leave);
    assert(block_code(b, at, lp) =~= (enter + inner) + leave);
}

/// The code of the first `n` statements of a block is balanced.
pub proof fn lemma_stmts_balanced(b: SpecBlock, n: nat, at: nat, lp: LoopTargets)
    ensures
        balanced(stmts_code(b, n, at, lp)),
    decreases b, n,
{
    if n == 0 || n > b.len() {
        lemma_empty_balanced();
    } else {
        let m = (n - 1) as nat;
        lemma_stmts_balanced(b, m, at, lp);
        lemma_stmt_balanced(b[n - 1], at + super::lowering::stmts_len(b, m), lp);
        lemma_balanced_concat(
            stmts_code(b, m, at, lp),
            stmt_code(b[n - 1], at + super::lowering::stmts_len(b, m), lp),
        );
    }
}

/// The code of a function is balanced.
pub proof fn lemma_function_balanced(f: SpecFunctionDecl, at: nat)
    ensures
        balanced(function_code(f, at)),
{
    let lp = LoopTargets { start: 0, end: 0 };
    let prologue = params_code(f.params);
    let body = block_code(f.body, at + f.params.len(), lp);
    lemma_params_balanced(f.params, f.params.len());
    assert(prologue.take(f.params.len() as int) == prologue);
    lemma_block_balanced(f.body, at + f.params.len(), lp);
    lemma_balanced_concat(prologue, body);
    lemma_balanced_push(prologue + body, SpecInstruction::PushVoid);
    lemma_balanced_push((prologue + body).push(SpecInstruction::PushVoid), SpecInstruction::Return);
}

/// The first `n` instructions of a function's prologue are balanced.
pub proof fn lemma_params_balanced(params: Seq<Seq<char>>, n: nat)
    requires
        n <= params.len(),
    ensures
        balanced(params_code(params).take(n as int)),
    decreases n,
{
    let code = params_code(params);
    if n == 0 {
        lemma_empty_balanced();
        assert(code.take(0) =~= Seq::<SpecInstruction>::empty());
    } else {
        lemma_params_balanced(params, (n - 1) as nat);
        lemma_balanced_push(code.take(n - 1), code[n - 1]);
        assert(code.take(n as int) =~= code.take(n - 1).push(code[n - 1]));
    }
}

/// The code of the first `n` functions is balanced.
pub proof fn lemma_functions_balanced(fs: Seq<SpecFunctionDecl>, n: nat)
    ensures
        balanced(functions_code(fs, n)),
    decreases n,
{
    if n == 0 || n > fs.len() {
        lemma_empty_balanced();
    } else {
        lemma_functions_balanced(fs, (n - 1) as nat);
        lemma_function_balanced(fs[n - 1], super::lowering::functions_len(fs, (n - 1) as nat));
        lemma_balanced_concat(
            functions_code(fs, (n - 1) as nat),
            function_code(fs[n - 1], super::lowering::functions_len(fs, (n - 1) as nat)),
        );
    }
}

/// The scope instructions of a compiled program are balanced, in the
/// program as the compiler leaves it and in the program as the machine
/// loads it, with the call of `main` and the `halt` behind it.
pub proof fn lemma_compiled_balanced(p: SpecSource)
    requires
        compile(p) is Ok,
    ensures
        balanced(compile(p)->Ok_0.code),
        balanced(
            compile(p)->Ok_0.code.push(SpecInstruction::Call("main"@, 0)).push(
                SpecInstruction::Halt,
            ),
        ),
{
    let code = compile(p)->Ok_0.code;
    lemma_functions_balanced(p.functions, p.functions.len());
    lemma_balanced_push(code, SpecInstruction::Call("main"@, 0));
    lemma_balanced_push(code.push(SpecInstruction::Call("main"@, 0)), SpecInstruction::Halt);
}

/// Across a piece of balanced code that stands in `code` at `at`, the
/// static depth is the same before and behind.
pub proof fn lemma_depth_across(code: Seq<SpecInstruction>, at: nat, piece: Seq<SpecInstruction>)
    requires
        at + piece.len() <= code.len(),
        code.subrange(at as int, (at + piece.len()) as int) == piece,
        net(piece) == 0,
    ensures
        depth_at(code, at + piece.len()) == depth_at(code, at),
{
    let front = code.subrange(0, at as int);
    let rest = code.subrange((at + piece.len()) as int, code.len() as int);
    assert(code =~= (front + piece) + rest);
    lemma_depth_prefix(front + piece, rest, at + piece.len());
    lemma_depth_prefix(front + piece, rest, at);
    lemma_depth_suffix(front, piece, piece.len());
    lemma_depth_prefix(front, piece, at);
}

/// Whether the instruction at `ip` is a jump to an address of another
/// static depth. In compiled code these are the jumps of `break` and
/// `continue`, which leave the blocks of a loop body without passing
/// their `scope-exit`.
pub open spec fn changes_depth(code: Seq<SpecInstruction>, ip: nat) -> bool {
    ip < code.len() && (code[ip as int].jump_target() matches Some(t) && depth_at(code, t)
        != depth_at(code, ip))
}

/// Where the frame number `level`, counted from 1 at the bottom, would
/// go on: at the program counter if it is the active frame, else where
/// the call that it has made returns to.
pub open spec fn resume_at(u: SpecVm, level: nat) -> nat
    recommends
        1 <= level <= u.frames.len(),
{
    if u.frames.len() == level {
        u.ip
    } else {
        u.frames[level as int].return_ip
    }
}

/// Whether frame number `level` of `u` holds `extra` more scopes than
/// the static depth of the address where it goes on.
pub open spec fn tracks(u: SpecVm, code: Seq<SpecInstruction>, level: nat, extra: int) -> bool {
    &&& u.code == code
    &&& u.frames.len() >= level
    &&& u.frames[level - 1].scopes.len() == extra + depth_at(code, resume_at(u, level))
}

/// Whether the run has reached a state in which frame number `level` is
/// open and, if it is the active one, is not about to execute a jump
/// that changes the static depth.
pub open spec fn keeps_depth(u: Option<SpecVm>, code: Seq<SpecInstruction>, level: nat) -> bool {
    match u {
        Some(u) => u.frames.len() >= level && (u.frames.len() == level ==> !changes_depth(
            code,
            u.ip,
        )),
        None => false,
    }
}

/// One step keeps a frame in step with the static depth, as long as the
/// frame stays open and does not itself execute a jump that changes the
/// depth.
pub proof fn lemma_step_tracks(
    u: SpecVm,
    code: Seq<SpecInstruction>,
    level: nat,
    extra: int,
)
    requires
        level >= 1,
        extra >= 1,
        nests(code),
        tracks(u, code, level, extra),
        u.step() is Ok,
        u.step()->Ok_0.0.frames.len() >= level,
        u.frames.len() == level ==> !changes_depth(code, u.ip),
    ensures
        tracks(u.step()->Ok_0.0, code, level, extra),
{
    let v = u.step()->Ok_0.0;
    let top = u.frames.len() - 1;
    let instruction = u.fetch()->Some_0;
    assert(depth_at(code, u.ip + 1) == depth_at(code, u.ip) + effect_at(code, u.ip));
    assert(depth_at(code, u.ip) >= 0);
    if u.frames.len() == level {
        match instruction {
            SpecInstruction::EnterScope => {},
            SpecInstruction::ExitScope => {},
            SpecInstruction::StoreVar(name) => {},
            SpecInstruction::LoadVar(name) => {},
            SpecInstruction::Call(name, argc) => {
                if name != "print"@ {
                    assert(v.frames[level - 1] == u.frames[level - 1]);
                }
            },
            SpecInstruction::Return => {},
            SpecInstruction::Jump(target) => {},
            SpecInstruction::JumpIfFalse(target) => {},
            _ => {},
        }
    } else {
        match instruction {
            SpecInstruction::EnterScope => {},
            SpecInstruction::ExitScope => {},
            SpecInstruction::StoreVar(name) => {},
            SpecInstruction::Call(name, argc) => {
                if name != "print"@ {
                    assert(v.frames[level - 1] == u.frames[level - 1]);
                    assert(v.frames[level as int] == u.frames[level as int]);
                }
            },
            SpecInstruction::Return => {
                if v.frames.len() > level {
                    assert(v.frames[level as int] == u.frames[level as int]);
                }
            },
            _ => {},
        }
    }
}

/// Scope balance. Let a block stand in the code at `at`, let the machine
/// be at the start of the block in state `s` with an active frame that
/// holds at least one scope more than the static depth there (as every
/// frame of a run from the start does), and let `n` steps lead to the
/// address behind the block in the same frame, while the frame stayed
/// open and executed no jump that changes the static depth. Then the
/// scope stack of the frame is as deep behind the block as it was
/// before it.
///
/// A `break` or `continue` that the frame executes on the way is such a
/// jump: it skips the `scope-exit` of each block that it leaves, and
/// the scope stack stays deeper by that many scopes.
pub proof fn lemma_scope_balance(
    s: SpecVm,
    n: nat,
    b: SpecBlock,
    at: nat,
    lp: LoopTargets,
)
    requires
        nests(s.code),
        at + block_len(b) <= s.code.len(),
        s.code.subrange(at as int, (at + block_len(b)) as int) == block_code(b, at, lp),
        s.ip == at,
        s.frames.len() > 0,
        s.frames.last().scopes.len() > depth_at(s.code, at),
        steps(s, n) is Some,
        steps(s, n)->Some_0.ip == at + block_len(b),
        steps(s, n)->Some_0.frames.len() == s.frames.len(),
        forall|k: nat| k < n ==> keeps_depth(#[trigger] steps(s, k), s.code, s.frames.len()),
    ensures
        steps(s, n)->Some_0.frames.last().scopes.len() == s.frames.last().scopes.len(),
{
    let level = s.frames.len();
    let extra = s.frames.last().scopes.len() - depth_at(s.code, at);
    lemma_run_tracks(s, n, n, level, extra);
    lemma_block_code_len(b, at, lp);
    lemma_block_balanced(b, at, lp);
    lemma_depth_across(s.code, at, block_code(b, at, lp));
}

/// Along a run in which a frame stays open and executes no jump that
/// changes the static depth, the frame stays in step with the static
/// depth.
pub proof fn lemma_run_tracks(s: SpecVm, n: nat, k: nat, level: nat, extra: int)
    requires
        level >= 1,
        extra >= 1,
        nests(s.code),
        tracks(s, s.code, level, extra),
        k <= n,
        steps(s, n) is Some,
        steps(s, n)->Some_0.frames.len() >= level,
        forall|j: nat| j < n ==> keeps_depth(#[trigger] steps(s, j), s.code, level),
    ensures
        steps(s, k) matches Some(u) && tracks(u, s.code, level, extra),
    decreases k,
{
    if k > 0 {
        let j = (k - 1) as nat;
        lemma_run_tracks(s, n, j, level, extra);
        let u = steps(s, j)->Some_0;
        lemma_steps_split(s, j, 1);
        lemma_steps_split(s, k, (n - k) as nat);
        assert(steps(u, 1) == steps(s, k));
        assert(steps(s, k) is Some);
        let v = steps(s, k)->Some_0;
        assert(u.step() is Ok && u.step()->Ok_0.0 == v) by {
            reveal_with_fuel(steps, 2);
        }
        if k < n {
            assert(v.frames.len() >= level);
        }
        lemma_step_tracks(u, s.code, level, extra);
    }
}

/// Whether the jump at index `i` of a piece of code that stands at `at`,
/// if there is one, leads to a place in the piece where the nesting is
/// as deep as at the jump, or, if the jump stands at one of `sites`, to
/// such a place where it is no deeper, or to a target of the loop
/// around the piece.
pub open spec fn jump_falls(
    piece: Seq<SpecInstruction>,
    at: nat,
    lp: LoopTargets,
    in_loop: bool,
    sites: Set<nat>,
    i: int,
) -> bool {
    piece[i].jump_target() matches Some(t) ==> {
        ||| at <= t <= at + piece.len() && depth_at(piece, (t - at) as nat) == depth_at(
            piece,
            i as nat,
        )
        ||| sites.contains((at + i) as nat) && at <= t <= at + piece.len() && depth_at(
            piece,
            (t - at) as nat,
        ) <= depth_at(piece, i as nat)
        ||| sites.contains((at + i) as nat) && in_loop && (t == lp.start || t == lp.end)
    }
}

/// Whether every jump of a piece of code does.
pub open spec fn falls(
    piece: Seq<SpecInstruction>,
    at: nat,
    lp: LoopTargets,
    in_loop: bool,
    sites: Set<nat>,
) -> bool {
    forall|i: int|
        0 <= i < piece.len() ==> #[trigger] jump_falls(piece, at, lp, in_loop, sites, i)
}

/// Code without jumps.
pub open spec fn jump_free(piece: Seq<SpecInstruction>) -> bool {
    forall|i: int| 0 <= i < piece.len() ==> (#[trigger] piece[i]).jump_target() is None
}

/// The code of an expression is without jumps.
pub proof fn lemma_expr_jump_free(e: SpecExpr)
    ensures
        jump_free(expr_code(e)),
{
    lemma_expr_jumps(e, 1, 0);
}

/// What holds of the jumps of a piece of code holds of them where the
/// piece stands between two others.
pub proof fn lemma_falls_embedded(
    pre: Seq<SpecInstruction>,
    inner: Seq<SpecInstruction>,
    post: Seq<SpecInstruction>,
    at: nat,
    lp: LoopTargets,
    in_loop: bool,
    sites: Set<nat>,
    i: int,
)
    requires
        falls(inner, at + pre.len(), lp, in_loop, sites),
        pre.len() <= i < pre.len() + inner.len(),
    ensures
        jump_falls(pre + inner + post, at, lp, in_loop, sites, i),
{
    let whole = pre + inner + post;
    let j = i - pre.len();
    assert(whole[i] == inner[j]);
    assert(jump_falls(inner, at + pre.len(), lp, in_loop, sites, j));
    if inner[j].jump_target() is Some {
        let t = inner[j].jump_target()->Some_0;
        if at + pre.len() <= t <= at + pre.len() + inner.len() {
            let x = (t - at - pre.len()) as nat;
            lemma_depth_in_middle(pre, inner, post, x);
            lemma_depth_in_middle(pre, inner, post, j as nat);
        }
    }
}

/// The depth inside the middle one of three pieces of code.
pub proof fn lemma_depth_in_middle(
    pre: Seq<SpecInstruction>,
    inner: Seq<SpecInstruction>,
    post: Seq<SpecInstruction>,
    x: nat,
)
    requires
        x <= inner.len(),
    ensures
        depth_at(pre + inner + post, pre.len() + x) == net(pre) + depth_at(inner, x),
{
    lemma_depth_prefix(pre + inner, post, pre.len() + x);
    lemma_depth_suffix(pre, inner, x);
}

/// Code without jumps, and one more instruction that is no jump: none
/// of its jumps goes wrong, as it has none.
pub proof fn lemma_plain_falls(
    piece: Seq<SpecInstruction>,
    x: SpecInstruction,
    at: nat,
    lp: LoopTargets,
    in_loop: bool,
    sites: Set<nat>,
)
    requires
        jump_free(piece),
        x.jump_target() is None,
    ensures
        falls(piece.push(x), at, lp, in_loop, sites),
{
    let code = piece.push(x);
    assert forall|i: int| 0 <= i < code.len() implies #[trigger] jump_falls(
        code,
        at,
        lp,
        in_loop,
        sites,
        i,
    ) by {
        if i < piece.len() {
            assert(code[i] == piece[i]);
        }
    }
}

/// The jumps of a conditional, given what holds of the jumps of its
/// branches: its own two jumps lead to places where the nesting is as
/// deep as at the jump.
pub proof fn lemma_if_falls(
    cond: Seq<SpecInstruction>,
    t: Seq<SpecInstruction>,
    e: Seq<SpecInstruction>,
    at: nat,
    lp: LoopTargets,
    in_loop: bool,
    sites: Set<nat>,
)
    requires
        jump_free(cond),
        balanced(cond),
        balanced(t),
        balanced(e),
        falls(t, at + cond.len() + 1, lp, in_loop, sites),
        falls(e, at + cond.len() + 1 + t.len() + 1, lp, in_loop, sites),
    ensures
        falls(
            cond.push(SpecInstruction::JumpIfFalse(at + cond.len() + 1 + t.len() + 1)) + t.push(
                SpecInstruction::Jump(at + cond.len() + 1 + t.len() + 1 + e.len()),
            ) + e,
            at,
            lp,
            in_loop,
            sites,
        ),
{
    let else_at = at + cond.len() + 1 + t.len() + 1;
    let end = else_at + e.len();
    let head = cond.push(SpecInstruction::JumpIfFalse(else_at));
    let skip = seq![SpecInstruction::Jump(end)];
    let none = Seq::<SpecInstruction>::empty();
    let code = head + t.push(SpecInstruction::Jump(end)) + e;
    lemma_balanced_push(cond, SpecInstruction::JumpIfFalse(else_at));
    lemma_single_balanced(SpecInstruction::Jump(end));
    lemma_balanced_concat(head, t);
    lemma_balanced_concat(head + t, skip);
    lemma_balanced_concat(head + t + skip, e);
    assert(code =~= head + t + (skip + e));
    assert(code =~= (head + t + skip) + e + none);
    assert(code =~= (head + t + skip) + e);
    assert(code =~= (head + t) + (skip + e));
    assert(code =~= head + (t + (skip + e)));
    assert(head =~= cond + seq![SpecInstruction::JumpIfFalse(else_at)]);
    lemma_depth_prefix(head + t + skip, e, (head + t + skip).len());
    lemma_depth_prefix(head + t, skip + e, (head + t).len());
    lemma_depth_prefix(head, t + (skip + e), cond.len());
    lemma_depth_prefix(cond, seq![SpecInstruction::JumpIfFalse(else_at)], cond.len());
    assert(depth_at(code, code.len()) == 0);
    assert(depth_at(code, cond.len()) == 0);
    assert(depth_at(code, (head + t).len()) == 0);
    assert(depth_at(code, (head + t + skip).len()) == 0);
    assert forall|i: int| 0 <= i < code.len() implies #[trigger] jump_falls(
        code,
        at,
        lp,
        in_loop,
        sites,
        i,
    ) by {
        if i < cond.len() {
            assert(code[i] == cond[i]);
        } else if i == cond.len() {
            assert(code[i] == SpecInstruction::JumpIfFalse(else_at));
        } else if i < head.len() + t.len() {
            lemma_falls_embedded(head, t, skip + e, at, lp, in_loop, sites, i);
        } else if i == head.len() + t.len() {
            assert(code[i] == SpecInstruction::Jump(end));
        } else {
            lemma_falls_embedded(head + t + skip, e, none, at, lp, in_loop, sites, i);
        }
    }
}

/// The jumps of a loop, given what holds of the jumps of its body: its
/// own two jumps lead to places where the nesting is as deep as at the
/// jump, and the jumps to the loop's targets lead to its start and right
/// behind its end, where the nesting is as it is around the loop.
pub proof fn lemma_while_falls(
    cond: Seq<SpecInstruction>,
    b: Seq<SpecInstruction>,
    at: nat,
    lp: LoopTargets,
    in_loop: bool,
    sites: Set<nat>,
)
    requires
        jump_free(cond),
        balanced(cond),
        balanced(b),
        falls(
            b,
            at + cond.len() + 1,
            LoopTargets { start: at, end: at + cond.len() + 1 + b.len() + 1 },
            true,
            sites,
        ),
    ensures
        falls(
            cond.push(SpecInstruction::JumpIfFalse(at + cond.len() + 1 + b.len() + 1)) + b.push(
                SpecInstruction::Jump(at),
            ),
            at,
            lp,
            in_loop,
            sites,
        ),
{
    let end = at + cond.len() + 1 + b.len() + 1;
    let inner = LoopTargets { start: at, end };
    let head = cond.push(SpecInstruction::JumpIfFalse(end));
    let back = seq![SpecInstruction::Jump(at)];
    let code = head + b.push(SpecInstruction::Jump(at));
    lemma_balanced_push(cond, SpecInstruction::JumpIfFalse(end));
    lemma_single_balanced(SpecInstruction::Jump(at));
    lemma_balanced_concat(head, b);
    lemma_balanced_concat(head + b, back);
    assert(code =~= head + b + back);
    assert(code =~= head + (b + back));
    assert(code =~= (head + b) + back);
    assert(head =~= cond + seq![SpecInstruction::JumpIfFalse(end)]);
    lemma_depth_prefix(head, b + back, cond.len());
    lemma_depth_prefix(cond, seq![SpecInstruction::JumpIfFalse(end)], cond.len());
    lemma_depth_prefix(head + b, back, (head + b).len());
    assert(depth_at(code, code.len()) == 0);
    assert(depth_at(code, 0) == 0);
    assert(depth_at(code, cond.len()) == 0);
    assert(depth_at(code, (head + b).len()) == 0);
    assert forall|i: int| 0 <= i < code.len() implies #[trigger] jump_falls(
        code,
        at,
        lp,
        in_loop,
        sites,
        i,
    ) by {
        assert(depth_at(code, i as nat) >= 0);
        if i < cond.len() {
            assert(code[i] == cond[i]);
        } else if i == cond.len() {
            assert(code[i] == SpecInstruction::JumpIfFalse(end));
        } else if i < head.len() + b.len() {
            lemma_falls_embedded(head, b, back, at, inner, true, sites, i);
            assert(jump_falls(code, at, inner, true, sites, i));
        } else {
            assert(code[i] == SpecInstruction::Jump(at));
        }
    }
}

/// Every jump of a statement without stray `break` or `continue` leads
/// to a place in the statement, or right behind it, where the nesting is
/// as deep as at the jump, unless it is the jump of a `break` or
/// `continue`: that one leads to a place where the nesting is no deeper,
/// or to a target of the enclosing loop.
pub proof fn lemma_stmt_falls(
    s: SpecStmt,
    at: nat,
    lp: LoopTargets,
    in_loop: bool,
    sites: Set<nat>,
)
    requires
        stmt_fault(s, in_loop) is None,
        forall|p: nat| #[trigger] stmt_exit_at(s, at, p) ==> sites.contains(p),
    ensures
        falls(stmt_code(s, at, lp), at, lp, in_loop, sites),
    decreases s, 0nat,
{
    match s {
        SpecStmt::Let { name, value } => {
            lemma_expr_jump_free(value);
            lemma_plain_falls(
                expr_code(value),
                SpecInstruction::StoreVar(name),
                at,
                lp,
                in_loop,
                sites,
            );
        },
        SpecStmt::Assign { name, value } => {
            lemma_expr_jump_free(value);
            lemma_plain_falls(
                expr_code(value),
                SpecInstruction::StoreVar(name),
                at,
                lp,
                in_loop,
                sites,
            );
        },
        SpecStmt::ExprStmt(e) => {
            lemma_expr_jump_free(e);
            lemma_plain_falls(expr_code(e), SpecInstruction::Pop, at, lp, in_loop, sites);
        },
        SpecStmt::Return(e) => {
            lemma_expr_jump_free(e);
            lemma_plain_falls(expr_code(e), SpecInstruction::Return, at, lp, in_loop, sites);
        },
        SpecStmt::If { condition, then_block, else_block } => {
            let cond = expr_code(condition);
            let then_at = at + cond.len() + 1;
            let else_at = then_at + block_len(then_block) + 1;
            lemma_expr_jump_free(condition);
            lemma_expr_balanced(condition);
            assert forall|p: nat| #[trigger]
                block_exit_at(then_block, then_at, p) implies sites.contains(p) by {
                assert(stmt_exit_at(s, at, p));
            }
            lemma_block_falls(then_block, then_at, lp, in_loop, sites);
            lemma_block_balanced(then_block, then_at, lp);
            lemma_block_code_len(then_block, then_at, lp);
            lemma_else_code_len(else_block, else_at, lp);
            match else_block {
                Some(b) => {
                    assert forall|p: nat| #[trigger]
                        block_exit_at(b, else_at, p) implies sites.contains(p) by {
                        assert(stmt_exit_at(s, at, p));
                    }
                    lemma_block_falls(b, else_at, lp, in_loop, sites);
                    lemma_block_balanced(b, else_at, lp);
                },
                None => {
                    lemma_empty_balanced();
                },
            }
            lemma_if_falls(
                cond,
                block_code(then_block, then_at, lp),
                else_code(else_block, else_at, lp),
                at,
                lp,
                in_loop,
                sites,
            );
        },
        SpecStmt::While { condition, body } => {
            let cond = expr_code(condition);
            let body_at = at + cond.len() + 1;
            let end = body_at + block_len(body) + 1;
            let inner = LoopTargets { start: at, end };
            lemma_expr_jump_free(condition);
            lemma_expr_balanced(condition);
            assert forall|p: nat| #[trigger] block_exit_at(body, body_at, p) implies sites.contains(
                p,
            ) by {
                assert(stmt_exit_at(s, at, p));
            }
            lemma_block_falls(body, body_at, inner, true, sites);
            lemma_block_balanced(body, body_at, inner);
            lemma_block_code_len(body, body_at, inner);
            lemma_while_falls(cond, block_code(body, body_at, inner), at, lp, in_loop, sites);
        },
        SpecStmt::Break => {
            assert(stmt_exit_at(s, at, at));
        },
        SpecStmt::Continue => {
            assert(stmt_exit_at(s, at, at));
        },
    }
}

/// Every jump of a block without stray `break` or `continue` does.
pub proof fn lemma_block_falls(
    b: SpecBlock,
    at: nat,
    lp: LoopTargets,
    in_loop: bool,
    sites: Set<nat>,
)
    requires
        block_fault(b, in_loop) is None,
        forall|p: nat| #[trigger] block_exit_at(b, at, p) ==> sites.contains(p),
    ensures
        falls(block_code(b, at, lp), at, lp, in_loop, sites),
    decreases b, b.len() + 1,
{
    let enter = seq![SpecInstruction::EnterScope];
    let leave = seq![SpecInstruction::ExitScope];
    let inner = stmts_code(b, b.len(), at + 1, lp);
    let code = block_code(b, at, lp);
    assert forall|p: nat| #[trigger] stmts_exit_at(b, b.len(), at + 1, p) implies sites.contains(
        p,
    ) by {
        assert(block_exit_at(b, at, p));
    }
    lemma_stmts_falls(b, b.len(), at + 1, lp, in_loop, sites);
    assert(code =~= enter + inner + leave);
    assert forall|i: int| 0 <= i < code.len() implies #[trigger] jump_falls(
        code,
        at,
        lp,
        in_loop,
        sites,
        i,
    ) by {
        if 1 <= i < 1 + inner.len() {
            lemma_falls_embedded(enter, inner, leave, at, lp, in_loop, sites, i);
        }
    }
}

/// Every jump of the first `n` statements of a block does.
pub proof fn lemma_stmts_falls(
    b: SpecBlock,
    n: nat,
    at: nat,
    lp: LoopTargets,
    in_loop: bool,
    sites: Set<nat>,
)
    requires
        n <= b.len(),
        stmts_fault(b, n, in_loop) is None,
        forall|p: nat| #[trigger] stmts_exit_at(b, n, at, p) ==> sites.contains(p),
    ensures
        falls(stmts_code(b, n, at, lp), at, lp, in_loop, sites),
    decreases b, n,
{
    if n > 0 {
        let m = (n - 1) as nat;
        let next = at + stmts_len(b, m);
        let first = stmts_code(b, m, at, lp);
        let last = stmt_code(b[n - 1], next, lp);
        let none = Seq::<SpecInstruction>::empty();
        let code = stmts_code(b, n, at, lp);
        assert forall|p: nat| #[trigger] stmts_exit_at(b, m, at, p) implies sites.contains(p) by {
            assert(stmts_exit_at(b, n, at, p));
        }
        assert forall|p: nat| #[trigger] stmt_exit_at(b[n - 1], next, p) implies sites.contains(
            p,
        ) by {
            assert(stmts_exit_at(b, n, at, p));
        }
        lemma_stmts_falls(b, m, at, lp, in_loop, sites);
        lemma_stmt_falls(b[n - 1], next, lp, in_loop, sites);
        lemma_stmts_code_len(b, m, at, lp);
        assert(code =~= none + first + last);
        assert(code =~= first + last + none);
        assert forall|i: int| 0 <= i < code.len() implies #[trigger] jump_falls(
            code,
            at,
            lp,
            in_loop,
            sites,
            i,
        ) by {
            if i < first.len() {
                lemma_falls_embedded(none, first, last, at, lp, in_loop, sites, i);
            } else {
                lemma_falls_embedded(first, last, none, at, lp, in_loop, sites, i);
            }
        }
    }
}

/// Whether no jump of `code` leads to a place of deeper nesting than the
/// jump's own, or out of the code.
pub open spec fn jumps_fall(code: Seq<SpecInstruction>) -> bool {
    forall|i: int|
        0 <= i < code.len() ==> ((#[trigger] code[i]).jump_target() matches Some(t) ==> t
            <= code.len() && depth_at(code, t) <= depth_at(code, i as nat))
}

/// No jump of a function without stray `break` or `continue` goes
/// wrong.
pub proof fn lemma_function_falls(f: SpecFunctionDecl, at: nat, sites: Set<nat>)
    requires
        block_fault(f.body, false) is None,
        forall|p: nat| #[trigger] block_exit_at(f.body, at + f.params.len(), p) ==> sites.contains(p),
    ensures
        falls(function_code(f, at), at, LoopTargets { start: 0, end: 0 }, false, sites),
{
    let lp = LoopTargets { start: 0, end: 0 };
    let prologue = params_code(f.params);
    let body = block_code(f.body, at + f.params.len(), lp);
    let tail = seq![SpecInstruction::PushVoid, SpecInstruction::Return];
    let code = function_code(f, at);
    lemma_block_falls(f.body, at + f.params.len(), lp, false, sites);
    assert(code =~= prologue + body + tail);
    assert forall|i: int| 0 <= i < code.len() implies #[trigger] jump_falls(
        code,
        at,
        lp,
        false,
        sites,
        i,
    ) by {
        if prologue.len() <= i < prologue.len() + body.len() {
            lemma_falls_embedded(prologue, body, tail, at, lp, false, sites, i);
        } else if i < prologue.len() {
            assert(code[i] == prologue[i]);
        }
    }
}

/// No jump of the first `n` functions goes wrong.
pub proof fn lemma_functions_fall(fs: Seq<SpecFunctionDecl>, n: nat, sites: Set<nat>)
    requires
        n <= fs.len(),
        functions_fault(fs, n) is None,
        forall|p: nat| #[trigger] functions_exit_at(fs, n, p) ==> sites.contains(p),
    ensures
        falls(functions_code(fs, n), 0, LoopTargets { start: 0, end: 0 }, false, sites),
        functions_code(fs, n).len() == functions_len(fs, n),
    decreases n,
{
    if n > 0 {
        let m = (n - 1) as nat;
        let lp = LoopTargets { start: 0, end: 0 };
        let first = functions_code(fs, m);
        let last = function_code(fs[n - 1], functions_len(fs, m));
        let none = Seq::<SpecInstruction>::empty();
        let code = functions_code(fs, n);
        assert forall|p: nat| #[trigger] functions_exit_at(fs, m, p) implies sites.contains(p) by {
            assert(functions_exit_at(fs, n, p));
        }
        assert forall|p: nat| #[trigger]
            block_exit_at(
                fs[n - 1].body,
                functions_len(fs, m) + fs[n - 1].params.len(),
                p,
            ) implies sites.contains(p) by {
            assert(functions_exit_at(fs, n, p));
        }
        lemma_functions_fall(fs, m, sites);
        lemma_function_falls(fs[n - 1], functions_len(fs, m), sites);
        lemma_block_code_len(fs[n - 1].body, functions_len(fs, m) + fs[n - 1].params.len(), lp);
        assert(code =~= none + first + last);
        assert(code =~= first + last + none);
        assert forall|i: int| 0 <= i < code.len() implies #[trigger] jump_falls(
            code,
            0,
            lp,
            false,
            sites,
            i,
        ) by {
            if i < first.len() {
                lemma_falls_embedded(none, first, last, 0, lp, false, sites, i);
            } else {
                lemma_falls_embedded(first, last, none, 0, lp, false, sites, i);
            }
        }
    }
}

/// The code of the first `n` functions has their length.
pub proof fn lemma_functions_code_len(fs: Seq<SpecFunctionDecl>, n: nat)
    ensures
        functions_code(fs, n).len() == functions_len(fs, n),
    decreases n,
{
    if n == 0 || n > fs.len() {
    } else {
        let m = (n - 1) as nat;
        lemma_functions_code_len(fs, m);
        lemma_block_code_len(
            fs[n - 1].body,
            functions_len(fs, m) + fs[n - 1].params.len(),
            LoopTargets { start: 0, end: 0 },
        );
    }
}

/// In a compiled program, as the machine loads it, no jump leads to a
/// place of deeper nesting than the jump's own, or out of the code, and
/// the only jumps that lead to a place of other nesting are those of
/// `break` and `continue`.
pub proof fn lemma_compiled_jumps_fall(p: SpecSource)
    requires
        compile(p) is Ok,
    ensures
        jumps_fall(
            compile(p)->Ok_0.code.push(SpecInstruction::Call("main"@, 0)).push(
                SpecInstruction::Halt,
            ),
        ),
        forall|i: nat|
            #[trigger] changes_depth(
                compile(p)->Ok_0.code.push(SpecInstruction::Call("main"@, 0)).push(
                    SpecInstruction::Halt,
                ),
                i,
            ) ==> exit_at(p, i),
{
    let lp = LoopTargets { start: 0, end: 0 };
    let code = compile(p)->Ok_0.code;
    let tail = seq![SpecInstruction::Call("main"@, 0), SpecInstruction::Halt];
    let none = Seq::<SpecInstruction>::empty();
    let loaded = code.push(SpecInstruction::Call("main"@, 0)).push(SpecInstruction::Halt);
    let sites = Set::new(|a: nat| exit_at(p, a));
    lemma_functions_fall(p.functions, p.functions.len(), sites);
    assert(loaded =~= none + code + tail);
    assert forall|i: int| 0 <= i < loaded.len() implies ((#[trigger] loaded[i]).jump_target()
        matches Some(t) ==> t <= loaded.len() && depth_at(loaded, t) <= depth_at(
        loaded,
        i as nat,
    )) by {
        if i < code.len() {
            lemma_falls_embedded(none, code, tail, 0, lp, false, sites, i);
            assert(jump_falls(loaded, 0, lp, false, sites, i));
        }
    }
    assert forall|i: nat| #[trigger] changes_depth(loaded, i) implies exit_at(p, i) by {
        if i < code.len() {
            lemma_falls_embedded(none, code, tail, 0, lp, false, sites, i as int);
            assert(jump_falls(loaded, 0, lp, false, sites, i as int));
        }
    }
}

/// Each function of a compiled program begins at depth zero.
pub proof fn lemma_entry_depth(fs: Seq<SpecFunctionDecl>, i: nat, n: nat)
    requires
        i <= n <= fs.len(),
        functions_fault(fs, n) is None,
    ensures
        depth_at(functions_code(fs, n), functions_len(fs, i)) == 0,
    decreases n,
{
    lemma_functions_balanced(fs, n);
    if i == n {
        lemma_functions_code_len(fs, n);
    } else {
        let m = (n - 1) as nat;
        super::lowering::lemma_functions_fault_prefix(fs, m, n);
        lemma_entry_depth(fs, i, m);
        lemma_functions_code_len(fs, m);
        lemma_functions_len_grows(fs, i, m);
        lemma_depth_prefix(
            functions_code(fs, m),
            function_code(fs[n - 1], functions_len(fs, m)),
            functions_len(fs, i),
        );
    }
}

/// The lengths of the prefixes of a program grow with the prefix.
pub proof fn lemma_functions_len_grows(fs: Seq<SpecFunctionDecl>, n: nat, m: nat)
    requires
        n <= m <= fs.len(),
    ensures
        functions_len(fs, n) <= functions_len(fs, m),
    decreases m,
{
    if n < m {
        lemma_functions_len_grows(fs, n, (m - 1) as nat);
    }
}

/// What a lookup in a function table finds is an entry of the table.
pub proof fn lemma_found_in_table(table: Seq<SpecFunction>, name: Seq<char>)
    ensures
        find_function(table, name) matches Some(f) ==> exists|k: int|
            0 <= k < table.len() && table[k] == f,
    decreases table.len(),
{
    if table.len() > 0 {
        if table.last().name == name {
            assert(table[table.len() - 1] == table.last());
        } else {
            lemma_found_in_table(table.drop_last(), name);
            if find_function(table, name) is Some {
                let k = choose|k: int|
                    0 <= k < table.drop_last().len() && table.drop_last()[k] == find_function(
                        table,
                        name,
                    )->Some_0;
                assert(table[k] == table.drop_last()[k]);
            }
        }
    }
}

/// Whether code and function table fit together as to scopes: the scope
/// instructions nest, no jump leads deeper, and every function begins at
/// depth zero.
pub open spec fn well_scoped(code: Seq<SpecInstruction>, functions: Seq<SpecFunction>) -> bool {
    &&& nests(code)
    &&& jumps_fall(code)
    &&& forall|k: int| 0 <= k < functions.len() ==> depth_at(code, (#[trigger] functions[k]).entry) == 0
}

/// Whether frame number `level` holds at least one scope more than the
/// static depth of the address where it goes on: the scope of the call
/// and one for each block that is open there.
pub open spec fn frame_covers(s: SpecVm, level: nat) -> bool {
    s.frames[level - 1].scopes.len() >= 1 + depth_at(s.code, resume_at(s, level))
}

/// Whether every frame does.
pub open spec fn scopes_cover(s: SpecVm) -> bool {
    forall|level: nat| 1 <= level <= s.frames.len() ==> #[trigger] frame_covers(s, level)
}

/// A program that compiles and loads is well scoped, and in its start
/// state there is no frame yet.
pub proof fn lemma_loaded_well_scoped(p: SpecSource)
    requires
        compile(p) is Ok,
        load(compile(p)->Ok_0) is Ok,
    ensures
        well_scoped(load(compile(p)->Ok_0)->Ok_0.code, load(compile(p)->Ok_0)->Ok_0.functions),
        scopes_cover(load(compile(p)->Ok_0)->Ok_0),
{
    let c = compile(p)->Ok_0;
    let s = load(c)->Ok_0;
    let fs = p.functions;
    let tail = seq![SpecInstruction::Call("main"@, 0), SpecInstruction::Halt];
    lemma_compiled_balanced(p);
    lemma_compiled_jumps_fall(p);
    lemma_functions_code_len(fs, fs.len());
    assert(s.code =~= c.code + tail);
    assert forall|k: int| 0 <= k < s.functions.len() implies depth_at(
        s.code,
        (#[trigger] s.functions[k]).entry,
    ) == 0 by {
        lemma_entry_depth(fs, k as nat, fs.len());
        lemma_functions_len_grows(fs, k as nat, fs.len());
        lemma_depth_prefix(c.code, tail, functions_len(fs, k as nat));
    }
}

/// A step keeps the code and the function table, and in a well scoped
/// program it keeps every frame covering the static depth.
pub proof fn lemma_step_covers(s: SpecVm)
    requires
        well_scoped(s.code, s.functions),
        scopes_cover(s),
        s.step() is Ok,
    ensures
        s.step()->Ok_0.0.code == s.code,
        s.step()->Ok_0.0.functions == s.functions,
        scopes_cover(s.step()->Ok_0.0),
{
    let v = s.step()->Ok_0.0;
    let code = s.code;
    let instruction = s.fetch()->Some_0;
    let top = s.frames.len();
    assert(depth_at(code, s.ip + 1) == depth_at(code, s.ip) + effect_at(code, s.ip));
    assert(depth_at(code, s.ip + 1) >= 0);
    if top > 0 {
        assert(frame_covers(s, top));
    }
    match instruction {
        SpecInstruction::Call(name, argc) => {
            if name != "print"@ {
                lemma_found_in_table(s.functions, name);
            }
        },
        _ => {},
    }
    assert forall|level: nat| 1 <= level <= v.frames.len() implies #[trigger] frame_covers(
        v,
        level,
    ) by {
        if level <= s.frames.len() {
            assert(frame_covers(s, level));
        }
        match instruction {
            SpecInstruction::Call(name, argc) => {
                if name != "print"@ {
                    if level <= s.frames.len() {
                        assert(v.frames[level - 1] == s.frames[level - 1]);
                    }
                    if level < s.frames.len() {
                        assert(v.frames[level as int] == s.frames[level as int]);
                    }
                }
            },
            SpecInstruction::Return => {
                assert(v.frames[level - 1] == s.frames[level - 1]);
                if level < v.frames.len() {
                    assert(v.frames[level as int] == s.frames[level as int]);
                }
            },
            _ => {},
        }
    }
}

/// In a run of a well scoped program every frame keeps covering the
/// static depth.
pub proof fn lemma_run_covers(s: SpecVm, n: nat)
    requires
        well_scoped(s.code, s.functions),
        scopes_cover(s),
        steps(s, n) is Some,
    ensures
        steps(s, n)->Some_0.code == s.code,
        steps(s, n)->Some_0.functions == s.functions,
        scopes_cover(steps(s, n)->Some_0),
    decreases n,
{
    if n > 0 {
        lemma_step_covers(s);
        lemma_run_covers(s.step()->Ok_0.0, (n - 1) as nat);
    }
}

/// Whether the run has reached a state in which frame number `level` is
/// open and, if it is the active one, is not about to execute the jump
/// of a `break` or `continue` of the program `p`.
pub open spec fn stays_in_blocks(u: Option<SpecVm>, p: SpecSource, level: nat) -> bool {
    match u {
        Some(u) => u.frames.len() >= level && (u.frames.len() == level ==> !exit_at(p, u.ip)),
        None => false,
    }
}

/// Scope balance in a compiled program. Let a program be compiled and
/// loaded, let a run from the start reach the state `s` at the start of
/// a block of the code, inside a call, and let `n` more steps lead to
/// the address behind the block in the same frame, while the frame
/// stayed open and executed neither a `break` nor a `continue`. Then the
/// scope stack of the frame is as deep behind the block as it was
/// before it.
///
/// A `break` or `continue` skips the `scope-exit` of each block that it
/// leaves, and the scopes of those blocks stay on the frame's scope
/// stack: the law does not hold of a run in which the frame executes
/// one between the two ends of the block.
pub proof fn lemma_scope_balance_compiled(
    p: SpecSource,
    before: nat,
    n: nat,
    b: SpecBlock,
    at: nat,
    lp: LoopTargets,
)
    requires
        compile(p) is Ok,
        load(compile(p)->Ok_0) is Ok,
        steps(load(compile(p)->Ok_0)->Ok_0, before) is Some,
        ({
            let s = steps(load(compile(p)->Ok_0)->Ok_0, before)->Some_0;
            &&& at + block_len(b) <= s.code.len()
            &&& s.code.subrange(at as int, (at + block_len(b)) as int) == block_code(b, at, lp)
            &&& s.ip == at
            &&& s.frames.len() > 0
            &&& steps(s, n) is Some
            &&& steps(s, n)->Some_0.ip == at + block_len(b)
            &&& steps(s, n)->Some_0.frames.len() == s.frames.len()
            &&& forall|k: nat| k < n ==> stays_in_blocks(#[trigger] steps(s, k), p, s.frames.len())
        }),
    ensures
        ({
            let s = steps(load(compile(p)->Ok_0)->Ok_0, before)->Some_0;
            steps(s, n)->Some_0.frames.last().scopes.len() == s.frames.last().scopes.len()
        }),
{
    let s0 = load(compile(p)->Ok_0)->Ok_0;
    let s = steps(s0, before)->Some_0;
    lemma_loaded_well_scoped(p);
    lemma_compiled_jumps_fall(p);
    lemma_run_covers(s0, before);
    assert(frame_covers(s, s.frames.len()));
    assert forall|k: nat| k < n implies keeps_depth(
        #[trigger] steps(s, k),
        s.code,
        s.frames.len(),
    ) by {
        assert(stays_in_blocks(steps(s, k), p, s.frames.len()));
        let u = steps(s, k)->Some_0;
        lemma_steps_split(s0, before, k);
        lemma_run_covers(s0, before + k);
        if changes_depth(s.code, u.ip) {
            assert(exit_at(p, u.ip));
        }
    }
    lemma_scope_balance(s, n, b, at, lp);
}

} // verus!
