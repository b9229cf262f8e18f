//! Jumps in compiled code: every target is an address of the code, no
//! placeholder is left, and the jumps of `break` and `continue` lead
//! where the loop ends and where it tests its condition.

use super::bytecode::SpecInstruction;
use super::compiler::PLACEHOLDER;
use super::lowering::{
    args_code, block_code, block_fault, block_len, block_sites, compile, else_code, else_len,
    expr_code, function_code, function_len, functions_code, functions_fault, functions_len,
    lemma_block_code_len, lemma_patch_block, lemma_stmt_code_len, lemma_stmts_code_len,
    lemma_stmts_fault_prefix, params_code, patched, stmt_code, stmt_fault, stmt_len, stmts_code,
    stmts_fault, stmts_len, LoopExit, LoopTargets,
};
use super::model::{SpecEvent, SpecVm};
use crate::ast::{SpecBlock, SpecExpr, SpecFunctionDecl, SpecProgram as SpecSource, SpecStmt};
use vstd::prelude::*;

verus! {

/// Whether every jump in `code` has its target in `lo..hi`.
pub open spec fn jumps_within(code: Seq<SpecInstruction>, lo: nat, hi: nat) -> bool {
    forall|i: int|
        0 <= i < code.len() ==> ((#[trigger] code[i]).jump_target() matches Some(t) ==> lo <= t
            < hi)
}

/// Two pieces of code whose jumps stay in a range, one behind the other.
pub proof fn lemma_jumps_concat(
    a: Seq<SpecInstruction>,
    b: Seq<SpecInstruction>,
    lo: nat,
    hi: nat,
)
    requires
        jumps_within(a, lo, hi),
        jumps_within(b, lo, hi),
    ensures
        jumps_within(a + b, lo, hi),
{
    assert forall|i: int| 0 <= i < (a + b).len() implies ((#[trigger] (a + b)[i]).jump_target()
        matches Some(t) ==> lo <= t < hi) by {
        if i < a.len() {
            assert((a + b)[i] == a[i]);
        } else {
            assert((a + b)[i] == b[i - a.len()]);
        }
    }
}

/// Code whose jumps stay in a range, and one more instruction that is no
/// jump or jumps into the range.
pub proof fn lemma_jumps_push(a: Seq<SpecInstruction>, x: SpecInstruction, lo: nat, hi: nat)
    requires
        jumps_within(a, lo, hi),
        x.jump_target() matches Some(t) ==> lo <= t < hi,
    ensures
        jumps_within(a.push(x), lo, hi),
{
    assert forall|i: int| 0 <= i < a.push(x).len() implies ((#[trigger] a.push(
        x,
    )[i]).jump_target() matches Some(t) ==> lo <= t < hi) by {
        if i < a.len() {
            assert(a.push(x)[i] == a[i]);
        }
    }
}

/// The code of an expression holds no jump.
pub proof fn lemma_expr_jumps(e: SpecExpr, lo: nat, hi: nat)
    ensures
        jumps_within(expr_code(e), lo, hi),
    decreases e, 0nat,
{
    match e {
        SpecExpr::Binary { left, op, right } => {
            lemma_expr_jumps(*left, lo, hi);
            lemma_expr_jumps(*right, lo, hi);
            lemma_jumps_concat(expr_code(*left), expr_code(*right), lo, hi);
            lemma_jumps_push(
                expr_code(*left) + expr_code(*right),
                super::lowering::op_instruction(op),
                lo,
                hi,
            );
        },
        SpecExpr::Call { name, args } => {
            lemma_args_jumps(args, args.len(), lo, hi);
            lemma_jumps_push(
                args_code(args, args.len()),
                super::lowering::call_instruction(name, args.len()),
                lo,
                hi,
            );
        },
        _ => {},
    }
}

/// The code of the arguments of a call holds no jump.
pub proof fn lemma_args_jumps(args: Seq<SpecExpr>, n: nat, lo: nat, hi: nat)
    ensures
        jumps_within(args_code(args, n), lo, hi),
    decreases args, n,
{
    if n == 0 || n > args.len() {
    } else {
        lemma_args_jumps(args, (n - 1) as nat, lo, hi);
        lemma_expr_jumps(args[n - 1], lo, hi);
        lemma_jumps_concat(args_code(args, (n - 1) as nat), expr_code(args[n - 1]), lo, hi);
    }
}

/// Whether the targets of a loop lie in `lo..hi`.
pub open spec fn targets_within(lp: LoopTargets, lo: nat, hi: nat) -> bool {
    lo <= lp.start < hi && lo <= lp.end < hi
}

/// Every jump of a statement goes to an address of the statement, to the
/// address right behind it, or to a target of the enclosing loop.
pub proof fn lemma_stmt_jumps(
    s: SpecStmt,
    at: nat,
    lp: LoopTargets,
    in_loop: bool,
    lo: nat,
    hi: nat,
)
    requires
        stmt_fault(s, in_loop) is None,
        lo <= at,
        at + stmt_len(s) < hi,
        in_loop ==> targets_within(lp, lo, hi),
    ensures
        jumps_within(stmt_code(s, at, lp), lo, hi),
    decreases s, 0nat,
{
    match s {
        SpecStmt::Let { name, value } => {
            lemma_expr_jumps(value, lo, hi);
            lemma_jumps_push(expr_code(value), SpecInstruction::StoreVar(name), lo, hi);
        },
        SpecStmt::Assign { name, value } => {
            lemma_expr_jumps(value, lo, hi);
            lemma_jumps_push(expr_code(value), SpecInstruction::StoreVar(name), lo, hi);
        },
        SpecStmt::ExprStmt(e) => {
            lemma_expr_jumps(e, lo, hi);
            lemma_jumps_push(expr_code(e), SpecInstruction::Pop, lo, hi);
        },
        SpecStmt::Return(e) => {
            lemma_expr_jumps(e, lo, hi);
            lemma_jumps_push(expr_code(e), SpecInstruction::Return, lo, hi);
        },
        SpecStmt::If { condition, then_block, else_block } => {
            let then_at = at + expr_code(condition).len() + 1;
            let else_at = then_at + block_len(then_block) + 1;
            let end = else_at + else_len(else_block);
            let head = expr_code(condition).push(SpecInstruction::JumpIfFalse(else_at));
            let middle = block_code(then_block, then_at, lp).push(SpecInstruction::Jump(end));
            let tail = else_code(else_block, else_at, lp);
            lemma_expr_jumps(condition, lo, hi);
            lemma_jumps_push(
                expr_code(condition),
                SpecInstruction::JumpIfFalse(else_at),
                lo,
                hi,
            );
            lemma_block_jumps(then_block, then_at, lp, in_loop, lo, hi);
            lemma_jumps_push(
                block_code(then_block, then_at, lp),
                SpecInstruction::Jump(end),
                lo,
                hi,
            );
            match else_block {
                Some(b) => {
                    lemma_block_jumps(b, else_at, lp, in_loop, lo, hi);
                },
                None => {},
            }
            lemma_jumps_concat(head, middle, lo, hi);
            lemma_jumps_concat(head + middle, tail, lo, hi);
        },
        SpecStmt::While { condition, body } => {
            let body_at = at + expr_code(condition).len() + 1;
            let end = body_at + block_len(body) + 1;
            let inner = LoopTargets { start: at, end };
            let head = expr_code(condition).push(SpecInstruction::JumpIfFalse(end));
            lemma_expr_jumps(condition, lo, hi);
            lemma_jumps_push(expr_code(condition), SpecInstruction::JumpIfFalse(end), lo, hi);
            lemma_block_jumps(body, body_at, inner, true, lo, hi);
            lemma_jumps_push(
                block_code(body, body_at, inner),
                SpecInstruction::Jump(at),
                lo,
                hi,
            );
            lemma_jumps_concat(
                head,
                block_code(body, body_at, inner).push(SpecInstruction::Jump(at)),
                lo,
                hi,
            );
        },
        SpecStmt::Break => {},
        SpecStmt::Continue => {},
    }
}

/// Every jump of a block goes to an address inside the block or to a
/// target of the enclosing loop.
pub proof fn lemma_block_jumps(
    b: SpecBlock,
    at: nat,
    lp: LoopTargets,
    in_loop: bool,
    lo: nat,
    hi: nat,
)
    requires
        block_fault(b, in_loop) is None,
        lo <= at,
        at + block_len(b) <= hi,
        in_loop ==> targets_within(lp, lo, hi),
    ensures
        jumps_within(block_code(b, at, lp), lo, hi),
    decreases b, b.len() + 1,
{
    let enter = seq![SpecInstruction::EnterScope];
    lemma_stmts_jumps(b, b.len(), b.len(), at + 1, lp, in_loop, lo, hi);
    lemma_jumps_concat(enter, stmts_code(b, b.len(), at + 1, lp), lo, hi);
    lemma_jumps_push(
        enter + stmts_code(b, b.len(), at + 1, lp),
        SpecInstruction::ExitScope,
        lo,
        hi,
    );
}

/// The lengths of the prefixes of a block grow with the prefix.
pub proof fn lemma_stmts_len_grows(b: SpecBlock, n: nat, m: nat)
    requires
        n <= m <= b.len(),
    ensures
        stmts_len(b, n) <= stmts_len(b, m),
    decreases m,
{
    if n < m {
        lemma_stmts_len_grows(b, n, (m - 1) as nat);
    }
}

/// Every jump of the first `n` of the `m` statements under look goes to
/// an address of those `m` statements, to the address right behind them,
/// or to a target of the enclosing loop.
pub proof fn lemma_stmts_jumps(
    b: SpecBlock,
    n: nat,
    m: nat,
    at: nat,
    lp: LoopTargets,
    in_loop: bool,
    lo: nat,
    hi: nat,
)
    requires
        n <= m <= b.len(),
        stmts_fault(b, m, in_loop) is None,
        lo <= at,
        at + stmts_len(b, m) < hi,
        in_loop ==> targets_within(lp, lo, hi),
    ensures
        jumps_within(stmts_code(b, n, at, lp), lo, hi),
        stmts_fault(b, n, in_loop) is None,
    decreases b, n,
{
    if n == 0 {
        if m > 0 {
            lemma_stmts_fault_prefix(b, 0, m, in_loop);
        }
    } else {
        let k = (n - 1) as nat;
        lemma_stmts_jumps(b, k, m, at, lp, in_loop, lo, hi);
        lemma_stmts_fault_prefix(b, n, m, in_loop);
        lemma_stmts_len_grows(b, n, m);
        lemma_stmt_jumps(b[n - 1], at + stmts_len(b, k), lp, in_loop, lo, hi);
        lemma_jumps_concat(
            stmts_code(b, k, at, lp),
            stmt_code(b[n - 1], at + stmts_len(b, k), lp),
            lo,
            hi,
        );
    }
}

/// Every jump of a function goes to an address of the function's body.
pub proof fn lemma_function_jumps(f: SpecFunctionDecl, at: nat)
    requires
        block_fault(f.body, false) is None,
    ensures
        jumps_within(function_code(f, at), at + 1, at + function_len(f)),
{
    let lo = at + 1;
    let hi = at + function_len(f);
    let lp = LoopTargets { start: 0, end: 0 };
    let body = block_code(f.body, at + f.params.len(), lp);
    assert(jumps_within(params_code(f.params), lo, hi));
    lemma_block_jumps(f.body, at + f.params.len(), lp, false, at + f.params.len(), hi);
    assert(jumps_within(body, lo, hi)) by {
        assert forall|i: int| 0 <= i < body.len() implies ((#[trigger] body[i]).jump_target()
            matches Some(t) ==> lo <= t < hi) by {
            if body[i].jump_target() is Some {
                lemma_block_code_len(f.body, at + f.params.len(), lp);
                lemma_block_jump_floor(f.body, at + f.params.len(), lp, i);
            }
        }
    }
    lemma_jumps_concat(params_code(f.params), body, lo, hi);
    lemma_jumps_push(params_code(f.params) + body, SpecInstruction::PushVoid, lo, hi);
    lemma_jumps_push(
        (params_code(f.params) + body).push(SpecInstruction::PushVoid),
        SpecInstruction::Return,
        lo,
        hi,
    );
}

/// A jump of a block outside any loop goes behind the block's
/// `scope-enter`.
pub proof fn lemma_block_jump_floor(b: SpecBlock, at: nat, lp: LoopTargets, i: int)
    requires
        block_fault(b, false) is None,
        0 <= i < block_len(b),
        block_code(b, at, lp)[i].jump_target() is Some,
    ensures
        block_code(b, at, lp)[i].jump_target()->Some_0 > at,
{
    lemma_block_code_len(b, at, lp);
    lemma_stmts_code_len(b, b.len(), at + 1, lp);
    lemma_stmts_jumps(b, b.len(), b.len(), at + 1, lp, false, at + 1, at + block_len(b));
    let enter = seq![SpecInstruction::EnterScope];
    let inner = stmts_code(b, b.len(), at + 1, lp);
    if 1 <= i < 1 + inner.len() {
        assert(block_code(b, at, lp)[i] == inner[i - 1]);
    }
}

/// Every jump of the first `n` functions goes to an address of their
/// code other than the first.
pub proof fn lemma_functions_jumps(fs: Seq<SpecFunctionDecl>, n: nat)
    requires
        n <= fs.len(),
        functions_fault(fs, n) is None,
    ensures
        jumps_within(functions_code(fs, n), 1, functions_len(fs, n)),
        functions_code(fs, n).len() == functions_len(fs, n),
    decreases n,
{
    if n > 0 {
        let k = (n - 1) as nat;
        let at = functions_len(fs, k);
        lemma_functions_jumps(fs, k);
        lemma_function_jumps(fs[n - 1], at);
        lemma_block_code_len(
            fs[n - 1].body,
            at + fs[n - 1].params.len(),
            LoopTargets { start: 0, end: 0 },
        );
        lemma_jumps_concat(
            functions_code(fs, k),
            function_code(fs[n - 1], at),
            1,
            functions_len(fs, n),
        );
    }
}

/// Jump closure: in a compiled program every jump and conditional jump
/// names an index of the instruction sequence, and none names the
/// placeholder that jumps carry before they are patched.
pub proof fn lemma_jump_closure(p: SpecSource)
    requires
        compile(p) is Ok,
    ensures
        forall|i: int|
            0 <= i < compile(p)->Ok_0.code.len() ==> ((#[trigger] compile(
                p,
            )->Ok_0.code[i]).jump_target() matches Some(t) ==> t != PLACEHOLDER && t < compile(
                p,
            )->Ok_0.code.len()),
{
    lemma_functions_jumps(p.functions, p.functions.len());
}

/// In the code of a block, the instruction at each address that the
/// block records for one kind of loop exit is a jump to the loop's
/// target for that exit.
pub proof fn lemma_exit_jumps(b: SpecBlock, at: nat, lp: LoopTargets, exit: LoopExit, k: int)
    requires
        0 <= k < block_sites(b, at, exit).len(),
    ensures
        at <= block_sites(b, at, exit)[k] < at + block_len(b),
        block_code(b, at, lp)[block_sites(b, at, exit)[k] - at] == SpecInstruction::Jump(
            lp.of(exit),
        ),
{
    let sites = block_sites(b, at, exit);
    lemma_patch_block(b, at, lp, exit, lp.of(exit));
    lemma_block_code_len(b, at, lp);
    assert(lp.with(exit, lp.of(exit)) == lp);
    let i = sites[k] - at;
    assert(sites.contains((at + i) as nat));
    assert(patched(block_code(b, at, lp), at, sites, lp.of(exit))[i] == SpecInstruction::Jump(
        lp.of(exit),
    ));
}

/// Loop control. The code of a loop that stands at `at` begins with the
/// code of its condition, so `at` is where the condition is evaluated
/// again, and it ends right before `at + stmt_len`. In it, the
/// instruction of every `break` of the loop is a jump to that first
/// address behind the loop, and the instruction of every `continue` of
/// the loop is a jump to `at`, not to the body.
pub proof fn lemma_loop_control(condition: SpecExpr, body: SpecBlock, at: nat, outer: LoopTargets)
    ensures
        ({
            let s = SpecStmt::While { condition, body };
            let code = stmt_code(s, at, outer);
            let body_at = at + expr_code(condition).len() + 1;
            let end = at + stmt_len(s);
            &&& code.len() == stmt_len(s)
            &&& code.subrange(0, expr_code(condition).len() as int) == expr_code(condition)
            &&& at < body_at
            &&& forall|k: int|
                0 <= k < block_sites(body, body_at, LoopExit::Break).len() ==> {
                    let site = #[trigger] block_sites(body, body_at, LoopExit::Break)[k];
                    body_at <= site < end && code[site - at] == SpecInstruction::Jump(end)
                }
            &&& forall|k: int|
                0 <= k < block_sites(body, body_at, LoopExit::Continue).len() ==> {
                    let site = #[trigger] block_sites(body, body_at, LoopExit::Continue)[k];
                    body_at <= site < end && code[site - at] == SpecInstruction::Jump(at)
                }
        }),
{
    let s = SpecStmt::While { condition, body };
    let code = stmt_code(s, at, outer);
    let cond = expr_code(condition);
    let body_at = at + cond.len() + 1;
    let end = at + stmt_len(s);
    let inner = LoopTargets { start: at, end };
    let block = block_code(body, body_at, inner);
    lemma_stmt_code_len(s, at, outer);
    lemma_block_code_len(body, body_at, inner);
    assert(code.subrange(0, cond.len() as int) =~= cond);
    assert forall|k: int| 0 <= k < block_sites(body, body_at, LoopExit::Break).len() implies {
        let site = #[trigger] block_sites(body, body_at, LoopExit::Break)[k];
        body_at <= site < end && code[site - at] == SpecInstruction::Jump(end)
    } by {
        let site = block_sites(body, body_at, LoopExit::Break)[k];
        lemma_exit_jumps(body, body_at, inner, LoopExit::Break, k);
        assert(code[site - at] == block[site - body_at]);
    }
    assert forall|k: int| 0 <= k < block_sites(body, body_at, LoopExit::Continue).len() implies {
        let site = #[trigger] block_sites(body, body_at, LoopExit::Continue)[k];
        body_at <= site < end && code[site - at] == SpecInstruction::Jump(at)
    } by {
        let site = block_sites(body, body_at, LoopExit::Continue)[k];
        lemma_exit_jumps(body, body_at, inner, LoopExit::Continue, k);
        assert(code[site - at] == block[site - body_at]);
    }
}

/// A jump transfers control to its target and changes nothing else.
pub proof fn lemma_jump_transfers(s: SpecVm, target: nat)
    requires
        s.fetch() == Some(SpecInstruction::Jump(target)),
    ensures
        s.step() == Ok::<(SpecVm, SpecEvent), crate::runtime_error::SpecFault>(
            (s.goto(target), SpecEvent::Continued),
        ),
{
}

} // verus!
