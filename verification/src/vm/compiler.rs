//! The bytecode compiler: lowers a program to one instruction sequence
//! in a single pass, writing each forward jump with a placeholder target
//! and patching it once the target is known.

use super::bytecode::{code_view, functions_view, Function, Instruction, Program, SpecInstruction};
use super::lowering::{
    args_code, block_code, block_fault, block_len, block_sites, compile, else_code, else_sites,
    expr_code, function_code, function_len, function_table, functions_code, functions_fault,
    functions_len, lemma_functions_fault_stable, lemma_patch_block, lemma_patched_concat,
    lemma_patched_next, lemma_patched_none, lemma_stmt_code_len, lemma_stmts_fault_stable,
    params_code, patched, sites_within, stmt_code, stmt_fault, stmt_len, stmt_sites, stmts_code,
    stmts_fault, stmts_len, stmts_sites, table_entry, CompileError, LoopExit, LoopTargets,
};
use crate::ast::{BinOp, Block, Expr, FunctionDecl, Program as AstProgram, Stmt};
use vstd::prelude::*;
use vstd::string::StringExecFns;

verus! {

/// The target that a jump carries until it is patched.
pub const PLACEHOLDER: usize = 0;

/// The loop under compilation: where its condition starts, and the
/// addresses of the `break` jumps that wait for the loop's end.
struct LoopContext {
    start: usize,
    breaks: Vec<usize>,
}

/// Addresses as natural numbers, element by element.
pub open spec fn sites_view(s: Seq<usize>) -> Seq<nat> {
    Seq::new(s.len(), |i: int| s[i] as nat)
}

/// The program under construction: the code emitted so far, the table
/// of the functions compiled so far, and the loops that are open.
struct Emitter {
    code: Vec<Instruction>,
    functions: Vec<Function>,
    loop_stack: Vec<LoopContext>,
}

/// The bytecode compiler. It starts every compilation from nothing.
pub struct BytecodeCompiler {
    emitter: Emitter,
}

/// The code of a conditional, as the compiler leaves it after patching
/// its two jumps, is the code that the layout prescribes.
proof fn lemma_if_layout(
    before: Seq<SpecInstruction>,
    cond: Seq<SpecInstruction>,
    then_code: Seq<SpecInstruction>,
    else_part: Seq<SpecInstruction>,
    else_at: nat,
    end: nat,
)
    ensures
        (((before + cond).push(SpecInstruction::JumpIfFalse(PLACEHOLDER as nat)) + then_code).push(
            SpecInstruction::Jump(PLACEHOLDER as nat),
        ) + else_part).update(
            (before + cond).len() as int,
            SpecInstruction::JumpIfFalse(else_at),
        ).update(
            ((before + cond).len() + 1 + then_code.len()) as int,
            SpecInstruction::Jump(end),
        ) == before + (cond.push(SpecInstruction::JumpIfFalse(else_at)) + then_code.push(
            SpecInstruction::Jump(end),
        ) + else_part),
{
    let lhs = (((before + cond).push(SpecInstruction::JumpIfFalse(PLACEHOLDER as nat))
        + then_code).push(SpecInstruction::Jump(PLACEHOLDER as nat)) + else_part).update(
        (before + cond).len() as int,
        SpecInstruction::JumpIfFalse(else_at),
    ).update(((before + cond).len() + 1 + then_code.len()) as int, SpecInstruction::Jump(end));
    let rhs = before + (cond.push(SpecInstruction::JumpIfFalse(else_at)) + then_code.push(
        SpecInstruction::Jump(end),
    ) + else_part);
    assert(lhs =~= rhs);
}

/// The code of a loop, as the compiler leaves it after patching the exit
/// jump and the `break` jumps, is the code that the layout prescribes.
proof fn lemma_while_layout(
    before: Seq<SpecInstruction>,
    cond: Seq<SpecInstruction>,
    body: Seq<SpecInstruction>,
    sites: Seq<nat>,
    start: nat,
    end: nat,
)
    requires
        sites_within(sites, (before + cond).len() + 1, (before + cond).len() + 1 + body.len()),
    ensures
        patched(
            ((before + cond).push(SpecInstruction::JumpIfFalse(PLACEHOLDER as nat)) + body).push(
                SpecInstruction::Jump(start),
            ).update((before + cond).len() as int, SpecInstruction::JumpIfFalse(end)),
            0,
            sites,
            end,
        ) == before + (cond.push(SpecInstruction::JumpIfFalse(end)) + patched(
            body,
            (before + cond).len() + 1,
            sites,
            end,
        ).push(SpecInstruction::Jump(start))),
{
    let front = (before + cond).push(SpecInstruction::JumpIfFalse(end));
    let back = seq![SpecInstruction::Jump(start)];
    let none = Seq::<nat>::empty();
    let unpatched = ((before + cond).push(SpecInstruction::JumpIfFalse(PLACEHOLDER as nat))
        + body).push(SpecInstruction::Jump(start)).update(
        (before + cond).len() as int,
        SpecInstruction::JumpIfFalse(end),
    );
    assert(unpatched =~= (front + body) + back);
    lemma_patched_none(front, 0, end);
    lemma_patched_none(back, front.len() + body.len(), end);
    lemma_patched_concat(front, body, 0, none, sites, end);
    lemma_patched_concat(front + body, back, 0, none + sites, none, end);
    assert((none + sites) + none =~= sites);
    assert(none + sites =~= sites);
    assert((front + patched(body, front.len(), sites, end)) + back =~= before + (cond.push(
        SpecInstruction::JumpIfFalse(end),
    ) + patched(body, (before + cond).len() + 1, sites, end).push(SpecInstruction::Jump(start))));
}

impl Emitter {
    /// Whether nothing has been compiled yet.
    closed spec fn is_fresh(&self) -> bool {
        &&& self.code@.len() == 0
        &&& self.functions@.len() == 0
        &&& self.loop_stack@.len() == 0
    }

    /// The instructions emitted so far.
    closed spec fn emitted(&self) -> Seq<SpecInstruction> {
        code_view(self.code@)
    }

    /// Whether a loop is under compilation.
    closed spec fn in_loop(&self) -> bool {
        self.loop_stack@.len() > 0
    }

    /// The targets that jumps of the innermost loop are written with:
    /// its start, and the placeholder for its end.
    closed spec fn targets(&self) -> LoopTargets {
        if self.loop_stack@.len() > 0 {
            LoopTargets { start: self.loop_stack@.last().start as nat, end: PLACEHOLDER as nat }
        } else {
            LoopTargets { start: 0, end: 0 }
        }
    }

    /// The `break` jumps of the innermost loop that wait for patching.
    closed spec fn pending(&self) -> Seq<nat> {
        if self.loop_stack@.len() > 0 {
            sites_view(self.loop_stack@.last().breaks@)
        } else {
            Seq::empty()
        }
    }

    /// Whether `self` differs from `before` only in the code emitted and
    /// in the pending `break` jumps of the innermost loop.
    closed spec fn same_context(&self, before: &Self) -> bool {
        &&& self.functions == before.functions
        &&& self.loop_stack@.len() == before.loop_stack@.len()
        &&& self.loop_stack@.len() > 0 ==> {
            &&& self.loop_stack@.drop_last() == before.loop_stack@.drop_last()
            &&& self.loop_stack@.last().start == before.loop_stack@.last().start
        }
    }

    fn new() -> (c: Self)
        ensures
            c.is_fresh(),
    {
        Emitter { code: Vec::new(), functions: Vec::new(), loop_stack: Vec::new() }
    }

    fn emit(&mut self, instruction: Instruction)
        ensures
            final(self).emitted() == old(self).emitted().push(instruction@),
            final(self).code@.len() == old(self).code@.len() + 1,
            final(self).functions == old(self).functions,
            final(self).loop_stack == old(self).loop_stack,
    {
        assert(code_view(self.code@.push(instruction)) == code_view(self.code@).push(
            instruction@,
        ));
        self.code.push(instruction);
    }

    /// Overwrites the instruction at `at`.
    fn patch(&mut self, at: usize, instruction: Instruction)
        requires
            at < old(self).code@.len(),
        ensures
            final(self).emitted() == old(self).emitted().update(at as int, instruction@),
            final(self).code@.len() == old(self).code@.len(),
            final(self).functions == old(self).functions,
            final(self).loop_stack == old(self).loop_stack,
    {
        assert(code_view(self.code@.update(at as int, instruction)) == code_view(
            self.code@,
        ).update(at as int, instruction@));
        self.code.set(at, instruction);
    }

    fn compile_expr(&mut self, expr: &Expr)
        ensures
            final(self).emitted() == old(self).emitted() + expr_code(expr@),
            final(self).code@.len() == old(self).code@.len() + expr_code(expr@).len(),
            final(self).functions == old(self).functions,
            final(self).loop_stack == old(self).loop_stack,
        decreases expr,
    {
        let ghost before = self.emitted();
        match expr {
            Expr::IntLiteral(v) => {
                self.emit(Instruction::PushInt(*v));
                assert(self.emitted() == before + expr_code(expr@));
            },
            Expr::StringLiteral(s) => {
                self.emit(Instruction::PushString(s.clone()));
                assert(self.emitted() == before + expr_code(expr@));
            },
            Expr::VarRef(name) => {
                self.emit(Instruction::LoadVar(name.clone()));
                assert(self.emitted() == before + expr_code(expr@));
            },
            Expr::Binary { left, op, right } => {
                self.compile_expr(left);
                self.compile_expr(right);
                self.emit(
                    match op {
                        BinOp::Add => Instruction::Add,
                        BinOp::Sub => Instruction::Sub,
                        BinOp::Mul => Instruction::Mul,
                        BinOp::Div => Instruction::Div,
                        BinOp::Less => Instruction::Less,
                        BinOp::Greater => Instruction::Greater,
                        BinOp::Equal => Instruction::Equal,
                    },
                );
                assert(self.emitted() == before + expr_code(expr@));
            },
            Expr::Call { name, args } => {
                let ghost models = expr@->args;
                let mut i: usize = 0;
                assert(self.emitted() == before + args_code(models, 0));
                while i < args.len()
                    invariant
                        i <= args.len(),
                        *expr == (Expr::Call { name: *name, args: *args }),
                        models == expr@->args,
                        self.emitted() == before + args_code(models, i as nat),
                        self.functions == old(self).functions,
                        self.loop_stack == old(self).loop_stack,
                    decreases args.len() - i,
                {
                    let ghost so_far = self.emitted();
                    self.compile_expr(&args[i]);
                    assert(models[i as int] == args[i as int]@);
                    assert(self.emitted() == before + args_code(models, (i + 1) as nat)) by {
                        assert(self.emitted() == (before + args_code(models, i as nat))
                            + expr_code(models[i as int]));
                    }
                    i = i + 1;
                }
                let print = String::from_str("print");
                if *name == print {
                    self.emit(Instruction::Print);
                } else {
                    self.emit(Instruction::Call(name.clone(), args.len()));
                }
                assert(self.emitted() == before + expr_code(expr@));
            },
        }
    }

    /// Points the jump at each address in `breaks` to `end`.
    fn patch_breaks(&mut self, breaks: &Vec<usize>, end: usize)
        requires
            forall|k: int| 0 <= k < breaks@.len() ==> breaks@[k] < old(self).code@.len(),
        ensures
            final(self).emitted() == patched(
                old(self).emitted(),
                0,
                sites_view(breaks@),
                end as nat,
            ),
            final(self).code@.len() == old(self).code@.len(),
            final(self).functions == old(self).functions,
            final(self).loop_stack == old(self).loop_stack,
    {
        let ghost unpatched = self.emitted();
        let ghost sites = sites_view(breaks@);
        let mut k: usize = 0;
        proof {
            assert(sites.take(0) == Seq::<nat>::empty());
            lemma_patched_none(unpatched, 0, end as nat);
        }
        while k < breaks.len()
            invariant
                k <= breaks@.len(),
                sites == sites_view(breaks@),
                unpatched == old(self).emitted(),
                forall|j: int| 0 <= j < breaks@.len() ==> breaks@[j] < self.code@.len(),
                self.code@.len() == old(self).code@.len(),
                self.emitted() == patched(unpatched, 0, sites.take(k as int), end as nat),
                self.functions == old(self).functions,
                self.loop_stack == old(self).loop_stack,
            decreases breaks@.len() - k,
        {
            proof {
                lemma_patched_next(unpatched, sites, k as int, end as nat);
            }
            self.patch(breaks[k], Instruction::Jump(end));
            k = k + 1;
        }
        assert(sites.take(k as int) == sites);
    }

    /// Compiles `value` and stores the result under `name`.
    fn compile_store(&mut self, name: &String, value: &Expr)
        ensures
            final(self).emitted() == old(self).emitted() + expr_code(value@).push(
                SpecInstruction::StoreVar(name@),
            ),
            final(self).code@.len() == old(self).code@.len() + expr_code(value@).len() + 1,
            final(self).functions == old(self).functions,
            final(self).loop_stack == old(self).loop_stack,
    {
        let ghost before = self.emitted();
        self.compile_expr(value);
        self.emit(Instruction::StoreVar(name.clone()));
        assert(self.emitted() == before + expr_code(value@).push(
            SpecInstruction::StoreVar(name@),
        ));
    }

    /// Compiles `expr` and then emits `last`.
    fn compile_then(&mut self, expr: &Expr, last: Instruction)
        ensures
            final(self).emitted() == old(self).emitted() + expr_code(expr@).push(last@),
            final(self).code@.len() == old(self).code@.len() + expr_code(expr@).len() + 1,
            final(self).functions == old(self).functions,
            final(self).loop_stack == old(self).loop_stack,
    {
        let ghost before = self.emitted();
        self.compile_expr(expr);
        self.emit(last);
        assert(self.emitted() == before + expr_code(expr@).push(last@));
    }

    fn compile_if(&mut self, stmt: &Stmt) -> (r: Result<(), CompileError>)
        requires
            stmt is If,
        ensures
            match stmt_fault(stmt@, old(self).in_loop()) {
                Some(e) => r == Err::<(), CompileError>(e),
                None => {
                    &&& r is Ok
                    &&& final(self).emitted() == old(self).emitted() + stmt_code(
                        stmt@,
                        old(self).code@.len(),
                        old(self).targets(),
                    )
                    &&& final(self).code@.len() == old(self).code@.len() + stmt_len(stmt@)
                    &&& old(self).in_loop() ==> final(self).pending() == old(self).pending()
                        + stmt_sites(stmt@, old(self).code@.len(), LoopExit::Break)
                    &&& final(self).same_context(old(self))
                },
            },
        decreases stmt, 0nat,
    {
        let ghost before = self.emitted();
        let ghost at = self.code@.len();
        let ghost lp = self.targets();
        let ghost waiting = self.pending();
        match stmt {
            Stmt::If { condition, then_block, else_block } => {
                self.compile_expr(condition);
                let jmp_false = self.code.len();
                self.emit(Instruction::JumpIfFalse(PLACEHOLDER));
                let ghost then_at = self.code@.len();
                match self.compile_block(then_block) {
                    Err(e) => {
                        return Err(e);
                    },
                    Ok(()) => {},
                }
                let jmp_end = self.code.len();
                self.emit(Instruction::Jump(PLACEHOLDER));
                let else_start = self.code.len();
                let ghost middle = self.emitted();
                let ghost queued = self.pending();
                match else_block {
                    Some(b) => {
                        match self.compile_block(b) {
                            Err(e) => {
                                return Err(e);
                            },
                            Ok(()) => {},
                        }
                    },
                    None => {
                        assert(self.emitted() == middle + else_code(
                            stmt@->else_block,
                            else_start as nat,
                            lp,
                        ));
                        assert(self.pending() == queued + else_sites(
                            stmt@->else_block,
                            else_start as nat,
                            LoopExit::Break,
                        ));
                    },
                }
                let end = self.code.len();
                let ghost unpatched = self.emitted();
                self.patch(jmp_false, Instruction::JumpIfFalse(else_start));
                self.patch(jmp_end, Instruction::Jump(end));
                proof {
                    lemma_if_layout(
                        before,
                        expr_code(condition@),
                        block_code(then_block@, then_at, lp),
                        else_code(stmt@->else_block, else_start as nat, lp),
                        else_start as nat,
                        end as nat,
                    );
                    if old(self).in_loop() {
                        assert(self.pending() == waiting + stmt_sites(stmt@, at, LoopExit::Break)) by {
                            assert(self.pending() == (waiting + block_sites(then_block@, then_at, LoopExit::Break))
                                + else_sites(stmt@->else_block, else_start as nat, LoopExit::Break));
                        }
                    }
                }
                Ok(())
            },
            _ => unreached(),
        }
    }

    fn compile_while(&mut self, stmt: &Stmt) -> (r: Result<(), CompileError>)
        requires
            stmt is While,
        ensures
            match stmt_fault(stmt@, old(self).in_loop()) {
                Some(e) => r == Err::<(), CompileError>(e),
                None => {
                    &&& r is Ok
                    &&& final(self).emitted() == old(self).emitted() + stmt_code(
                        stmt@,
                        old(self).code@.len(),
                        old(self).targets(),
                    )
                    &&& final(self).code@.len() == old(self).code@.len() + stmt_len(stmt@)
                    &&& final(self).loop_stack@ == old(self).loop_stack@
                    &&& final(self).functions == old(self).functions
                },
            },
        decreases stmt, 0nat,
    {
        let ghost before = self.emitted();
        match stmt {
            Stmt::While { condition, body } => {
                let start = self.code.len();
                self.compile_expr(condition);
                let exit = self.code.len();
                self.emit(Instruction::JumpIfFalse(PLACEHOLDER));
                self.loop_stack.push(LoopContext { start, breaks: Vec::new() });
                let ghost body_at = self.code@.len();
                let ghost inner = LoopTargets { start: start as nat, end: PLACEHOLDER as nat };
                assert(self.pending() == Seq::<nat>::empty());
                assert(self.loop_stack@.drop_last() == old(self).loop_stack@);
                match self.compile_block(body) {
                    Err(e) => {
                        return Err(e);
                    },
                    Ok(()) => {},
                }
                assert(self.pending() == block_sites(body@, body_at, LoopExit::Break));
                self.emit(Instruction::Jump(start));
                let end = self.code.len();
                self.patch(exit, Instruction::JumpIfFalse(end));
                let ctx = match self.loop_stack.pop() {
                    Some(ctx) => ctx,
                    None => unreached(),
                };
                let ghost sites = sites_view(ctx.breaks@);
                proof {
                    lemma_patch_block(body@, body_at, inner, LoopExit::Break, end as nat);
                    assert forall|k: int| 0 <= k < ctx.breaks@.len() implies ctx.breaks@[k]
                        < self.code@.len() by {
                        assert(sites[k] == ctx.breaks@[k]);
                    }
                }
                self.patch_breaks(&ctx.breaks, end);
                proof {
                    lemma_while_layout(
                        before,
                        expr_code(condition@),
                        block_code(body@, body_at, inner),
                        sites,
                        start as nat,
                        end as nat,
                    );
                }
                Ok(())
            },
            _ => unreached(),
        }
    }

    fn compile_break(&mut self) -> (r: Result<(), CompileError>)
        ensures
            match stmt_fault(crate::ast::SpecStmt::Break, old(self).in_loop()) {
                Some(e) => r == Err::<(), CompileError>(e),
                None => {
                    &&& r is Ok
                    &&& final(self).emitted() == old(self).emitted().push(
                        SpecInstruction::Jump(PLACEHOLDER as nat),
                    )
                    &&& final(self).code@.len() == old(self).code@.len() + 1
                    &&& final(self).pending() == old(self).pending().push(old(self).code@.len())
                    &&& final(self).same_context(old(self))
                },
            },
    {
        match self.loop_stack.pop() {
            None => Err(CompileError::BreakOutsideLoop),
            Some(ctx) => {
                let mut ctx = ctx;
                let pos = self.code.len();
                assert(sites_view(ctx.breaks@.push(pos)) == sites_view(ctx.breaks@).push(
                    pos as nat,
                ));
                ctx.breaks.push(pos);
                self.loop_stack.push(ctx);
                self.emit(Instruction::Jump(PLACEHOLDER));
                assert(self.loop_stack@.drop_last() == old(self).loop_stack@.drop_last());
                Ok(())
            },
        }
    }

    fn compile_continue(&mut self) -> (r: Result<(), CompileError>)
        ensures
            match stmt_fault(crate::ast::SpecStmt::Continue, old(self).in_loop()) {
                Some(e) => r == Err::<(), CompileError>(e),
                None => {
                    &&& r is Ok
                    &&& final(self).emitted() == old(self).emitted().push(
                        SpecInstruction::Jump(old(self).targets().start),
                    )
                    &&& final(self).code@.len() == old(self).code@.len() + 1
                    &&& final(self).functions == old(self).functions
                    &&& final(self).loop_stack == old(self).loop_stack
                },
            },
    {
        let n = self.loop_stack.len();
        if n == 0 {
            return Err(CompileError::ContinueOutsideLoop);
        }
        let start = self.loop_stack[n - 1].start;
        self.emit(Instruction::Jump(start));
        Ok(())
    }

    fn compile_stmt(&mut self, stmt: &Stmt) -> (r: Result<(), CompileError>)
        ensures
            match stmt_fault(stmt@, old(self).in_loop()) {
                Some(e) => r == Err::<(), CompileError>(e),
                None => {
                    &&& r is Ok
                    &&& final(self).emitted() == old(self).emitted() + stmt_code(
                        stmt@,
                        old(self).code@.len(),
                        old(self).targets(),
                    )
                    &&& final(self).code@.len() == old(self).code@.len() + stmt_len(stmt@)
                    &&& old(self).in_loop() ==> final(self).pending() == old(self).pending()
                        + stmt_sites(stmt@, old(self).code@.len(), LoopExit::Break)
                    &&& final(self).same_context(old(self))
                },
            },
        decreases stmt, 1nat,
    {
        let ghost at = self.code@.len();
        let ghost waiting = self.pending();
        let ghost none = Seq::<nat>::empty();
        assert(waiting + none == waiting);
        match stmt {
            Stmt::Let { name, value } => {
                self.compile_store(name, value);
                Ok(())
            },
            Stmt::Assign { name, value } => {
                self.compile_store(name, value);
                Ok(())
            },
            Stmt::ExprStmt(expr) => {
                self.compile_then(expr, Instruction::Pop);
                Ok(())
            },
            Stmt::Return(expr) => {
                self.compile_then(expr, Instruction::Return);
                Ok(())
            },
            Stmt::If { .. } => self.compile_if(stmt),
            Stmt::While { .. } => self.compile_while(stmt),
            Stmt::Break => {
                let r = self.compile_break();
                assert(r is Ok ==> self.emitted() == old(self).emitted() + stmt_code(
                    stmt@,
                    at,
                    old(self).targets(),
                ));
                assert(r is Ok ==> self.pending() == waiting + stmt_sites(stmt@, at, LoopExit::Break));
                r
            },
            Stmt::Continue => {
                let r = self.compile_continue();
                assert(r is Ok ==> self.emitted() == old(self).emitted() + stmt_code(
                    stmt@,
                    at,
                    old(self).targets(),
                ));
                r
            },
        }
    }

    fn compile_block(&mut self, block: &Block) -> (r: Result<(), CompileError>)
        ensures
            match block_fault(block@, old(self).in_loop()) {
                Some(e) => r == Err::<(), CompileError>(e),
                None => {
                    &&& r is Ok
                    &&& final(self).emitted() == old(self).emitted() + block_code(
                        block@,
                        old(self).code@.len(),
                        old(self).targets(),
                    )
                    &&& final(self).code@.len() == old(self).code@.len() + block_len(block@)
                    &&& old(self).in_loop() ==> final(self).pending() == old(self).pending()
                        + block_sites(block@, old(self).code@.len(), LoopExit::Break)
                    &&& final(self).same_context(old(self))
                },
            },
        decreases block, 0nat,
    {
        let ghost before = self.emitted();
        let ghost at = self.code@.len();
        let ghost lp = self.targets();
        let ghost looping = self.in_loop();
        let ghost waiting = self.pending();
        self.emit(Instruction::EnterScope);
        let ghost enter = seq![SpecInstruction::EnterScope];
        let mut i: usize = 0;
        assert(self.emitted() == (before + enter) + stmts_code(block@, 0, at + 1, lp));
        assert(self.pending() == waiting + stmts_sites(block@, 0, at + 1, LoopExit::Break));
        while i < block.statements.len()
            invariant
                i <= block.statements.len(),
                block@.len() == block.statements.len(),
                before == old(self).emitted(),
                at == old(self).code@.len(),
                lp == old(self).targets(),
                looping == old(self).in_loop(),
                waiting == old(self).pending(),
                enter == seq![SpecInstruction::EnterScope],
                self.targets() == lp,
                self.in_loop() == looping,
                stmts_fault(block@, i as nat, looping) is None,
                self.emitted() == (before + enter) + stmts_code(block@, i as nat, at + 1, lp),
                self.code@.len() == at + 1 + stmts_len(block@, i as nat),
                looping ==> self.pending() == waiting + stmts_sites(block@, i as nat, at + 1, LoopExit::Break),
                self.same_context(old(self)),
            decreases block.statements.len() - i,
        {
            let ghost so_far = self.emitted();
            let ghost here = self.code@.len();
            let ghost queued = self.pending();
            assert(block@[i as int] == block.statements[i as int]@);
            proof {
                lemma_stmt_code_len(block@[i as int], here, lp);
            }
            match self.compile_stmt(&block.statements[i]) {
                Err(e) => {
                    proof {
                        lemma_stmts_fault_stable(block@, (i + 1) as nat, looping);
                    }
                    return Err(e);
                },
                Ok(()) => {},
            }
            assert(self.emitted() == (before + enter) + stmts_code(
                block@,
                (i + 1) as nat,
                at + 1,
                lp,
            )) by {
                assert(self.emitted() == ((before + enter) + stmts_code(
                    block@,
                    i as nat,
                    at + 1,
                    lp,
                )) + stmt_code(block@[i as int], here, lp));
            }
            assert(looping ==> self.pending() == waiting + stmts_sites(
                block@,
                (i + 1) as nat,
                at + 1,
                LoopExit::Break,
            )) by {
                if looping {
                    assert(self.pending() == (waiting + stmts_sites(block@, i as nat, at + 1, LoopExit::Break))
                        + stmt_sites(block@[i as int], here, LoopExit::Break));
                }
            }
            i = i + 1;
        }
        self.emit(Instruction::ExitScope);
        assert(self.emitted() == before + block_code(block@, at, lp));
        Ok(())
    }

    fn compile_function(&mut self, func: &FunctionDecl) -> (r: Result<(), CompileError>)
        requires
            !old(self).in_loop(),
        ensures
            match block_fault(func@.body, false) {
                Some(e) => r == Err::<(), CompileError>(e),
                None => {
                    &&& r is Ok
                    &&& final(self).emitted() == old(self).emitted() + function_code(
                        func@,
                        old(self).code@.len(),
                    )
                    &&& final(self).code@.len() == old(self).code@.len() + function_len(func@)
                    &&& final(self).functions == old(self).functions
                    &&& !final(self).in_loop()
                },
            },
    {
        let ghost before = self.emitted();
        let ghost at = self.code@.len();
        let ghost params = func@.params;
        let n = func.params.len();
        let mut i: usize = 0;
        assert(self.emitted() == before + params_code(params).take(0));
        while i < n
            invariant
                i <= n,
                n == func.params.len(),
                params == func@.params,
                before == old(self).emitted(),
                at == old(self).code@.len(),
                self.emitted() == before + params_code(params).take(i as int),
                self.code@.len() == at + i,
                self.functions == old(self).functions,
                self.loop_stack == old(self).loop_stack,
            decreases n - i,
        {
            let ghost so_far = self.emitted();
            self.emit(Instruction::StoreVar(func.params[n - 1 - i].clone()));
            assert(self.emitted() == before + params_code(params).take(i + 1)) by {
                assert(params_code(params).take(i + 1) == params_code(params).take(
                    i as int,
                ).push(params_code(params)[i as int]));
            }
            i = i + 1;
        }
        assert(params_code(params).take(n as int) == params_code(params));
        match self.compile_block(&func.body) {
            Err(e) => {
                return Err(e);
            },
            Ok(()) => {},
        }
        self.emit(Instruction::PushVoid);
        self.emit(Instruction::Return);
        assert(self.emitted() == before + function_code(func@, at));
        Ok(())
    }

    /// Compiles the functions of a program in program order.
    fn compile_program(self, program: &AstProgram) -> (r: Result<Program, CompileError>)
        requires
            self.is_fresh(),
        ensures
            match compile(program@) {
                Ok(p) => r matches Ok(q) && q@ == p,
                Err(e) => r == Err::<Program, CompileError>(e),
            },
    {
        let mut this = self;
        let ghost fs = program@.functions;
        let mut i: usize = 0;
        assert(functions_view(this.functions@) == function_table(fs).take(0));
        assert(this.emitted() == functions_code(fs, 0));
        while i < program.functions.len()
            invariant
                i <= program.functions.len(),
                fs == program@.functions,
                fs.len() == program.functions.len(),
                !this.in_loop(),
                functions_fault(fs, i as nat) is None,
                this.emitted() == functions_code(fs, i as nat),
                this.code@.len() == functions_len(fs, i as nat),
                functions_view(this.functions@) == function_table(fs).take(i as int),
            decreases program.functions.len() - i,
        {
            let func = &program.functions[i];
            assert(fs[i as int] == func@);
            let entry = this.code.len();
            match this.compile_function(func) {
                Err(e) => {
                    proof {
                        lemma_functions_fault_stable(fs, (i + 1) as nat);
                    }
                    return Err(e);
                },
                Ok(()) => {},
            }
            let f = Function { name: func.name.clone(), arity: func.params.len(), entry };
            assert(f@ == table_entry(fs, i as int));
            assert(functions_view(this.functions@.push(f)) == function_table(fs).take(i + 1)) by {
                assert(function_table(fs).take(i + 1) == function_table(fs).take(i as int).push(
                    table_entry(fs, i as int),
                ));
                assert(functions_view(this.functions@.push(f)) == functions_view(
                    this.functions@,
                ).push(f@));
            }
            this.functions.push(f);
            i = i + 1;
        }
        assert(function_table(fs).take(i as int) == function_table(fs));
        Ok(Program { functions: this.functions, code: this.code })
    }
}

impl BytecodeCompiler {
    /// A compiler has compiled nothing yet.
    #[verifier::type_invariant]
    spec fn unused(self) -> bool {
        self.emitter.is_fresh()
    }

    /// The instructions that the compiler holds.
    pub closed spec fn emitted(&self) -> Seq<SpecInstruction> {
        self.emitter.emitted()
    }

    /// A compiler that holds no code.
    pub fn new() -> (c: Self)
        ensures
            c.emitted() == Seq::<SpecInstruction>::empty(),
    {
        let c = BytecodeCompiler { emitter: Emitter::new() };
        assert(c.emitted() == Seq::<SpecInstruction>::empty());
        c
    }

    /// Compiles a program: the code of its functions in program order,
    /// and the table of their entries. A `break` or `continue` outside a
    /// loop, which semantic analysis rejects, is refused here as well.
    pub fn compile(self, program: &AstProgram) -> (r: Result<Program, CompileError>)
        ensures
            match compile(program@) {
                Ok(p) => r matches Ok(q) && q@ == p,
                Err(e) => r == Err::<Program, CompileError>(e),
            },
    {
        proof {
            use_type_invariant(&self);
        }
        self.emitter.compile_program(program)
    }
}

} // verus!
