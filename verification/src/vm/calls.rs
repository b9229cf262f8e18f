//! Calls and the function table: in the code of a program that passed
//! semantic analysis every call names a function of the table and passes
//! as many arguments as the function takes.

use super::bytecode::{find_function, SpecFunction, SpecInstruction};
use super::checked::lemma_valid_program_compiles;
use super::lowering::{
    args_code, block_code, block_len, call_instruction, compile, else_code, else_len, expr_code,
    function_code, functions_code, functions_len, op_instruction, params_code, stmt_code,
    stmts_code, stmts_len, LoopTargets,
};
use crate::ast::{SpecBlock, SpecExpr, SpecFunctionDecl, SpecProgram as SpecSource, SpecStmt};
use crate::semantic::{
    args_error, arity_of, block_error, check_stmt, check_stmts, collect, expr_error, fresh,
    functions_error, is_valid, lemma_args_error_prefix, names_set, SpecNames, SpecSignature,
};
use vstd::prelude::*;

verus! {

/// Whether every call in `code` names a function of the table and passes
/// as many arguments as the table says; a call of `print` is none of
/// them, as `print` has an instruction of its own.
pub open spec fn calls_fit(code: Seq<SpecInstruction>, table: Seq<SpecSignature>) -> bool {
    forall|i: int|
        0 <= i < code.len() ==> ((#[trigger] code[i]) matches SpecInstruction::Call(name, argc)
            ==> name != "print"@ && arity_of(table, name) == Some(argc))
}

/// Two pieces of code whose calls fit, one behind the other.
pub proof fn lemma_calls_concat(
    a: Seq<SpecInstruction>,
    b: Seq<SpecInstruction>,
    table: Seq<SpecSignature>,
)
    requires
        calls_fit(a, table),
        calls_fit(b, table),
    ensures
        calls_fit(a + b, table),
{
    assert forall|i: int| 0 <= i < (a + b).len() implies ((#[trigger] (a + b)[i])
        matches SpecInstruction::Call(name, argc) ==> name != "print"@ && arity_of(table, name)
        == Some(argc)) by {
        if i < a.len() {
            assert((a + b)[i] == a[i]);
        } else {
            assert((a + b)[i] == b[i - a.len()]);
        }
    }
}

/// Code whose calls fit, and one more instruction that is no call or a
/// call that fits.
pub proof fn lemma_calls_push(
    a: Seq<SpecInstruction>,
    x: SpecInstruction,
    table: Seq<SpecSignature>,
)
    requires
        calls_fit(a, table),
        x matches SpecInstruction::Call(name, argc) ==> name != "print"@ && arity_of(table, name)
            == Some(argc),
    ensures
        calls_fit(a.push(x), table),
{
    assert forall|i: int| 0 <= i < a.push(x).len() implies ((#[trigger] a.push(x)[i])
        matches SpecInstruction::Call(name, argc) ==> name != "print"@ && arity_of(table, name)
        == Some(argc)) by {
        if i < a.len() {
            assert(a.push(x)[i] == a[i]);
        }
    }
}

/// The calls in the code of an expression without violation fit.
pub proof fn lemma_expr_calls(e: SpecExpr, scopes: Seq<SpecNames>, table: Seq<SpecSignature>)
    requires
        expr_error(e, scopes, table) is None,
    ensures
        calls_fit(expr_code(e), table),
    decreases e, 0nat,
{
    match e {
        SpecExpr::Binary { left, op, right } => {
            lemma_expr_calls(*left, scopes, table);
            lemma_expr_calls(*right, scopes, table);
            lemma_calls_concat(expr_code(*left), expr_code(*right), table);
            lemma_calls_push(expr_code(*left) + expr_code(*right), op_instruction(op), table);
        },
        SpecExpr::Call { name, args } => {
            lemma_args_calls(args, args.len(), args.len(), scopes, table);
            lemma_calls_push(
                args_code(args, args.len()),
                call_instruction(name, args.len()),
                table,
            );
        },
        _ => {},
    }
}

/// The calls in the code of the first `n` arguments of a call without
/// violation fit.
pub proof fn lemma_args_calls(
    args: Seq<SpecExpr>,
    n: nat,
    m: nat,
    scopes: Seq<SpecNames>,
    table: Seq<SpecSignature>,
)
    requires
        n <= m <= args.len(),
        args_error(args, m, scopes, table) is None,
    ensures
        calls_fit(args_code(args, n), table),
    decreases args, n,
{
    if n > 0 {
        let k = (n - 1) as nat;
        lemma_args_error_prefix(args, n, m, scopes, table);
        lemma_args_calls(args, k, m, scopes, table);
        lemma_expr_calls(args[n - 1], scopes, table);
        lemma_calls_concat(args_code(args, k), expr_code(args[n - 1]), table);
    }
}

/// The calls in the code of a statement that passes semantic analysis
/// fit.
pub proof fn lemma_stmt_calls(
    s: SpecStmt,
    at: nat,
    lp: LoopTargets,
    scopes: Seq<SpecNames>,
    in_loop: bool,
    table: Seq<SpecSignature>,
)
    requires
        check_stmt(s, scopes, in_loop, table) is Ok,
    ensures
        calls_fit(stmt_code(s, at, lp), table),
    decreases s, 0nat,
{
    match s {
        SpecStmt::Let { name, value } => {
            lemma_expr_calls(value, scopes, table);
            lemma_calls_push(expr_code(value), SpecInstruction::StoreVar(name), table);
        },
        SpecStmt::Assign { name, value } => {
            lemma_expr_calls(value, scopes, table);
            lemma_calls_push(expr_code(value), SpecInstruction::StoreVar(name), table);
        },
        SpecStmt::ExprStmt(e) => {
            lemma_expr_calls(e, scopes, table);
            lemma_calls_push(expr_code(e), SpecInstruction::Pop, table);
        },
        SpecStmt::Return(e) => {
            lemma_expr_calls(e, scopes, table);
            lemma_calls_push(expr_code(e), SpecInstruction::Return, table);
        },
        SpecStmt::If { condition, then_block, else_block } => {
            let then_at = at + expr_code(condition).len() + 1;
            let else_at = then_at + block_len(then_block) + 1;
            let end = else_at + else_len(else_block);
            let head = expr_code(condition).push(SpecInstruction::JumpIfFalse(else_at));
            let middle = block_code(then_block, then_at, lp).push(SpecInstruction::Jump(end));
            lemma_expr_calls(condition, scopes, table);
            lemma_calls_push(expr_code(condition), SpecInstruction::JumpIfFalse(else_at), table);
            lemma_block_calls(then_block, then_at, lp, scopes, in_loop, table);
            lemma_calls_push(
                block_code(then_block, then_at, lp),
                SpecInstruction::Jump(end),
                table,
            );
            match else_block {
                Some(b) => lemma_block_calls(b, else_at, lp, scopes, in_loop, table),
                None => {},
            }
            lemma_calls_concat(head, middle, table);
            lemma_calls_concat(head + middle, else_code(else_block, else_at, lp), table);
        },
        SpecStmt::While { condition, body } => {
            let body_at = at + expr_code(condition).len() + 1;
            let end = body_at + block_len(body) + 1;
            let inner = LoopTargets { start: at, end };
            let head = expr_code(condition).push(SpecInstruction::JumpIfFalse(end));
            lemma_expr_calls(condition, scopes, table);
            lemma_calls_push(expr_code(condition), SpecInstruction::JumpIfFalse(end), table);
            lemma_block_calls(body, body_at, inner, scopes, true, table);
            lemma_calls_push(block_code(body, body_at, inner), SpecInstruction::Jump(at), table);
            lemma_calls_concat(
                head,
                block_code(body, body_at, inner).push(SpecInstruction::Jump(at)),
                table,
            );
        },
        SpecStmt::Break => {},
        SpecStmt::Continue => {},
    }
}

/// The calls in the code of a block that passes semantic analysis fit.
pub proof fn lemma_block_calls(
    b: SpecBlock,
    at: nat,
    lp: LoopTargets,
    scopes: Seq<SpecNames>,
    in_loop: bool,
    table: Seq<SpecSignature>,
)
    requires
        block_error(b, scopes, in_loop, table) is None,
    ensures
        calls_fit(block_code(b, at, lp), table),
    decreases b, b.len() + 1,
{
    let enter = seq![SpecInstruction::EnterScope];
    let inner = stmts_code(b, b.len(), at + 1, lp);
    lemma_stmts_calls(b, b.len(), at + 1, lp, scopes.push(Set::empty()), in_loop, table);
    lemma_calls_concat(enter, inner, table);
    lemma_calls_push(enter + inner, SpecInstruction::ExitScope, table);
}

/// The calls in the code of the first `n` statements of a block that
/// pass semantic analysis fit.
pub proof fn lemma_stmts_calls(
    b: SpecBlock,
    n: nat,
    at: nat,
    lp: LoopTargets,
    scopes: Seq<SpecNames>,
    in_loop: bool,
    table: Seq<SpecSignature>,
)
    requires
        n <= b.len(),
        check_stmts(b, n, scopes, in_loop, table) is Ok,
    ensures
        calls_fit(stmts_code(b, n, at, lp), table),
    decreases b, n,
{
    if n > 0 {
        let m = (n - 1) as nat;
        let mid = check_stmts(b, m, scopes, in_loop, table)->Ok_0;
        lemma_stmts_calls(b, m, at, lp, scopes, in_loop, table);
        lemma_stmt_calls(b[n - 1], at + stmts_len(b, m), lp, mid, in_loop, table);
        lemma_calls_concat(
            stmts_code(b, m, at, lp),
            stmt_code(b[n - 1], at + stmts_len(b, m), lp),
            table,
        );
    }
}

/// The calls in the code of the first `n` functions of a program that
/// pass semantic analysis fit.
pub proof fn lemma_functions_calls(
    fs: Seq<SpecFunctionDecl>,
    n: nat,
    scopes: Seq<SpecNames>,
    table: Seq<SpecSignature>,
)
    requires
        n <= fs.len(),
        functions_error(fs, n, scopes, false, table) is None,
    ensures
        calls_fit(functions_code(fs, n), table),
    decreases n,
{
    if n > 0 {
        let m = (n - 1) as nat;
        let f = fs[n - 1];
        let at = functions_len(fs, m);
        let lp = LoopTargets { start: 0, end: 0 };
        let prologue = params_code(f.params);
        let body = block_code(f.body, at + f.params.len(), lp);
        lemma_functions_calls(fs, m, scopes, table);
        lemma_block_calls(
            f.body,
            at + f.params.len(),
            lp,
            scopes.push(names_set(f.params)),
            false,
            table,
        );
        assert(calls_fit(prologue, table));
        lemma_calls_concat(prologue, body, table);
        lemma_calls_push(prologue + body, SpecInstruction::PushVoid, table);
        lemma_calls_push(
            (prologue + body).push(SpecInstruction::PushVoid),
            SpecInstruction::Return,
            table,
        );
        lemma_calls_concat(functions_code(fs, m), function_code(f, at), table);
    }
}

/// The table that semantic analysis collects from nothing holds one
/// entry for each function, in program order, with the parameter count.
pub proof fn lemma_collected(fs: Seq<SpecFunctionDecl>, n: nat)
    requires
        n <= fs.len(),
        collect(Seq::empty(), fs, n) is Ok,
    ensures
        collect(Seq::empty(), fs, n)->Ok_0.len() == n,
        forall|k: int|
            0 <= k < n ==> #[trigger] collect(Seq::empty(), fs, n)->Ok_0[k] == (SpecSignature {
                name: fs[k].name,
                arity: fs[k].params.len(),
            }),
    decreases n,
{
    if n > 0 {
        lemma_collected(fs, (n - 1) as nat);
    }
}

/// A table of signatures and a function table that agree entry by entry
/// on names and parameter counts give every name the same parameter
/// count.
pub proof fn lemma_tables_agree(
    sigs: Seq<SpecSignature>,
    table: Seq<SpecFunction>,
    name: Seq<char>,
)
    requires
        sigs.len() == table.len(),
        forall|k: int|
            0 <= k < sigs.len() ==> (#[trigger] sigs[k]).name == table[k].name && sigs[k].arity
                == table[k].arity,
    ensures
        arity_of(sigs, name) == match find_function(table, name) {
            Some(f) => Some(f.arity),
            None => None,
        },
    decreases sigs.len(),
{
    if sigs.len() > 0 {
        assert(sigs.last() == sigs[sigs.len() - 1]);
        assert forall|k: int| 0 <= k < sigs.drop_last().len() implies (#[trigger] sigs.drop_last()[k]).name
            == table.drop_last()[k].name && sigs.drop_last()[k].arity
            == table.drop_last()[k].arity by {
            assert(sigs.drop_last()[k] == sigs[k]);
        }
        lemma_tables_agree(sigs.drop_last(), table.drop_last(), name);
    }
}

/// In the code of a program that passed semantic analysis every call
/// names a function of the program's table, other than `print`, and
/// passes exactly as many arguments as that function declares
/// parameters.
pub proof fn lemma_calls_match_arity(p: SpecSource, i: int)
    requires
        is_valid(p),
        0 <= i < compile(p)->Ok_0.code.len(),
        compile(p)->Ok_0.code[i] is Call,
    ensures
        compile(p) is Ok,
        ({
            let program = compile(p)->Ok_0;
            let name = program.code[i]->Call_0;
            let argc = program.code[i]->Call_1;
            &&& name != "print"@
            &&& find_function(program.functions, name) matches Some(f) && f.arity == argc
        }),
{
    lemma_valid_program_compiles(p);
    let fs = p.functions;
    let st = fresh();
    let sigs = collect(st.functions, fs, fs.len())->Ok_0;
    let program = compile(p)->Ok_0;
    let name = program.code[i]->Call_0;
    lemma_functions_calls(fs, fs.len(), st.scopes, sigs);
    lemma_collected(fs, fs.len());
    lemma_tables_agree(sigs, program.functions, name);
}

} // verus!
