//! What semantic analysis guarantees of compilation: a program that
//! passes the analysis holds no `break` or `continue` outside a loop,
//! and so the compiler accepts it.

use super::lowering::{block_fault, compile, functions_fault, stmt_fault, stmts_fault};
use crate::ast::{SpecBlock, SpecFunctionDecl, SpecProgram as SpecAst, SpecStmt};
use crate::semantic::{
    block_error, check_stmt, check_stmts, fresh, functions_error, is_valid, SpecNames,
    SpecSignature,
};
use vstd::prelude::*;

verus! {

/// A statement that passes semantic analysis holds no stray `break` or
/// `continue`.
pub proof fn lemma_checked_stmt_compiles(
    s: SpecStmt,
    scopes: Seq<SpecNames>,
    in_loop: bool,
    table: Seq<SpecSignature>,
)
    requires
        check_stmt(s, scopes, in_loop, table) is Ok,
    ensures
        stmt_fault(s, in_loop) is None,
    decreases s, 0nat,
{
    match s {
        SpecStmt::If { condition, then_block, else_block } => {
            lemma_checked_block_compiles(then_block, scopes, in_loop, table);
            match else_block {
                Some(b) => lemma_checked_block_compiles(b, scopes, in_loop, table),
                None => {},
            }
        },
        SpecStmt::While { condition, body } => {
            lemma_checked_block_compiles(body, scopes, true, table);
        },
        _ => {},
    }
}

/// A block that passes semantic analysis holds no stray `break` or
/// `continue`.
pub proof fn lemma_checked_block_compiles(
    b: SpecBlock,
    scopes: Seq<SpecNames>,
    in_loop: bool,
    table: Seq<SpecSignature>,
)
    requires
        block_error(b, scopes, in_loop, table) is None,
    ensures
        block_fault(b, in_loop) is None,
    decreases b, b.len() + 1,
{
    lemma_checked_stmts_compile(b, b.len(), scopes.push(Set::empty()), in_loop, table);
}

/// Statements that pass semantic analysis hold no stray `break` or
/// `continue`.
pub proof fn lemma_checked_stmts_compile(
    b: SpecBlock,
    n: nat,
    scopes: Seq<SpecNames>,
    in_loop: bool,
    table: Seq<SpecSignature>,
)
    requires
        check_stmts(b, n, scopes, in_loop, table) is Ok,
    ensures
        stmts_fault(b, n, in_loop) is None,
    decreases b, n,
{
    if n == 0 || n > b.len() {
    } else {
        let m = (n - 1) as nat;
        lemma_checked_stmts_compile(b, m, scopes, in_loop, table);
        let next = check_stmts(b, m, scopes, in_loop, table)->Ok_0;
        lemma_checked_stmt_compiles(b[n - 1], next, in_loop, table);
    }
}

/// Functions that pass semantic analysis outside a loop hold no stray
/// `break` or `continue`.
pub proof fn lemma_checked_functions_compile(
    fs: Seq<SpecFunctionDecl>,
    n: nat,
    scopes: Seq<SpecNames>,
    table: Seq<SpecSignature>,
)
    requires
        functions_error(fs, n, scopes, false, table) is None,
    ensures
        functions_fault(fs, n) is None,
    decreases n,
{
    if n == 0 || n > fs.len() {
    } else {
        lemma_checked_functions_compile(fs, (n - 1) as nat, scopes, table);
        let f = fs[n - 1];
        lemma_checked_block_compiles(
            f.body,
            scopes.push(crate::semantic::names_set(f.params)),
            false,
            table,
        );
    }
}

/// A program that passes semantic analysis compiles: the compiler's own
/// check for a `break` or `continue` outside a loop never fires on it.
pub proof fn lemma_valid_program_compiles(p: SpecAst)
    requires
        is_valid(p),
    ensures
        compile(p) is Ok,
{
    let st = fresh();
    let table = crate::semantic::collect(st.functions, p.functions, p.functions.len())->Ok_0;
    lemma_checked_functions_compile(p.functions, p.functions.len(), st.scopes, table);
}

} // verus!
