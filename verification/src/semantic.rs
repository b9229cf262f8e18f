//! Semantic analysis: checks a program without changing it.
//!
//! The first pass collects the functions into a table and refuses a
//! name that is declared twice. The second pass walks each function with
//! a stack of lexical scopes and checks that every variable read or
//! assigned is visible, that every call names `print` or a known
//! function and passes the right number of arguments, and that `break`
//! and `continue` stand inside a loop. The first violation ends the
//! analysis.

use crate::ast::{
    names_view, Block, Expr, FunctionDecl, Program, SpecBlock, SpecExpr, SpecFunctionDecl,
    SpecProgram, SpecStmt, Stmt,
};
use crate::text::{decimal, nat_to_string};
use vstd::prelude::*;
use vstd::string::StringExecFns;

verus! {

/// Model of a semantic error.
pub enum SpecSemanticError {
    DuplicateFunction(Seq<char>),
    UndefinedVariable(Seq<char>),
    UndefinedFunction(Seq<char>),
    ArityMismatch { name: Seq<char>, expected: nat, found: nat },
    BreakOutsideLoop,
    ContinueOutsideLoop,
}

/// A violation that semantic analysis found.
#[derive(Debug, PartialEq, Eq)]
pub enum SemanticError {
    /// Two functions of the program have this name.
    DuplicateFunction(String),
    /// A variable is read or assigned that no active scope declares.
    UndefinedVariable(String),
    /// A call names neither `print` nor a function of the program.
    UndefinedFunction(String),
    /// A call passes another number of arguments than the callee takes.
    ArityMismatch { name: String, expected: usize, found: usize },
    /// A `break` stands outside every loop.
    BreakOutsideLoop,
    /// A `continue` stands outside every loop.
    ContinueOutsideLoop,
}

impl View for SemanticError {
    type V = SpecSemanticError;

    open spec fn view(&self) -> SpecSemanticError {
        match self {
            SemanticError::DuplicateFunction(n) => SpecSemanticError::DuplicateFunction(n@),
            SemanticError::UndefinedVariable(n) => SpecSemanticError::UndefinedVariable(n@),
            SemanticError::UndefinedFunction(n) => SpecSemanticError::UndefinedFunction(n@),
            SemanticError::ArityMismatch { name, expected, found } => {
                SpecSemanticError::ArityMismatch {
                    name: name@,
                    expected: *expected as nat,
                    found: *found as nat,
                }
            },
            SemanticError::BreakOutsideLoop => SpecSemanticError::BreakOutsideLoop,
            SemanticError::ContinueOutsideLoop => SpecSemanticError::ContinueOutsideLoop,
        }
    }
}

impl SpecSemanticError {
    /// The message that reports the error.
    pub open spec fn message(self) -> Seq<char> {
        match self {
            SpecSemanticError::DuplicateFunction(name) => "duplicate function `"@ + name + "`"@,
            SpecSemanticError::UndefinedVariable(name) => "undefined variable `"@ + name + "`"@,
            SpecSemanticError::UndefinedFunction(name) => "undefined function `"@ + name + "`"@,
            SpecSemanticError::ArityMismatch { name, expected, found } => "function `"@ + name
                + "` expects "@ + decimal(expected) + " args, got "@ + decimal(found),
            SpecSemanticError::BreakOutsideLoop => "break used outside loop"@,
            SpecSemanticError::ContinueOutsideLoop => "continue used outside loop"@,
        }
    }
}

/// `prefix`, the name, and a closing backquote.
fn quoted(prefix: &str, name: &String) -> (s: String)
    ensures
        s@ == prefix@ + name@ + "`"@,
{
    let mut s = String::from_str(prefix);
    s.append(name.as_str());
    s.append("`");
    s
}

impl SemanticError {
    /// The message that reports the error.
    pub fn message(&self) -> (m: String)
        ensures
            m@ == self@.message(),
    {
        match self {
            SemanticError::DuplicateFunction(name) => quoted("duplicate function `", name),
            SemanticError::UndefinedVariable(name) => quoted("undefined variable `", name),
            SemanticError::UndefinedFunction(name) => quoted("undefined function `", name),
            SemanticError::ArityMismatch { name, expected, found } => {
                let mut m = String::from_str("function `");
                m.append(name.as_str());
                m.append("` expects ");
                m.append(nat_to_string(*expected).as_str());
                m.append(" args, got ");
                m.append(nat_to_string(*found).as_str());
                m
            },
            SemanticError::BreakOutsideLoop => String::from_str("break used outside loop"),
            SemanticError::ContinueOutsideLoop => String::from_str("continue used outside loop"),
        }
    }
}

/// Model of a function table entry: a name and a parameter count.
pub struct SpecSignature {
    pub name: Seq<char>,
    pub arity: nat,
}

/// The parameter count that the table gives `name`: that of the last
/// entry of the name, if there is one.
pub open spec fn arity_of(table: Seq<SpecSignature>, name: Seq<char>) -> Option<nat>
    decreases table.len(),
{
    if table.len() == 0 {
        None
    } else if table.last().name == name {
        Some(table.last().arity)
    } else {
        arity_of(table.drop_last(), name)
    }
}

/// A scope of the analysis: the names declared in one block so far.
pub type SpecNames = Set<Seq<char>>;

/// Whether some active scope declares `name`.
pub open spec fn is_defined(scopes: Seq<SpecNames>, name: Seq<char>) -> bool {
    exists|i: int| 0 <= i < scopes.len() && #[trigger] scopes[i].contains(name)
}

/// The scopes after `name` was declared in the innermost one.
pub open spec fn declare(scopes: Seq<SpecNames>, name: Seq<char>) -> Seq<SpecNames>
    recommends
        scopes.len() > 0,
{
    scopes.update(scopes.len() - 1, scopes.last().insert(name))
}

/// What is wrong with a call's callee and argument count, if anything:
/// `print` takes one argument, a function of the program as many as it
/// declares, and no other name can be called.
pub open spec fn call_error(name: Seq<char>, argc: nat, table: Seq<SpecSignature>) -> Option<
    SpecSemanticError,
> {
    if name == "print"@ {
        if argc != 1 {
            Some(SpecSemanticError::ArityMismatch { name, expected: 1, found: argc })
        } else {
            None
        }
    } else {
        match arity_of(table, name) {
            Some(arity) => if argc != arity {
                Some(SpecSemanticError::ArityMismatch { name, expected: arity, found: argc })
            } else {
                None
            },
            None => Some(SpecSemanticError::UndefinedFunction(name)),
        }
    }
}

/// The first violation in an expression, if it has one. A call is
/// checked before its arguments, the arguments left to right.
pub open spec fn expr_error(e: SpecExpr, scopes: Seq<SpecNames>, table: Seq<SpecSignature>)
    -> Option<SpecSemanticError>
    decreases e, 0nat,
{
    match e {
        SpecExpr::VarRef(name) => if is_defined(scopes, name) {
            None
        } else {
            Some(SpecSemanticError::UndefinedVariable(name))
        },
        SpecExpr::Call { name, args } => match call_error(name, args.len(), table) {
            Some(err) => Some(err),
            None => args_error(args, args.len(), scopes, table),
        },
        SpecExpr::Binary { left, op, right } => match expr_error(*left, scopes, table) {
            Some(err) => Some(err),
            None => expr_error(*right, scopes, table),
        },
        SpecExpr::IntLiteral(_) => None,
        SpecExpr::StringLiteral(_) => None,
    }
}

/// The first violation among the first `n` arguments of a call.
pub open spec fn args_error(
    args: Seq<SpecExpr>,
    n: nat,
    scopes: Seq<SpecNames>,
    table: Seq<SpecSignature>,
) -> Option<SpecSemanticError>
    decreases args, n,
{
    if n == 0 || n > args.len() {
        None
    } else {
        match args_error(args, (n - 1) as nat, scopes, table) {
            Some(err) => Some(err),
            None => expr_error(args[n - 1], scopes, table),
        }
    }
}

/// Checks a statement: the scopes behind it, or its first violation.
/// Only `let` changes the scopes; a block leaves them as they were.
pub open spec fn check_stmt(
    s: SpecStmt,
    scopes: Seq<SpecNames>,
    in_loop: bool,
    table: Seq<SpecSignature>,
) -> Result<Seq<SpecNames>, SpecSemanticError>
    decreases s, 0nat,
{
    match s {
        SpecStmt::Let { name, value } => match expr_error(value, scopes, table) {
            Some(err) => Err(err),
            None => Ok(declare(scopes, name)),
        },
        SpecStmt::Assign { name, value } => if !is_defined(scopes, name) {
            Err(SpecSemanticError::UndefinedVariable(name))
        } else {
            match expr_error(value, scopes, table) {
                Some(err) => Err(err),
                None => Ok(scopes),
            }
        },
        SpecStmt::Return(e) => match expr_error(e, scopes, table) {
            Some(err) => Err(err),
            None => Ok(scopes),
        },
        SpecStmt::ExprStmt(e) => match expr_error(e, scopes, table) {
            Some(err) => Err(err),
            None => Ok(scopes),
        },
        SpecStmt::If { condition, then_block, else_block } => match expr_error(
            condition,
            scopes,
            table,
        ) {
            Some(err) => Err(err),
            None => match block_error(then_block, scopes, in_loop, table) {
                Some(err) => Err(err),
                None => match else_error(else_block, scopes, in_loop, table) {
                    Some(err) => Err(err),
                    None => Ok(scopes),
                },
            },
        },
        SpecStmt::While { condition, body } => match expr_error(condition, scopes, table) {
            Some(err) => Err(err),
            None => match block_error(body, scopes, true, table) {
                Some(err) => Err(err),
                None => Ok(scopes),
            },
        },
        SpecStmt::Break => if in_loop {
            Ok(scopes)
        } else {
            Err(SpecSemanticError::BreakOutsideLoop)
        },
        SpecStmt::Continue => if in_loop {
            Ok(scopes)
        } else {
            Err(SpecSemanticError::ContinueOutsideLoop)
        },
    }
}

/// The first violation in an optional else-block.
pub open spec fn else_error(
    b: Option<SpecBlock>,
    scopes: Seq<SpecNames>,
    in_loop: bool,
    table: Seq<SpecSignature>,
) -> Option<SpecSemanticError>
    decreases b, 0nat,
{
    match b {
        Some(b) => block_error(b, scopes, in_loop, table),
        None => None,
    }
}

/// The first violation in a block, which is checked in a new scope of
/// its own.
pub open spec fn block_error(
    b: SpecBlock,
    scopes: Seq<SpecNames>,
    in_loop: bool,
    table: Seq<SpecSignature>,
) -> Option<SpecSemanticError>
    decreases b, b.len() + 1,
{
    match check_stmts(b, b.len(), scopes.push(Set::empty()), in_loop, table) {
        Ok(_) => None,
        Err(err) => Some(err),
    }
}

/// Checks the first `n` statements of a block in order: the scopes
/// behind them, or the first violation.
pub open spec fn check_stmts(
    b: SpecBlock,
    n: nat,
    scopes: Seq<SpecNames>,
    in_loop: bool,
    table: Seq<SpecSignature>,
) -> Result<Seq<SpecNames>, SpecSemanticError>
    decreases b, n,
{
    if n == 0 || n > b.len() {
        Ok(scopes)
    } else {
        match check_stmts(b, (n - 1) as nat, scopes, in_loop, table) {
            Err(err) => Err(err),
            Ok(next) => check_stmt(b[n - 1], next, in_loop, table),
        }
    }
}

/// The names in a list, as a set.
pub open spec fn names_set(names: Seq<Seq<char>>) -> SpecNames {
    Set::new(|n: Seq<char>| names.contains(n))
}

/// The first violation in a function: its body is checked in a scope
/// that declares the parameters.
pub open spec fn function_error(
    f: SpecFunctionDecl,
    scopes: Seq<SpecNames>,
    in_loop: bool,
    table: Seq<SpecSignature>,
) -> Option<SpecSemanticError> {
    block_error(f.body, scopes.push(names_set(f.params)), in_loop, table)
}

/// The first violation among the first `n` functions.
pub open spec fn functions_error(
    fs: Seq<SpecFunctionDecl>,
    n: nat,
    scopes: Seq<SpecNames>,
    in_loop: bool,
    table: Seq<SpecSignature>,
) -> Option<SpecSemanticError>
    decreases n,
{
    if n == 0 || n > fs.len() {
        None
    } else {
        match functions_error(fs, (n - 1) as nat, scopes, in_loop, table) {
            Some(err) => Some(err),
            None => function_error(fs[n - 1], scopes, in_loop, table),
        }
    }
}

/// The table after the first `n` functions were entered into it, or the
/// first name that the table already held.
pub open spec fn collect(table: Seq<SpecSignature>, fs: Seq<SpecFunctionDecl>, n: nat) -> Result<
    Seq<SpecSignature>,
    SpecSemanticError,
>
    decreases n,
{
    if n == 0 || n > fs.len() {
        Ok(table)
    } else {
        match collect(table, fs, (n - 1) as nat) {
            Err(err) => Err(err),
            Ok(so_far) => if arity_of(so_far, fs[n - 1].name) is Some {
                Err(SpecSemanticError::DuplicateFunction(fs[n - 1].name))
            } else {
                Ok(
                    so_far.push(
                        SpecSignature { name: fs[n - 1].name, arity: fs[n - 1].params.len() },
                    ),
                )
            },
        }
    }
}

/// Model of the analyzer's state.
pub struct SpecAnalyzer {
    /// The functions collected so far.
    pub functions: Seq<SpecSignature>,
    /// The active scopes, innermost last.
    pub scopes: Seq<SpecNames>,
    /// Whether the walk is inside a loop.
    pub in_loop: bool,
}

/// The state of an analyzer that has analysed nothing.
pub open spec fn fresh() -> SpecAnalyzer {
    SpecAnalyzer { functions: Seq::empty(), scopes: Seq::empty(), in_loop: false }
}

/// What analysing a program does to an analyzer in state `st`: the state
/// behind a program without violation, which differs only by the
/// functions collected, or the first violation.
pub open spec fn analyze(st: SpecAnalyzer, p: SpecProgram) -> Result<
    SpecAnalyzer,
    SpecSemanticError,
> {
    match collect(st.functions, p.functions, p.functions.len()) {
        Err(err) => Err(err),
        Ok(table) => match functions_error(
            p.functions,
            p.functions.len(),
            st.scopes,
            st.in_loop,
            table,
        ) {
            Some(err) => Err(err),
            None => Ok(SpecAnalyzer { functions: table, ..st }),
        },
    }
}

/// Whether a program passes the analysis of a new analyzer.
pub open spec fn is_valid(p: SpecProgram) -> bool {
    analyze(fresh(), p) is Ok
}

/// A violation among the first `n` statements is the outcome of every
/// longer prefix.
pub proof fn lemma_check_stmts_stable(
    b: SpecBlock,
    n: nat,
    m: nat,
    scopes: Seq<SpecNames>,
    in_loop: bool,
    table: Seq<SpecSignature>,
)
    requires
        n <= m <= b.len(),
        check_stmts(b, n, scopes, in_loop, table) is Err,
    ensures
        check_stmts(b, m, scopes, in_loop, table) == check_stmts(b, n, scopes, in_loop, table),
    decreases m,
{
    if n < m {
        lemma_check_stmts_stable(b, n, (m - 1) as nat, scopes, in_loop, table);
    }
}

/// A violation among the first `n` arguments is the outcome of every
/// longer prefix.
pub proof fn lemma_args_error_stable(
    args: Seq<SpecExpr>,
    n: nat,
    m: nat,
    scopes: Seq<SpecNames>,
    table: Seq<SpecSignature>,
)
    requires
        n <= m <= args.len(),
        args_error(args, n, scopes, table) is Some,
    ensures
        args_error(args, m, scopes, table) == args_error(args, n, scopes, table),
    decreases m,
{
    if n < m {
        lemma_args_error_stable(args, n, (m - 1) as nat, scopes, table);
    }
}

/// Arguments without violation have none among their first `n`.
pub proof fn lemma_args_error_prefix(
    args: Seq<SpecExpr>,
    n: nat,
    m: nat,
    scopes: Seq<SpecNames>,
    table: Seq<SpecSignature>,
)
    requires
        n <= m <= args.len(),
        args_error(args, m, scopes, table) is None,
    ensures
        args_error(args, n, scopes, table) is None,
    decreases m,
{
    if n < m {
        lemma_args_error_prefix(args, n, (m - 1) as nat, scopes, table);
    }
}

/// A violation among the first `n` functions is the outcome of every
/// longer prefix.
pub proof fn lemma_functions_error_stable(
    fs: Seq<SpecFunctionDecl>,
    n: nat,
    m: nat,
    scopes: Seq<SpecNames>,
    in_loop: bool,
    table: Seq<SpecSignature>,
)
    requires
        n <= m <= fs.len(),
        functions_error(fs, n, scopes, in_loop, table) is Some,
    ensures
        functions_error(fs, m, scopes, in_loop, table) == functions_error(
            fs,
            n,
            scopes,
            in_loop,
            table,
        ),
    decreases m,
{
    if n < m {
        lemma_functions_error_stable(fs, n, (m - 1) as nat, scopes, in_loop, table);
    }
}

/// A duplicate among the first `n` functions is the outcome of every
/// longer prefix.
pub proof fn lemma_collect_stable(
    table: Seq<SpecSignature>,
    fs: Seq<SpecFunctionDecl>,
    n: nat,
    m: nat,
)
    requires
        n <= m <= fs.len(),
        collect(table, fs, n) is Err,
    ensures
        collect(table, fs, m) == collect(table, fs, n),
    decreases m,
{
    if n < m {
        lemma_collect_stable(table, fs, n, (m - 1) as nat);
    }
}

/// A function table entry: a name and a parameter count.
pub struct Signature {
    pub name: String,
    pub arity: usize,
}

impl View for Signature {
    type V = SpecSignature;

    open spec fn view(&self) -> SpecSignature {
        SpecSignature { name: self.name@, arity: self.arity as nat }
    }
}

/// The models of a table, element by element.
pub open spec fn signatures_view(s: Seq<Signature>) -> Seq<SpecSignature> {
    Seq::new(s.len(), |i: int| s[i]@)
}

/// The models of a stack of scopes, element by element.
pub open spec fn scopes_view(s: Seq<Vec<String>>) -> Seq<SpecNames> {
    Seq::new(s.len(), |i: int| names_set(names_view(s[i]@)))
}

/// The semantic analyzer.
pub struct SemanticAnalyzer {
    functions: Vec<Signature>,
    scopes: Vec<Vec<String>>,
    in_loop: bool,
}

impl View for SemanticAnalyzer {
    type V = SpecAnalyzer;

    closed spec fn view(&self) -> SpecAnalyzer {
        SpecAnalyzer {
            functions: signatures_view(self.functions@),
            scopes: scopes_view(self.scopes@),
            in_loop: self.in_loop,
        }
    }
}

/// Whether `names` holds `name`.
fn holds(names: &Vec<String>, name: &String) -> (b: bool)
    ensures
        b == names_set(names_view(names@)).contains(name@),
{
    let mut j: usize = 0;
    while j < names.len()
        invariant
            j <= names@.len(),
            forall|k: int| 0 <= k < j ==> names@[k]@ != name@,
        decreases names@.len() - j,
    {
        if names[j] == *name {
            assert(names_view(names@)[j as int] == name@);
            return true;
        }
        j = j + 1;
    }
    assert(!names_view(names@).contains(name@)) by {
        if names_view(names@).contains(name@) {
            let k = choose|k: int| 0 <= k < names_view(names@).len() && names_view(names@)[k]
                == name@;
            assert(names@[k]@ == name@);
        }
    }
    false
}

impl SemanticAnalyzer {
    pub fn new() -> (a: Self)
        ensures
            a@ == fresh(),
    {
        let a = SemanticAnalyzer { functions: Vec::new(), scopes: Vec::new(), in_loop: false };
        assert(a@.functions == fresh().functions);
        assert(a@.scopes == fresh().scopes);
        a
    }

    /// The parameter count of the function `name`, if the table has it.
    fn arity(&self, name: &String) -> (r: Option<usize>)
        ensures
            match arity_of(self@.functions, name@) {
                Some(a) => r == Some(a as usize) && a <= usize::MAX,
                None => r is None,
            },
    {
        let ghost table = self@.functions;
        let mut i: usize = self.functions.len();
        assert(table.take(i as int) == table);
        while i > 0
            invariant
                i <= self.functions@.len(),
                table == self@.functions,
                arity_of(table, name@) == arity_of(table.take(i as int), name@),
            decreases i,
        {
            i = i - 1;
            assert(table.take(i + 1).drop_last() == table.take(i as int));
            if self.functions[i].name == *name {
                return Some(self.functions[i].arity);
            }
        }
        None
    }

    /// First pass: enters every function of the program into the table.
    fn collect_functions(&mut self, program: &Program) -> (r: Result<(), SemanticError>)
        ensures
            match collect(old(self)@.functions, program@.functions, program@.functions.len()) {
                Ok(table) => r is Ok && final(self)@ == (SpecAnalyzer {
                    functions: table,
                    ..old(self)@
                }),
                Err(err) => r matches Err(e) && e@ == err,
            },
    {
        let ghost fs = program@.functions;
        let ghost start = self@.functions;
        let mut i: usize = 0;
        while i < program.functions.len()
            invariant
                i <= program.functions.len(),
                fs == program@.functions,
                fs.len() == program.functions.len(),
                start == old(self)@.functions,
                collect(start, fs, i as nat) == Ok::<Seq<SpecSignature>, SpecSemanticError>(
                    self@.functions,
                ),
                self@.scopes == old(self)@.scopes,
                self@.in_loop == old(self)@.in_loop,
            decreases program.functions.len() - i,
        {
            let func = &program.functions[i];
            assert(fs[i as int] == func@);
            if self.arity(&func.name).is_some() {
                proof {
                    lemma_collect_stable(start, fs, (i + 1) as nat, fs.len());
                }
                return Err(SemanticError::DuplicateFunction(func.name.clone()));
            }
            let sig = Signature { name: func.name.clone(), arity: func.params.len() };
            assert(signatures_view(self.functions@.push(sig)) == signatures_view(
                self.functions@,
            ).push(sig@));
            self.functions.push(sig);
            i = i + 1;
        }
        Ok(())
    }

    fn push_scope(&mut self)
        ensures
            final(self)@ == (SpecAnalyzer {
                scopes: old(self)@.scopes.push(Set::empty()),
                ..old(self)@
            }),
    {
        let scope: Vec<String> = Vec::new();
        assert(names_set(names_view(scope@)) == Set::<Seq<char>>::empty());
        assert(scopes_view(self.scopes@.push(scope)) == scopes_view(self.scopes@).push(
            Set::empty(),
        ));
        self.scopes.push(scope);
    }

    fn pop_scope(&mut self)
        requires
            old(self)@.scopes.len() > 0,
        ensures
            final(self)@ == (SpecAnalyzer {
                scopes: old(self)@.scopes.drop_last(),
                ..old(self)@
            }),
    {
        let _ = self.scopes.pop();
        assert(scopes_view(self.scopes@) == scopes_view(old(self).scopes@).drop_last());
    }

    fn declare_var(&mut self, name: &String)
        requires
            old(self)@.scopes.len() > 0,
        ensures
            final(self)@ == (SpecAnalyzer {
                scopes: declare(old(self)@.scopes, name@),
                ..old(self)@
            }),
    {
        match self.scopes.pop() {
            None => unreached(),
            Some(scope) => {
                let mut scope = scope;
                let ghost before = names_view(scope@);
                scope.push(name.clone());
                proof {
                    let after = names_view(scope@);
                    assert(after == before.push(name@));
                    assert forall|n: Seq<char>|
                        names_set(after).contains(n) == names_set(before).insert(name@).contains(
                            n,
                        ) by {
                        if before.contains(n) {
                            let k = choose|k: int| 0 <= k < before.len() && before[k] == n;
                            assert(after[k] == n);
                        }
                        if n == name@ {
                            assert(after[before.len() as int] == n);
                        }
                    }
                    assert(names_set(after) == names_set(before).insert(name@));
                }
                self.scopes.push(scope);
                assert(scopes_view(self.scopes@) == declare(old(self)@.scopes, name@));
            },
        }
    }

    fn is_var_defined(&self, name: &String) -> (b: bool)
        ensures
            b == is_defined(self@.scopes, name@),
    {
        let mut i: usize = self.scopes.len();
        while i > 0
            invariant
                i <= self.scopes@.len(),
                forall|k: int| i <= k < self.scopes@.len() ==> !self@.scopes[k].contains(name@),
            decreases i,
        {
            i = i - 1;
            if holds(&self.scopes[i], name) {
                assert(self@.scopes[i as int].contains(name@));
                return true;
            }
        }
        false
    }

    /// What is wrong with a call's callee and argument count, if
    /// anything.
    fn check_call(&self, name: &String, argc: usize) -> (r: Result<(), SemanticError>)
        ensures
            match call_error(name@, argc as nat, self@.functions) {
                None => r is Ok,
                Some(err) => r matches Err(e) && e@ == err,
            },
    {
        if *name == String::from_str("print") {
            if argc != 1 {
                return Err(
                    SemanticError::ArityMismatch { name: name.clone(), expected: 1, found: argc },
                );
            }
            Ok(())
        } else {
            match self.arity(name) {
                Some(arity) => {
                    if argc != arity {
                        return Err(
                            SemanticError::ArityMismatch {
                                name: name.clone(),
                                expected: arity,
                                found: argc,
                            },
                        );
                    }
                    Ok(())
                },
                None => Err(SemanticError::UndefinedFunction(name.clone())),
            }
        }
    }

    fn check_expr(&self, expr: &Expr) -> (r: Result<(), SemanticError>)
        ensures
            match expr_error(expr@, self@.scopes, self@.functions) {
                None => r is Ok,
                Some(err) => r matches Err(e) && e@ == err,
            },
        decreases expr,
    {
        match expr {
            Expr::VarRef(name) => {
                if !self.is_var_defined(name) {
                    return Err(SemanticError::UndefinedVariable(name.clone()));
                }
                Ok(())
            },
            Expr::Call { name, args } => {
                match self.check_call(name, args.len()) {
                    Err(e) => {
                        return Err(e);
                    },
                    Ok(()) => {},
                }
                let ghost models = expr@->args;
                let mut i: usize = 0;
                while i < args.len()
                    invariant
                        i <= args.len(),
                        *expr == (Expr::Call { name: *name, args: *args }),
                        models == expr@->args,
                        models.len() == args.len(),
                        call_error(name@, models.len(), self@.functions) is None,
                        args_error(models, i as nat, self@.scopes, self@.functions) is None,
                    decreases args.len() - i,
                {
                    assert(models[i as int] == args[i as int]@);
                    match self.check_expr(&args[i]) {
                        Err(e) => {
                            proof {
                                lemma_args_error_stable(
                                    models,
                                    (i + 1) as nat,
                                    models.len(),
                                    self@.scopes,
                                    self@.functions,
                                );
                            }
                            return Err(e);
                        },
                        Ok(()) => {},
                    }
                    i = i + 1;
                }
                Ok(())
            },
            Expr::Binary { left, op, right } => {
                match self.check_expr(left) {
                    Err(e) => {
                        return Err(e);
                    },
                    Ok(()) => {},
                }
                self.check_expr(right)
            },
            Expr::IntLiteral(_) => Ok(()),
            Expr::StringLiteral(_) => Ok(()),
        }
    }

    fn check_stmt(&mut self, stmt: &Stmt) -> (r: Result<(), SemanticError>)
        requires
            old(self)@.scopes.len() > 0,
        ensures
            match check_stmt(stmt@, old(self)@.scopes, old(self)@.in_loop, old(self)@.functions) {
                Ok(scopes) => r is Ok && final(self)@ == (SpecAnalyzer { scopes, ..old(self)@ }),
                Err(err) => r matches Err(e) && e@ == err,
            },
        decreases stmt,
    {
        match stmt {
            Stmt::Let { name, value } => {
                match self.check_expr(value) {
                    Err(e) => {
                        return Err(e);
                    },
                    Ok(()) => {},
                }
                self.declare_var(name);
                Ok(())
            },
            Stmt::Assign { name, value } => {
                if !self.is_var_defined(name) {
                    return Err(SemanticError::UndefinedVariable(name.clone()));
                }
                self.check_expr(value)
            },
            Stmt::Return(expr) => self.check_expr(expr),
            Stmt::ExprStmt(expr) => self.check_expr(expr),
            Stmt::If { condition, then_block, else_block } => {
                match self.check_expr(condition) {
                    Err(e) => {
                        return Err(e);
                    },
                    Ok(()) => {},
                }
                match self.check_block(then_block) {
                    Err(e) => {
                        return Err(e);
                    },
                    Ok(()) => {},
                }
                match else_block {
                    Some(b) => self.check_block(b),
                    None => Ok(()),
                }
            },
            Stmt::While { condition, body } => {
                match self.check_expr(condition) {
                    Err(e) => {
                        return Err(e);
                    },
                    Ok(()) => {},
                }
                let outer = self.in_loop;
                self.in_loop = true;
                match self.check_block(body) {
                    Err(e) => {
                        return Err(e);
                    },
                    Ok(()) => {},
                }
                self.in_loop = outer;
                Ok(())
            },
            Stmt::Break => {
                if !self.in_loop {
                    return Err(SemanticError::BreakOutsideLoop);
                }
                Ok(())
            },
            Stmt::Continue => {
                if !self.in_loop {
                    return Err(SemanticError::ContinueOutsideLoop);
                }
                Ok(())
            },
        }
    }

    fn check_block(&mut self, block: &Block) -> (r: Result<(), SemanticError>)
        ensures
            match block_error(
                block@,
                old(self)@.scopes,
                old(self)@.in_loop,
                old(self)@.functions,
            ) {
                None => r is Ok && final(self)@ == old(self)@,
                Some(err) => r matches Err(e) && e@ == err,
            },
        decreases block,
    {
        let ghost outer = self@.scopes;
        let ghost inner = outer.push(Set::empty());
        let ghost looping = self@.in_loop;
        let ghost table = self@.functions;
        self.push_scope();
        let mut i: usize = 0;
        while i < block.statements.len()
            invariant
                i <= block.statements.len(),
                block@.len() == block.statements.len(),
                outer == old(self)@.scopes,
                inner == outer.push(Set::empty()),
                looping == old(self)@.in_loop,
                table == old(self)@.functions,
                self@.in_loop == looping,
                self@.functions == table,
                self@.scopes.len() == outer.len() + 1,
                self@.scopes.drop_last() == outer,
                check_stmts(block@, i as nat, inner, looping, table) == Ok::<
                    Seq<SpecNames>,
                    SpecSemanticError,
                >(self@.scopes),
            decreases block.statements.len() - i,
        {
            assert(block@[i as int] == block.statements[i as int]@);
            match self.check_stmt(&block.statements[i]) {
                Err(e) => {
                    proof {
                        lemma_check_stmts_stable(
                            block@,
                            (i + 1) as nat,
                            block@.len(),
                            inner,
                            looping,
                            table,
                        );
                    }
                    return Err(e);
                },
                Ok(()) => {},
            }
            assert(self@.scopes.len() == outer.len() + 1 && self@.scopes.drop_last() == outer)
                by {
                lemma_check_stmt_scopes(
                    block@[i as int],
                    check_stmts(block@, i as nat, inner, looping, table)->Ok_0,
                    looping,
                    table,
                );
            }
            i = i + 1;
        }
        self.pop_scope();
        Ok(())
    }

    /// Checks one function: its body, in a scope that declares the
    /// parameters.
    fn check_function(&mut self, func: &FunctionDecl) -> (r: Result<(), SemanticError>)
        ensures
            match function_error(
                func@,
                old(self)@.scopes,
                old(self)@.in_loop,
                old(self)@.functions,
            ) {
                None => r is Ok && final(self)@ == old(self)@,
                Some(err) => r matches Err(e) && e@ == err,
            },
    {
        let ghost outer = self@.scopes;
        let ghost params = func@.params;
        self.push_scope();
        let mut i: usize = 0;
        assert(names_set(params.take(0)) == Set::<Seq<char>>::empty());
        while i < func.params.len()
            invariant
                i <= func.params.len(),
                params == func@.params,
                params.len() == func.params.len(),
                outer == old(self)@.scopes,
                self@.in_loop == old(self)@.in_loop,
                self@.functions == old(self)@.functions,
                self@.scopes == outer.push(names_set(params.take(i as int))),
            decreases func.params.len() - i,
        {
            assert(params[i as int] == func.params[i as int]@);
            self.declare_var(&func.params[i]);
            proof {
                let before = params.take(i as int);
                let after = params.take(i + 1);
                assert(after == before.push(params[i as int]));
                assert forall|n: Seq<char>|
                    names_set(after).contains(n) == names_set(before).insert(
                        params[i as int],
                    ).contains(n) by {
                    if before.contains(n) {
                        let k = choose|k: int| 0 <= k < before.len() && before[k] == n;
                        assert(after[k] == n);
                    }
                    if n == params[i as int] {
                        assert(after[i as int] == n);
                    }
                }
                assert(names_set(after) == names_set(before).insert(params[i as int]));
                assert(self@.scopes == outer.push(names_set(after)));
            }
            i = i + 1;
        }
        assert(params.take(i as int) == params);
        match self.check_block(&func.body) {
            Err(e) => {
                return Err(e);
            },
            Ok(()) => {},
        }
        self.pop_scope();
        assert(self@.scopes == outer);
        Ok(())
    }

    /// Analyses a program. A program without violation is accepted, and
    /// the analyzer keeps its functions in its table; else the first
    /// violation is returned, and the analyzer's state is unspecified.
    pub fn analyze(&mut self, program: &Program) -> (r: Result<(), SemanticError>)
        ensures
            match analyze(old(self)@, program@) {
                Ok(st) => r is Ok && final(self)@ == st,
                Err(err) => r matches Err(e) && e@ == err,
            },
    {
        match self.collect_functions(program) {
            Err(e) => {
                return Err(e);
            },
            Ok(()) => {},
        }
        let ghost fs = program@.functions;
        let ghost st = self@;
        let mut i: usize = 0;
        while i < program.functions.len()
            invariant
                i <= program.functions.len(),
                fs == program@.functions,
                fs.len() == program.functions.len(),
                self@ == st,
                collect(old(self)@.functions, fs, fs.len()) == Ok::<
                    Seq<SpecSignature>,
                    SpecSemanticError,
                >(st.functions),
                st.scopes == old(self)@.scopes,
                st.in_loop == old(self)@.in_loop,
                functions_error(fs, i as nat, st.scopes, st.in_loop, st.functions) is None,
            decreases program.functions.len() - i,
        {
            let func = &program.functions[i];
            assert(fs[i as int] == func@);
            match self.check_function(func) {
                Err(e) => {
                    proof {
                        lemma_functions_error_stable(
                            fs,
                            (i + 1) as nat,
                            fs.len(),
                            st.scopes,
                            st.in_loop,
                            st.functions,
                        );
                    }
                    return Err(e);
                },
                Ok(()) => {},
            }
            i = i + 1;
        }
        Ok(())
    }
}

/// A statement leaves the number of scopes as it is, and all but the
/// innermost scope as they are.
pub proof fn lemma_check_stmt_scopes(
    s: SpecStmt,
    scopes: Seq<SpecNames>,
    in_loop: bool,
    table: Seq<SpecSignature>,
)
    requires
        scopes.len() > 0,
    ensures
        check_stmt(s, scopes, in_loop, table) matches Ok(after) ==> after.len() == scopes.len()
            && after.drop_last() == scopes.drop_last(),
{
    if check_stmt(s, scopes, in_loop, table) is Ok {
        let after = check_stmt(s, scopes, in_loop, table)->Ok_0;
        assert(after.drop_last() == scopes.drop_last());
    }
}

} // verus!
