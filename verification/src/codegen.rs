//! The native backend: writes a program as the text of a C translation
//! unit, for a C compiler to turn into an executable.
//!
//! The backend covers declarations, assignments, expression statements,
//! conditionals and loops. Every function is written without parameters
//! and without a result. `print` is written as a call of `printf`, with
//! a format chosen by the form of its argument, which must be an integer
//! literal, a variable or a string literal.

use crate::ast::{
    BinOp, Block, Expr, FunctionDecl, Program, SpecBlock, SpecExpr, SpecFunctionDecl, SpecProgram,
    SpecStmt, Stmt,
};
use crate::text::{decimal_int, int_to_string, push_char};
use vstd::prelude::*;
use vstd::string::StringExecFns;

verus! {

/// Why a program cannot be written as C.
#[derive(Debug, Clone, Copy, PartialEq, Eq, Structural)]
pub enum CodegenError {
    /// `print` has no argument, or one that is neither an integer
    /// literal nor a variable nor a string literal.
    UnsupportedPrintArgument,
    /// The program holds a `return`, `break` or `continue`.
    UnsupportedStatement,
}

/// The text of a binary operator, with a blank on each side.
pub open spec fn op_text(op: BinOp) -> Seq<char> {
    match op {
        BinOp::Add => " + "@,
        BinOp::Sub => " - "@,
        BinOp::Mul => " * "@,
        BinOp::Div => " / "@,
        BinOp::Greater => " > "@,
        BinOp::Less => " < "@,
        BinOp::Equal => " == "@,
    }
}

/// The `printf` format for the argument of a `print`, with the comma
/// behind it; `None` for an argument that the backend does not support.
pub open spec fn print_format(arg: SpecExpr) -> Option<Seq<char>> {
    match arg {
        SpecExpr::IntLiteral(_) => Some("\"%d\\n\", "@),
        SpecExpr::VarRef(_) => Some("\"%d\\n\", "@),
        SpecExpr::StringLiteral(_) => Some("\"%s\\n\", "@),
        _ => None,
    }
}

/// What the backend cannot write in an expression, if anything: the
/// first unsupported `print`.
pub open spec fn expr_problem(e: SpecExpr) -> Option<CodegenError>
    decreases e, 0nat,
{
    match e {
        SpecExpr::Call { name, args } => if name == "print"@ {
            if args.len() == 0 || print_format(args[0]) is None {
                Some(CodegenError::UnsupportedPrintArgument)
            } else {
                None
            }
        } else {
            args_problem(args, args.len())
        },
        SpecExpr::Binary { left, op, right } => match expr_problem(*left) {
            Some(err) => Some(err),
            None => expr_problem(*right),
        },
        _ => None,
    }
}

/// What the backend cannot write in the first `n` arguments of a call.
pub open spec fn args_problem(args: Seq<SpecExpr>, n: nat) -> Option<CodegenError>
    decreases args, n,
{
    if n == 0 || n > args.len() {
        None
    } else {
        match args_problem(args, (n - 1) as nat) {
            Some(err) => Some(err),
            None => expr_problem(args[n - 1]),
        }
    }
}

/// The C text of an expression. A binary expression stands in
/// parentheses; a string literal stands between double quotes as it is.
pub open spec fn expr_text(e: SpecExpr) -> Seq<char>
    decreases e, 0nat,
{
    match e {
        SpecExpr::Call { name, args } => if name == "print"@ {
            if args.len() == 0 || print_format(args[0]) is None {
                "printf("@
            } else {
                "printf("@ + print_format(args[0])->Some_0 + expr_text(args[0]) + ")"@
            }
        } else {
            name + "("@ + args_text(args, args.len()) + ")"@
        },
        SpecExpr::StringLiteral(s) => "\""@ + s + "\""@,
        SpecExpr::IntLiteral(v) => decimal_int(v as int),
        SpecExpr::VarRef(name) => name,
        SpecExpr::Binary { left, op, right } => "("@ + expr_text(*left) + op_text(op)
            + expr_text(*right) + ")"@,
    }
}

/// The C text of the first `n` arguments of a call, with `, ` between
/// them.
pub open spec fn args_text(args: Seq<SpecExpr>, n: nat) -> Seq<char>
    decreases args, n,
{
    if n == 0 || n > args.len() {
        Seq::empty()
    } else if n == 1 {
        expr_text(args[0])
    } else {
        args_text(args, (n - 1) as nat) + ", "@ + expr_text(args[n - 1])
    }
}

/// What the backend cannot write in a statement, if anything.
pub open spec fn stmt_problem(s: SpecStmt) -> Option<CodegenError>
    decreases s, 0nat,
{
    match s {
        SpecStmt::Let { name, value } => expr_problem(value),
        SpecStmt::Assign { name, value } => expr_problem(value),
        SpecStmt::ExprStmt(e) => expr_problem(e),
        SpecStmt::If { condition, then_block, else_block } => match expr_problem(condition) {
            Some(err) => Some(err),
            None => match block_problem(then_block) {
                Some(err) => Some(err),
                None => match else_block {
                    Some(b) => block_problem(b),
                    None => None,
                },
            },
        },
        SpecStmt::While { condition, body } => match expr_problem(condition) {
            Some(err) => Some(err),
            None => block_problem(body),
        },
        SpecStmt::Return(_) => Some(CodegenError::UnsupportedStatement),
        SpecStmt::Break => Some(CodegenError::UnsupportedStatement),
        SpecStmt::Continue => Some(CodegenError::UnsupportedStatement),
    }
}

/// What the backend cannot write in a block.
pub open spec fn block_problem(b: SpecBlock) -> Option<CodegenError>
    decreases b, b.len() + 1,
{
    stmts_problem(b, b.len())
}

/// What the backend cannot write in the first `n` statements of a block.
pub open spec fn stmts_problem(b: SpecBlock, n: nat) -> Option<CodegenError>
    decreases b, n,
{
    if n == 0 || n > b.len() {
        None
    } else {
        match stmts_problem(b, (n - 1) as nat) {
            Some(err) => Some(err),
            None => stmt_problem(b[n - 1]),
        }
    }
}

/// The C text of a statement, with the line end behind it.
pub open spec fn stmt_text(s: SpecStmt) -> Seq<char>
    decreases s, 0nat,
{
    match s {
        SpecStmt::Let { name, value } => "int "@ + name + " = "@ + expr_text(value) + ";\n"@,
        SpecStmt::Assign { name, value } => name + " = "@ + expr_text(value) + ";\n"@,
        SpecStmt::ExprStmt(e) => expr_text(e) + ";\n"@,
        SpecStmt::If { condition, then_block, else_block } => "if ("@ + expr_text(condition)
            + ") {\n"@ + block_text(then_block) + "}"@ + match else_block {
            Some(b) => " else {\n"@ + block_text(b) + "}"@,
            None => Seq::empty(),
        } + "\n"@,
        SpecStmt::While { condition, body } => "while ("@ + expr_text(condition) + ") {\n"@
            + block_text(body) + "}\n"@,
        _ => Seq::empty(),
    }
}

/// The C text of a block: its statements one behind the other.
pub open spec fn block_text(b: SpecBlock) -> Seq<char>
    decreases b, b.len() + 1,
{
    stmts_text(b, b.len())
}

/// The C text of the first `n` statements of a block.
pub open spec fn stmts_text(b: SpecBlock, n: nat) -> Seq<char>
    decreases b, n,
{
    if n == 0 || n > b.len() {
        Seq::empty()
    } else {
        stmts_text(b, (n - 1) as nat) + stmt_text(b[n - 1])
    }
}

/// The head of a function in C: `main` returns `int`, every other
/// function nothing, and none takes parameters.
pub open spec fn function_head(name: Seq<char>) -> Seq<char> {
    if name == "main"@ {
        "int main() {\n"@
    } else {
        "void "@ + name + "() {\n"@
    }
}

/// The C text of a function.
pub open spec fn function_text(f: SpecFunctionDecl) -> Seq<char> {
    function_head(f.name) + block_text(f.body) + "}\n\n"@
}

/// The C text of the first `n` functions.
pub open spec fn functions_text(fs: Seq<SpecFunctionDecl>, n: nat) -> Seq<char>
    decreases n,
{
    if n == 0 || n > fs.len() {
        Seq::empty()
    } else {
        functions_text(fs, (n - 1) as nat) + function_text(fs[n - 1])
    }
}

/// What the backend cannot write in the first `n` functions.
pub open spec fn functions_problem(fs: Seq<SpecFunctionDecl>, n: nat) -> Option<CodegenError>
    decreases n,
{
    if n == 0 || n > fs.len() {
        None
    } else {
        match functions_problem(fs, (n - 1) as nat) {
            Some(err) => Some(err),
            None => block_problem(fs[n - 1].body),
        }
    }
}

/// The C translation unit of a program: the include of `stdio.h`, then
/// the functions in program order; or what the backend cannot write.
pub open spec fn generate(p: SpecProgram) -> Result<Seq<char>, CodegenError> {
    match functions_problem(p.functions, p.functions.len()) {
        Some(err) => Err(err),
        None => Ok("#include <stdio.h>\n\n"@ + functions_text(p.functions, p.functions.len())),
    }
}

/// A problem among the first `n` arguments is the problem of every
/// longer prefix.
pub proof fn lemma_args_problem_stable(args: Seq<SpecExpr>, n: nat, m: nat)
    requires
        n <= m <= args.len(),
        args_problem(args, n) is Some,
    ensures
        args_problem(args, m) == args_problem(args, n),
    decreases m,
{
    if n < m {
        lemma_args_problem_stable(args, n, (m - 1) as nat);
    }
}

/// A problem among the first `n` statements is the problem of every
/// longer prefix.
pub proof fn lemma_stmts_problem_stable(b: SpecBlock, n: nat, m: nat)
    requires
        n <= m <= b.len(),
        stmts_problem(b, n) is Some,
    ensures
        stmts_problem(b, m) == stmts_problem(b, n),
    decreases m,
{
    if n < m {
        lemma_stmts_problem_stable(b, n, (m - 1) as nat);
    }
}

/// A problem among the first `n` functions is the problem of every
/// longer prefix.
pub proof fn lemma_functions_problem_stable(fs: Seq<SpecFunctionDecl>, n: nat, m: nat)
    requires
        n <= m <= fs.len(),
        functions_problem(fs, n) is Some,
    ensures
        functions_problem(fs, m) == functions_problem(fs, n),
    decreases m,
{
    if n < m {
        lemma_functions_problem_stable(fs, n, (m - 1) as nat);
    }
}

/// The generator and the text it has written so far.
pub struct CodeGenerator {
    output: String,
}

impl CodeGenerator {
    /// The text written so far.
    pub closed spec fn written(&self) -> Seq<char> {
        self.output@
    }

    pub fn new() -> (g: Self)
        ensures
            g.written() == Seq::<char>::empty(),
    {
        CodeGenerator { output: String::new() }
    }

    fn emit(&mut self, text: &str)
        ensures
            final(self).written() == old(self).written() + text@,
    {
        self.output.append(text);
    }

    fn emit_prelude(&mut self)
        ensures
            final(self).written() == old(self).written() + "#include <stdio.h>\n\n"@,
    {
        self.emit("#include <stdio.h>\n\n");
    }

    fn emit_expr(&mut self, expr: &Expr) -> (r: Result<(), CodegenError>)
        ensures
            match expr_problem(expr@) {
                Some(err) => r == Err::<(), CodegenError>(err),
                None => r is Ok && final(self).written() == old(self).written() + expr_text(
                    expr@,
                ),
            },
        decreases expr,
    {
        let ghost before = self.written();
        match expr {
            Expr::Call { name, args } => {
                let ghost models = expr@->args;
                if *name == String::from_str("print") {
                    if args.len() == 0 {
                        return Err(CodegenError::UnsupportedPrintArgument);
                    }
                    assert(models[0] == args[0]@);
                    let format = match &args[0] {
                        Expr::IntLiteral(_) => "\"%d\\n\", ",
                        Expr::VarRef(_) => "\"%d\\n\", ",
                        Expr::StringLiteral(_) => "\"%s\\n\", ",
                        _ => {
                            return Err(CodegenError::UnsupportedPrintArgument);
                        },
                    };
                    self.emit("printf(");
                    self.emit(format);
                    match self.emit_expr(&args[0]) {
                        Err(e) => {
                            return Err(e);
                        },
                        Ok(()) => {},
                    }
                    self.emit(")");
                    assert(self.written() == before + expr_text(expr@));
                    Ok(())
                } else {
                    self.emit(name.as_str());
                    self.emit("(");
                    let ghost head = self.written();
                    let mut i: usize = 0;
                    assert(head + args_text(models, 0) == head);
                    while i < args.len()
                        invariant
                            i <= args.len(),
                            decreases_to!(*expr => *args),
                            *expr == (Expr::Call { name: *name, args: *args }),
                            name@ != "print"@,
                            models == expr@->args,
                            models.len() == args.len(),
                            head == before + name@ + "("@,
                            args_problem(models, i as nat) is None,
                            self.written() == head + args_text(models, i as nat),
                        decreases args.len() - i,
                    {
                        assert(models[i as int] == args[i as int]@);
                        if i > 0 {
                            self.emit(", ");
                        }
                        let ghost so_far = self.written();
                        match self.emit_expr(&args[i]) {
                            Err(e) => {
                                proof {
                                    lemma_args_problem_stable(
                                        models,
                                        (i + 1) as nat,
                                        models.len(),
                                    );
                                }
                                return Err(e);
                            },
                            Ok(()) => {},
                        }
                        assert(self.written() == head + args_text(models, (i + 1) as nat)) by {
                            if i > 0 {
                                assert(self.written() == head + (args_text(models, i as nat)
                                    + ", "@ + expr_text(models[i as int])));
                            } else {
                                assert(args_text(models, 0) == Seq::<char>::empty());
                                assert(self.written() == head + expr_text(models[0]));
                            }
                        }
                        i = i + 1;
                    }
                    self.emit(")");
                    assert(self.written() == before + expr_text(expr@));
                    Ok(())
                }
            },
            Expr::StringLiteral(value) => {
                push_char(&mut self.output, '"');
                self.emit(value.as_str());
                push_char(&mut self.output, '"');
                proof {
                    reveal_strlit("\"");
                    assert(self.written() == before + expr_text(expr@));
                }
                Ok(())
            },
            Expr::IntLiteral(v) => {
                self.emit(int_to_string(*v).as_str());
                Ok(())
            },
            Expr::VarRef(name) => {
                self.emit(name.as_str());
                Ok(())
            },
            Expr::Binary { left, op, right } => {
                self.emit("(");
                match self.emit_expr(left) {
                    Err(e) => {
                        return Err(e);
                    },
                    Ok(()) => {},
                }
                self.emit(
                    match op {
                        BinOp::Add => " + ",
                        BinOp::Sub => " - ",
                        BinOp::Mul => " * ",
                        BinOp::Div => " / ",
                        BinOp::Greater => " > ",
                        BinOp::Less => " < ",
                        BinOp::Equal => " == ",
                    },
                );
                match self.emit_expr(right) {
                    Err(e) => {
                        return Err(e);
                    },
                    Ok(()) => {},
                }
                self.emit(")");
                assert(self.written() == before + expr_text(expr@));
                Ok(())
            },
        }
    }

    /// Writes an expression between `open` and `close`.
    fn emit_wrapped(&mut self, open: &str, expr: &Expr, close: &str) -> (r: Result<
        (),
        CodegenError,
    >)
        ensures
            match expr_problem(expr@) {
                Some(err) => r == Err::<(), CodegenError>(err),
                None => r is Ok && final(self).written() == old(self).written() + (open@
                    + expr_text(expr@) + close@),
            },
    {
        let ghost before = self.written();
        self.emit(open);
        match self.emit_expr(expr) {
            Err(e) => {
                return Err(e);
            },
            Ok(()) => {},
        }
        self.emit(close);
        assert(self.written() == before + (open@ + expr_text(expr@) + close@));
        Ok(())
    }

    /// Writes a declaration or an assignment.
    fn emit_store(&mut self, stmt: &Stmt, name: &String, value: &Expr) -> (r: Result<
        (),
        CodegenError,
    >)
        requires
            stmt@ == (SpecStmt::Let { name: name@, value: value@ }) || stmt@ == (SpecStmt::Assign {
                name: name@,
                value: value@,
            }),
        ensures
            match stmt_problem(stmt@) {
                Some(err) => r == Err::<(), CodegenError>(err),
                None => r is Ok && final(self).written() == old(self).written() + stmt_text(
                    stmt@,
                ),
            },
    {
        let ghost before = self.written();
        match stmt {
            Stmt::Let { .. } => {
                self.emit("int ");
            },
            _ => {},
        }
        self.emit(name.as_str());
        match self.emit_wrapped(" = ", value, ";\n") {
            Err(e) => {
                return Err(e);
            },
            Ok(()) => {},
        }
        assert(self.written() == before + stmt_text(stmt@));
        Ok(())
    }

    fn emit_if(&mut self, stmt: &Stmt) -> (r: Result<(), CodegenError>)
        requires
            stmt is If,
        ensures
            match stmt_problem(stmt@) {
                Some(err) => r == Err::<(), CodegenError>(err),
                None => r is Ok && final(self).written() == old(self).written() + stmt_text(
                    stmt@,
                ),
            },
        decreases stmt, 0nat,
    {
        let ghost before = self.written();
        match stmt {
            Stmt::If { condition, then_block, else_block } => {
                match self.emit_wrapped("if (", condition, ") {\n") {
                    Err(e) => {
                        return Err(e);
                    },
                    Ok(()) => {},
                }
                match self.emit_block(then_block) {
                    Err(e) => {
                        return Err(e);
                    },
                    Ok(()) => {},
                }
                self.emit("}");
                let ghost middle = self.written();
                let ghost tail = match stmt@->else_block {
                    Some(b) => " else {\n"@ + block_text(b) + "}"@,
                    None => Seq::empty(),
                };
                match else_block {
                    Some(b) => {
                        self.emit(" else {\n");
                        match self.emit_block(b) {
                            Err(e) => {
                                return Err(e);
                            },
                            Ok(()) => {},
                        }
                        self.emit("}");
                        assert(self.written() == middle + tail);
                    },
                    None => {
                        assert(self.written() == middle + tail);
                    },
                }
                self.emit("\n");
                assert(self.written() == before + ("if ("@ + expr_text(condition@) + ") {\n"@
                    + block_text(then_block@) + "}"@ + tail + "\n"@));
                Ok(())
            },
            _ => unreached(),
        }
    }

    fn emit_while(&mut self, stmt: &Stmt) -> (r: Result<(), CodegenError>)
        requires
            stmt is While,
        ensures
            match stmt_problem(stmt@) {
                Some(err) => r == Err::<(), CodegenError>(err),
                None => r is Ok && final(self).written() == old(self).written() + stmt_text(
                    stmt@,
                ),
            },
        decreases stmt, 0nat,
    {
        let ghost before = self.written();
        match stmt {
            Stmt::While { condition, body } => {
                match self.emit_wrapped("while (", condition, ") {\n") {
                    Err(e) => {
                        return Err(e);
                    },
                    Ok(()) => {},
                }
                match self.emit_block(body) {
                    Err(e) => {
                        return Err(e);
                    },
                    Ok(()) => {},
                }
                self.emit("}\n");
                assert(self.written() == before + stmt_text(stmt@));
                Ok(())
            },
            _ => unreached(),
        }
    }

    fn emit_stmt(&mut self, stmt: &Stmt) -> (r: Result<(), CodegenError>)
        ensures
            match stmt_problem(stmt@) {
                Some(err) => r == Err::<(), CodegenError>(err),
                None => r is Ok && final(self).written() == old(self).written() + stmt_text(
                    stmt@,
                ),
            },
        decreases stmt, 1nat,
    {
        match stmt {
            Stmt::Let { name, value } => self.emit_store(stmt, name, value),
            Stmt::Assign { name, value } => self.emit_store(stmt, name, value),
            Stmt::ExprStmt(expr) => {
                proof {
                    reveal_strlit("");
                    assert(""@ + expr_text(expr@) == expr_text(expr@));
                }
                self.emit_wrapped("", expr, ";\n")
            },
            Stmt::If { .. } => self.emit_if(stmt),
            Stmt::While { .. } => self.emit_while(stmt),
            Stmt::Return(_) => Err(CodegenError::UnsupportedStatement),
            Stmt::Break => Err(CodegenError::UnsupportedStatement),
            Stmt::Continue => Err(CodegenError::UnsupportedStatement),
        }
    }

    fn emit_block(&mut self, block: &Block) -> (r: Result<(), CodegenError>)
        ensures
            match block_problem(block@) {
                Some(err) => r == Err::<(), CodegenError>(err),
                None => r is Ok && final(self).written() == old(self).written() + block_text(
                    block@,
                ),
            },
        decreases block, 0nat,
    {
        let ghost before = self.written();
        let mut i: usize = 0;
        assert(before + stmts_text(block@, 0) == before);
        while i < block.statements.len()
            invariant
                i <= block.statements.len(),
                block@.len() == block.statements.len(),
                before == old(self).written(),
                stmts_problem(block@, i as nat) is None,
                self.written() == before + stmts_text(block@, i as nat),
            decreases block.statements.len() - i,
        {
            assert(block@[i as int] == block.statements[i as int]@);
            match self.emit_stmt(&block.statements[i]) {
                Err(e) => {
                    proof {
                        lemma_stmts_problem_stable(block@, (i + 1) as nat, block@.len());
                    }
                    return Err(e);
                },
                Ok(()) => {},
            }
            assert(self.written() == before + stmts_text(block@, (i + 1) as nat)) by {
                assert(self.written() == (before + stmts_text(block@, i as nat)) + stmt_text(
                    block@[i as int],
                ));
            }
            i = i + 1;
        }
        Ok(())
    }

    fn emit_function(&mut self, func: &FunctionDecl) -> (r: Result<(), CodegenError>)
        ensures
            match block_problem(func@.body) {
                Some(err) => r == Err::<(), CodegenError>(err),
                None => r is Ok && final(self).written() == old(self).written() + function_text(
                    func@,
                ),
            },
    {
        let ghost before = self.written();
        if func.name == String::from_str("main") {
            self.emit("int main() {\n");
        } else {
            self.emit("void ");
            self.emit(func.name.as_str());
            self.emit("() {\n");
        }
        assert(self.written() == before + function_head(func@.name));
        match self.emit_block(&func.body) {
            Err(e) => {
                return Err(e);
            },
            Ok(()) => {},
        }
        self.emit("}\n\n");
        assert(self.written() == before + function_text(func@));
        Ok(())
    }

    /// Writes a program as a C translation unit, behind what the
    /// generator has written before. A program that holds what the
    /// backend does not cover is refused.
    pub fn generate(self, program: &Program) -> (r: Result<String, CodegenError>)
        ensures
            match generate(program@) {
                Ok(text) => r matches Ok(s) && s@ == self.written() + text,
                Err(err) => r == Err::<String, CodegenError>(err),
            },
    {
        let mut this = self;
        let ghost before = this.written();
        let ghost fs = program@.functions;
        this.emit_prelude();
        let ghost head = this.written();
        let mut i: usize = 0;
        assert(head + functions_text(fs, 0) == head);
        while i < program.functions.len()
            invariant
                i <= program.functions.len(),
                fs == program@.functions,
                fs.len() == program.functions.len(),
                head == before + "#include <stdio.h>\n\n"@,
                functions_problem(fs, i as nat) is None,
                this.written() == head + functions_text(fs, i as nat),
            decreases program.functions.len() - i,
        {
            assert(fs[i as int] == program.functions[i as int]@);
            match this.emit_function(&program.functions[i]) {
                Err(e) => {
                    proof {
                        lemma_functions_problem_stable(fs, (i + 1) as nat, fs.len());
                    }
                    return Err(e);
                },
                Ok(()) => {},
            }
            assert(this.written() == head + functions_text(fs, (i + 1) as nat)) by {
                assert(this.written() == (head + functions_text(fs, i as nat)) + function_text(
                    fs[i as int],
                ));
            }
            i = i + 1;
        }
        assert(this.written() == before + ("#include <stdio.h>\n\n"@ + functions_text(
            fs,
            fs.len(),
        )));
        Ok(this.output)
    }
}

} // verus!
