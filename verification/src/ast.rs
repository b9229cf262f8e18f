//! Syntax trees and their mathematical models.
//!
//! Each tree type has a model in which a name or a text is a sequence of
//! characters and a list is a sequence; `@` takes a tree to its model.

use vstd::prelude::*;

verus! {

/// Binary operators of the expression language.
#[derive(Debug, Clone, Copy, PartialEq, Eq, Structural)]
pub enum BinOp {
    Add,
    Sub,
    Mul,
    Div,
    Greater,
    Less,
    Equal,
}

/// Model of an expression.
pub enum SpecExpr {
    Call { name: Seq<char>, args: Seq<SpecExpr> },
    Binary { left: Box<SpecExpr>, op: BinOp, right: Box<SpecExpr> },
    IntLiteral(i64),
    StringLiteral(Seq<char>),
    VarRef(Seq<char>),
}

/// Model of a block: its statements in order.
pub type SpecBlock = Seq<SpecStmt>;

/// Model of a statement.
pub enum SpecStmt {
    Let { name: Seq<char>, value: SpecExpr },
    Assign { name: Seq<char>, value: SpecExpr },
    ExprStmt(SpecExpr),
    Return(SpecExpr),
    If { condition: SpecExpr, then_block: SpecBlock, else_block: Option<SpecBlock> },
    While { condition: SpecExpr, body: SpecBlock },
    Break,
    Continue,
}

/// Model of a function declaration.
pub struct SpecFunctionDecl {
    pub name: Seq<char>,
    pub params: Seq<Seq<char>>,
    pub body: SpecBlock,
}

/// Model of a program.
pub struct SpecProgram {
    pub functions: Seq<SpecFunctionDecl>,
}

/// An expression. Subexpressions are owned exclusively: the tree has no
/// sharing and no cycles.
#[derive(Debug, PartialEq, Eq)]
pub enum Expr {
    /// A call of a function, or of the builtin `print`.
    Call { name: String, args: Vec<Expr> },
    Binary { left: Box<Expr>, op: BinOp, right: Box<Expr> },
    IntLiteral(i64),
    StringLiteral(String),
    VarRef(String),
}

/// A sequence of statements that forms one lexical scope.
#[derive(Debug, PartialEq, Eq)]
pub struct Block {
    pub statements: Vec<Stmt>,
}

/// A statement.
#[derive(Debug, PartialEq, Eq)]
pub enum Stmt {
    /// Declares a variable and initialises it.
    Let { name: String, value: Expr },
    /// Gives an existing variable a new value.
    Assign { name: String, value: Expr },
    /// Evaluates an expression and discards the result.
    ExprStmt(Expr),
    Return(Expr),
    If { condition: Expr, then_block: Block, else_block: Option<Block> },
    While { condition: Expr, body: Block },
    Break,
    Continue,
}

/// A function: its name, its parameters in order, its body.
#[derive(Debug, PartialEq, Eq)]
pub struct FunctionDecl {
    pub name: String,
    pub params: Vec<String>,
    pub body: Block,
}

/// A program: its functions in source order.
#[derive(Debug, PartialEq, Eq)]
pub struct Program {
    pub functions: Vec<FunctionDecl>,
}

/// The model of an expression.
pub open spec fn expr_view(e: Expr) -> SpecExpr
    decreases e,
{
    match e {
        Expr::Call { name, args } => SpecExpr::Call {
            name: name@,
            args: Seq::new(
                args.len() as nat,
                |i: int|
                    if 0 <= i < args.len() {
                        expr_view(args[i])
                    } else {
                        SpecExpr::IntLiteral(0)
                    },
            ),
        },
        Expr::Binary { left, op, right } => SpecExpr::Binary {
            left: Box::new(expr_view(*left)),
            op,
            right: Box::new(expr_view(*right)),
        },
        Expr::IntLiteral(v) => SpecExpr::IntLiteral(v),
        Expr::StringLiteral(s) => SpecExpr::StringLiteral(s@),
        Expr::VarRef(name) => SpecExpr::VarRef(name@),
    }
}

/// The model of a statement.
pub open spec fn stmt_view(s: Stmt) -> SpecStmt
    decreases s,
{
    match s {
        Stmt::Let { name, value } => SpecStmt::Let { name: name@, value: expr_view(value) },
        Stmt::Assign { name, value } => SpecStmt::Assign { name: name@, value: expr_view(value) },
        Stmt::ExprStmt(e) => SpecStmt::ExprStmt(expr_view(e)),
        Stmt::Return(e) => SpecStmt::Return(expr_view(e)),
        Stmt::If { condition, then_block, else_block } => SpecStmt::If {
            condition: expr_view(condition),
            then_block: block_view(then_block),
            else_block: match else_block {
                Some(b) => Some(block_view(b)),
                None => None,
            },
        },
        Stmt::While { condition, body } => SpecStmt::While {
            condition: expr_view(condition),
            body: block_view(body),
        },
        Stmt::Break => SpecStmt::Break,
        Stmt::Continue => SpecStmt::Continue,
    }
}

/// The model of a block.
pub open spec fn block_view(b: Block) -> SpecBlock
    decreases b,
{
    Seq::new(
        b.statements.len() as nat,
        |i: int|
            if 0 <= i < b.statements.len() {
                stmt_view(b.statements[i])
            } else {
                SpecStmt::Break
            },
    )
}

impl View for Expr {
    type V = SpecExpr;

    open spec fn view(&self) -> SpecExpr {
        expr_view(*self)
    }
}

impl View for Stmt {
    type V = SpecStmt;

    open spec fn view(&self) -> SpecStmt {
        stmt_view(*self)
    }
}

impl View for Block {
    type V = SpecBlock;

    open spec fn view(&self) -> SpecBlock {
        block_view(*self)
    }
}

/// The texts of a sequence of names, element by element.
pub open spec fn names_view(s: Seq<String>) -> Seq<Seq<char>> {
    Seq::new(s.len(), |i: int| s[i]@)
}

impl View for FunctionDecl {
    type V = SpecFunctionDecl;

    open spec fn view(&self) -> SpecFunctionDecl {
        SpecFunctionDecl {
            name: self.name@,
            params: names_view(self.params@),
            body: self.body@,
        }
    }
}

impl View for Program {
    type V = SpecProgram;

    open spec fn view(&self) -> SpecProgram {
        SpecProgram { functions: Seq::new(self.functions@.len(), |i: int| self.functions@[i]@) }
    }
}

impl Clone for Expr {
    fn clone(&self) -> (r: Self)
        ensures
            r@ == self@,
        decreases self,
    {
        match self {
            Expr::Call { name, args } => {
                let mut copies: Vec<Expr> = Vec::new();
                let mut i: usize = 0;
                while i < args.len()
                    invariant
                        i <= args.len(),
                        decreases_to!(*self => *args),
                        copies@.len() == i,
                        forall|j: int| 0 <= j < i ==> copies@[j]@ == args@[j]@,
                    decreases args.len() - i,
                {
                    copies.push(args[i].clone());
                    i = i + 1;
                }
                let copy = Expr::Call { name: name.clone(), args: copies };
                assert(copy@->args == self@->args);
                copy
            },
            Expr::Binary { left, op, right } => Expr::Binary {
                left: Box::new((&**left).clone()),
                op: *op,
                right: Box::new((&**right).clone()),
            },
            Expr::IntLiteral(v) => Expr::IntLiteral(*v),
            Expr::StringLiteral(s) => Expr::StringLiteral(s.clone()),
            Expr::VarRef(name) => Expr::VarRef(name.clone()),
        }
    }
}

impl Clone for Block {
    fn clone(&self) -> (r: Self)
        ensures
            r@ == self@,
        decreases self,
    {
        let mut copies: Vec<Stmt> = Vec::new();
        let mut i: usize = 0;
        while i < self.statements.len()
            invariant
                i <= self.statements.len(),
                copies@.len() == i,
                forall|j: int| 0 <= j < i ==> copies@[j]@ == self.statements@[j]@,
            decreases self.statements.len() - i,
        {
            copies.push(self.statements[i].clone());
            i = i + 1;
        }
        let copy = Block { statements: copies };
        assert(copy@ == self@);
        copy
    }
}

impl Clone for Stmt {
    fn clone(&self) -> (r: Self)
        ensures
            r@ == self@,
        decreases self,
    {
        match self {
            Stmt::Let { name, value } => Stmt::Let { name: name.clone(), value: value.clone() },
            Stmt::Assign { name, value } => Stmt::Assign {
                name: name.clone(),
                value: value.clone(),
            },
            Stmt::ExprStmt(e) => Stmt::ExprStmt(e.clone()),
            Stmt::Return(e) => Stmt::Return(e.clone()),
            Stmt::If { condition, then_block, else_block } => Stmt::If {
                condition: condition.clone(),
                then_block: then_block.clone(),
                else_block: match else_block {
                    Some(b) => Some(b.clone()),
                    None => None,
                },
            },
            Stmt::While { condition, body } => Stmt::While {
                condition: condition.clone(),
                body: body.clone(),
            },
            Stmt::Break => Stmt::Break,
            Stmt::Continue => Stmt::Continue,
        }
    }
}

impl Clone for FunctionDecl {
    fn clone(&self) -> (r: Self)
        ensures
            r@ == self@,
    {
        let mut params: Vec<String> = Vec::new();
        let mut i: usize = 0;
        while i < self.params.len()
            invariant
                i <= self.params.len(),
                params@.len() == i,
                forall|j: int| 0 <= j < i ==> params@[j]@ == self.params@[j]@,
            decreases self.params.len() - i,
        {
            params.push(self.params[i].clone());
            i = i + 1;
        }
        let copy = FunctionDecl { name: self.name.clone(), params, body: self.body.clone() };
        assert(copy@.params == self@.params);
        copy
    }
}

impl Clone for Program {
    fn clone(&self) -> (r: Self)
        ensures
            r@ == self@,
    {
        let mut functions: Vec<FunctionDecl> = Vec::new();
        let mut i: usize = 0;
        while i < self.functions.len()
            invariant
                i <= self.functions.len(),
                functions@.len() == i,
                forall|j: int| 0 <= j < i ==> functions@[j]@ == self.functions@[j]@,
            decreases self.functions.len() - i,
        {
            functions.push(self.functions[i].clone());
            i = i + 1;
        }
        let copy = Program { functions };
        assert(copy@.functions == self@.functions);
        copy
    }
}

} // verus!
