//! The parser: recursive descent over a token sequence, one function
//! for each level of precedence. The first mismatch ends the parse.

use crate::ast::{
    names_view, BinOp, Block, Expr, FunctionDecl, Program, SpecBlock, SpecExpr, SpecFunctionDecl,
    SpecProgram, SpecStmt, Stmt,
};
use crate::token::{kind_name, tokens_view, SpecToken, Token, TokenKind};
use vstd::prelude::*;
use vstd::string::StringExecFns;

verus! {

/// Model of a parse error.
pub enum SpecParseError {
    Expected { expected: TokenKind, found: SpecToken },
    UnexpectedToken { found: SpecToken },
}

/// Why a token sequence is not a program.
#[derive(Debug, PartialEq, Eq)]
pub enum ParseError {
    /// A token of one kind was needed and another token was found.
    Expected { expected: TokenKind, found: Token },
    /// The token found cannot start an expression.
    UnexpectedToken { found: Token },
}

impl View for ParseError {
    type V = SpecParseError;

    open spec fn view(&self) -> SpecParseError {
        match self {
            ParseError::Expected { expected, found } => SpecParseError::Expected {
                expected: *expected,
                found: found@,
            },
            ParseError::UnexpectedToken { found } => SpecParseError::UnexpectedToken {
                found: found@,
            },
        }
    }
}

impl SpecParseError {
    /// The message that reports the error.
    pub open spec fn message(self) -> Seq<char> {
        match self {
            SpecParseError::Expected { expected, found } => "expected token "@ + kind_name(
                expected,
            ) + ", got "@ + kind_name(found.kind()),
            SpecParseError::UnexpectedToken { found } => "unexpected token "@ + kind_name(
                found.kind(),
            ) + " in primary position"@,
        }
    }
}

impl ParseError {
    /// The message that reports the error.
    pub fn message(&self) -> (m: String)
        ensures
            m@ == self@.message(),
    {
        match self {
            ParseError::Expected { expected, found } => {
                let mut m = String::from_str("expected token ");
                m.append(expected.name().as_str());
                m.append(", got ");
                m.append(found.kind().name().as_str());
                m
            },
            ParseError::UnexpectedToken { found } => {
                let mut m = String::from_str("unexpected token ");
                m.append(found.kind().name().as_str());
                m.append(" in primary position");
                m
            },
        }
    }
}

/// The outcome of parsing a construct: the construct and the position
/// behind it, or the error.
pub type Parsed<T> = Result<(T, nat), SpecParseError>;

/// The token at `pos`; behind the last token, the end marker.
pub open spec fn token_at(tokens: Seq<SpecToken>, pos: nat) -> SpecToken {
    if pos < tokens.len() {
        tokens[pos as int]
    } else {
        SpecToken::EOF
    }
}

/// The kind of the token at `pos`.
pub open spec fn kind_at(tokens: Seq<SpecToken>, pos: nat) -> TokenKind {
    token_at(tokens, pos).kind()
}

/// The position behind a token of kind `kind` at `pos`, or the error
/// that another token stands there.
pub open spec fn expect(tokens: Seq<SpecToken>, pos: nat, kind: TokenKind) -> Result<
    nat,
    SpecParseError,
> {
    if kind_at(tokens, pos) == kind {
        Ok(pos + 1)
    } else {
        Err(SpecParseError::Expected { expected: kind, found: token_at(tokens, pos) })
    }
}

/// The name of the identifier at `pos`, or the error that another token
/// stands there.
pub open spec fn expect_name(tokens: Seq<SpecToken>, pos: nat) -> Result<
    Seq<char>,
    SpecParseError,
> {
    match token_at(tokens, pos) {
        SpecToken::Ident(name) => Ok(name),
        other => Err(SpecParseError::Expected { expected: TokenKind::Ident, found: other }),
    }
}

/// Whether a parse that started at `from` and ended at `to` consumed at
/// least one token and stayed inside the input. Every successful parse
/// of a construct does (see `lemma_expression_moves` and
/// `lemma_statement_moves`); the definitions below test it where their
/// own termination depends on it.
pub open spec fn moved(tokens: Seq<SpecToken>, from: nat, to: nat) -> bool {
    from < to <= tokens.len()
}

/// The operator of a comparison token.
pub open spec fn comparison_op(k: TokenKind) -> Option<BinOp> {
    match k {
        TokenKind::Greater => Some(BinOp::Greater),
        TokenKind::Less => Some(BinOp::Less),
        TokenKind::EqualEqual => Some(BinOp::Equal),
        _ => None,
    }
}

/// The operator of an additive token.
pub open spec fn additive_op(k: TokenKind) -> Option<BinOp> {
    match k {
        TokenKind::Plus => Some(BinOp::Add),
        TokenKind::Minus => Some(BinOp::Sub),
        _ => None,
    }
}

/// The operator of a multiplicative token.
pub open spec fn multiplicative_op(k: TokenKind) -> Option<BinOp> {
    match k {
        TokenKind::Star => Some(BinOp::Mul),
        TokenKind::Slash => Some(BinOp::Div),
        _ => None,
    }
}

/// A binary expression.
pub open spec fn binary(left: SpecExpr, op: BinOp, right: SpecExpr) -> SpecExpr {
    SpecExpr::Binary { left: Box::new(left), op, right: Box::new(right) }
}

/// An expression: a comparison.
#[verifier::opaque]
pub open spec fn parse_expression(tokens: Seq<SpecToken>, pos: nat) -> Parsed<SpecExpr>
    decreases tokens.len() - pos, 7nat,
{
    parse_comparison(tokens, pos)
}

/// A comparison: additive expressions joined by `>`, `<` or `==`,
/// grouped to the left.
#[verifier::opaque]
pub open spec fn parse_comparison(tokens: Seq<SpecToken>, pos: nat) -> Parsed<SpecExpr>
    decreases tokens.len() - pos, 6nat,
{
    match parse_add_sub(tokens, pos) {
        Err(e) => Err(e),
        Ok((left, next)) => if moved(tokens, pos, next) {
            comparison_rest(tokens, next, left)
        } else {
            Ok((left, next))
        },
    }
}

/// The rest of a comparison behind its left operand `left`.
#[verifier::opaque]
pub open spec fn comparison_rest(tokens: Seq<SpecToken>, pos: nat, left: SpecExpr) -> Parsed<
    SpecExpr,
>
    decreases tokens.len() - pos, 5nat,
{
    match comparison_op(kind_at(tokens, pos)) {
        None => Ok((left, pos)),
        Some(op) => match parse_add_sub(tokens, pos + 1) {
            Err(e) => Err(e),
            Ok((right, next)) => if moved(tokens, pos, next) {
                comparison_rest(tokens, next, binary(left, op, right))
            } else {
                Ok((binary(left, op, right), next))
            },
        },
    }
}

/// An additive expression: multiplicative expressions joined by `+` or
/// `-`, grouped to the left.
#[verifier::opaque]
pub open spec fn parse_add_sub(tokens: Seq<SpecToken>, pos: nat) -> Parsed<SpecExpr>
    decreases tokens.len() - pos, 4nat,
{
    match parse_mul_div(tokens, pos) {
        Err(e) => Err(e),
        Ok((left, next)) => if moved(tokens, pos, next) {
            additive_rest(tokens, next, left)
        } else {
            Ok((left, next))
        },
    }
}

/// The rest of an additive expression behind its left operand.
#[verifier::opaque]
pub open spec fn additive_rest(tokens: Seq<SpecToken>, pos: nat, left: SpecExpr) -> Parsed<
    SpecExpr,
>
    decreases tokens.len() - pos, 3nat,
{
    match additive_op(kind_at(tokens, pos)) {
        None => Ok((left, pos)),
        Some(op) => match parse_mul_div(tokens, pos + 1) {
            Err(e) => Err(e),
            Ok((right, next)) => if moved(tokens, pos, next) {
                additive_rest(tokens, next, binary(left, op, right))
            } else {
                Ok((binary(left, op, right), next))
            },
        },
    }
}

/// A multiplicative expression: primaries joined by `*` or `/`, grouped
/// to the left.
#[verifier::opaque]
pub open spec fn parse_mul_div(tokens: Seq<SpecToken>, pos: nat) -> Parsed<SpecExpr>
    decreases tokens.len() - pos, 2nat,
{
    match parse_primary(tokens, pos) {
        Err(e) => Err(e),
        Ok((left, next)) => if moved(tokens, pos, next) {
            multiplicative_rest(tokens, next, left)
        } else {
            Ok((left, next))
        },
    }
}

/// The rest of a multiplicative expression behind its left operand.
#[verifier::opaque]
pub open spec fn multiplicative_rest(tokens: Seq<SpecToken>, pos: nat, left: SpecExpr)
    -> Parsed<SpecExpr>
    decreases tokens.len() - pos, 1nat,
{
    match multiplicative_op(kind_at(tokens, pos)) {
        None => Ok((left, pos)),
        Some(op) => match parse_primary(tokens, pos + 1) {
            Err(e) => Err(e),
            Ok((right, next)) => if moved(tokens, pos, next) {
                multiplicative_rest(tokens, next, binary(left, op, right))
            } else {
                Ok((binary(left, op, right), next))
            },
        },
    }
}

/// A primary: an integer or string literal, an expression in
/// parentheses, a variable, or a call, which is an identifier with `(`
/// right behind it.
#[verifier::opaque]
pub open spec fn parse_primary(tokens: Seq<SpecToken>, pos: nat) -> Parsed<SpecExpr>
    decreases tokens.len() - pos, 0nat,
{
    match token_at(tokens, pos) {
        SpecToken::Int(v) => Ok((SpecExpr::IntLiteral(v), pos + 1)),
        SpecToken::String(s) => Ok((SpecExpr::StringLiteral(s), pos + 1)),
        SpecToken::Ident(name) => if kind_at(tokens, pos + 1) == TokenKind::LParen {
            match parse_args(tokens, pos + 2, Seq::empty()) {
                Err(e) => Err(e),
                Ok((args, next)) => match expect(tokens, next, TokenKind::RParen) {
                    Err(e) => Err(e),
                    Ok(end) => Ok((SpecExpr::Call { name, args }, end)),
                },
            }
        } else {
            Ok((SpecExpr::VarRef(name), pos + 1))
        },
        SpecToken::LParen => match parse_expression(tokens, pos + 1) {
            Err(e) => Err(e),
            Ok((inner, next)) => match expect(tokens, next, TokenKind::RParen) {
                Err(e) => Err(e),
                Ok(end) => Ok((inner, end)),
            },
        },
        other => Err(SpecParseError::UnexpectedToken { found: other }),
    }
}

/// The arguments of a call from `pos` on, behind the arguments `done`:
/// expressions separated by commas, up to the `)`, which is left for the
/// caller. A comma may stand before the `)`.
#[verifier::opaque]
pub open spec fn parse_args(tokens: Seq<SpecToken>, pos: nat, done: Seq<SpecExpr>) -> Parsed<
    Seq<SpecExpr>,
>
    decreases tokens.len() - pos, 8nat,
{
    if kind_at(tokens, pos) == TokenKind::RParen {
        Ok((done, pos))
    } else {
        match parse_expression(tokens, pos) {
            Err(e) => Err(e),
            Ok((arg, next)) => if kind_at(tokens, next) == TokenKind::Comma && moved(
                tokens,
                pos,
                next,
            ) {
                parse_args(tokens, next + 1, done.push(arg))
            } else {
                Ok((done.push(arg), next))
            },
        }
    }
}

/// An expression and the `;` behind it.
pub open spec fn parse_terminated(tokens: Seq<SpecToken>, pos: nat) -> Parsed<SpecExpr> {
    match parse_expression(tokens, pos) {
        Err(e) => Err(e),
        Ok((e, next)) => match expect(tokens, next, TokenKind::Semicolon) {
            Err(e) => Err(e),
            Ok(end) => Ok((e, end)),
        },
    }
}

/// A declaration: `let` name `=` expression `;`.
pub open spec fn parse_let(tokens: Seq<SpecToken>, pos: nat) -> Parsed<SpecStmt> {
    match expect(tokens, pos, TokenKind::Let) {
        Err(e) => Err(e),
        Ok(_) => match expect_name(tokens, pos + 1) {
            Err(e) => Err(e),
            Ok(name) => match expect(tokens, pos + 2, TokenKind::Equal) {
                Err(e) => Err(e),
                Ok(_) => match parse_terminated(tokens, pos + 3) {
                    Err(e) => Err(e),
                    Ok((value, end)) => Ok((SpecStmt::Let { name, value }, end)),
                },
            },
        },
    }
}

/// An assignment: name `=` expression `;`.
pub open spec fn parse_assign(tokens: Seq<SpecToken>, pos: nat) -> Parsed<SpecStmt> {
    match expect_name(tokens, pos) {
        Err(e) => Err(e),
        Ok(name) => match expect(tokens, pos + 1, TokenKind::Equal) {
            Err(e) => Err(e),
            Ok(_) => match parse_terminated(tokens, pos + 2) {
                Err(e) => Err(e),
                Ok((value, end)) => Ok((SpecStmt::Assign { name, value }, end)),
            },
        },
    }
}

/// The head of a conditional or a loop, behind its keyword: `(`
/// expression `)` `{`.
pub open spec fn parse_head(tokens: Seq<SpecToken>, pos: nat) -> Parsed<SpecExpr> {
    match expect(tokens, pos, TokenKind::LParen) {
        Err(e) => Err(e),
        Ok(_) => match parse_expression(tokens, pos + 1) {
            Err(e) => Err(e),
            Ok((condition, next)) => match expect(tokens, next, TokenKind::RParen) {
                Err(e) => Err(e),
                Ok(_) => match expect(tokens, next + 1, TokenKind::LBrace) {
                    Err(e) => Err(e),
                    Ok(end) => Ok((condition, end)),
                },
            },
        },
    }
}

/// A statement that holds no block: a declaration, an assignment, a
/// `return`, `break` or `continue`, or an expression statement. An
/// identifier with `=` right behind it starts an assignment.
pub open spec fn parse_simple(tokens: Seq<SpecToken>, pos: nat) -> Parsed<SpecStmt> {
    match kind_at(tokens, pos) {
        TokenKind::Let => parse_let(tokens, pos),
        TokenKind::Return => match parse_terminated(tokens, pos + 1) {
            Err(e) => Err(e),
            Ok((e, end)) => Ok((SpecStmt::Return(e), end)),
        },
        TokenKind::Break => match expect(tokens, pos + 1, TokenKind::Semicolon) {
            Err(e) => Err(e),
            Ok(end) => Ok((SpecStmt::Break, end)),
        },
        TokenKind::Continue => match expect(tokens, pos + 1, TokenKind::Semicolon) {
            Err(e) => Err(e),
            Ok(end) => Ok((SpecStmt::Continue, end)),
        },
        TokenKind::Ident => if kind_at(tokens, pos + 1) == TokenKind::Equal {
            parse_assign(tokens, pos)
        } else {
            match parse_terminated(tokens, pos) {
                Err(e) => Err(e),
                Ok((e, end)) => Ok((SpecStmt::ExprStmt(e), end)),
            }
        },
        _ => match parse_terminated(tokens, pos) {
            Err(e) => Err(e),
            Ok((e, end)) => Ok((SpecStmt::ExprStmt(e), end)),
        },
    }
}

/// A conditional: `if` `(` expression `)` `{` block `}`, and then
/// possibly `else` `{` block `}`.
#[verifier::opaque]
pub open spec fn parse_if(tokens: Seq<SpecToken>, pos: nat) -> Parsed<SpecStmt>
    decreases tokens.len() - pos, 1nat,
{
    match expect(tokens, pos, TokenKind::If) {
        Err(e) => Err(e),
        Ok(_) => match parse_head(tokens, pos + 1) {
            Err(e) => Err(e),
            Ok((condition, then_at)) => {
                proof {
                    lemma_head_moves(tokens, pos + 1);
                }
                match parse_closed_block(tokens, then_at) {
                    Err(e) => Err(e),
                    Ok((then_block, next)) => if kind_at(tokens, next) == TokenKind::Else
                        && moved(tokens, pos, next) {
                        match expect(tokens, next + 1, TokenKind::LBrace) {
                            Err(e) => Err(e),
                            Ok(else_at) => match parse_closed_block(tokens, else_at) {
                                Err(e) => Err(e),
                                Ok((else_block, end)) => Ok(
                                    (
                                        SpecStmt::If {
                                            condition,
                                            then_block,
                                            else_block: Some(else_block),
                                        },
                                        end,
                                    ),
                                ),
                            },
                        }
                    } else {
                        Ok((SpecStmt::If { condition, then_block, else_block: None }, next))
                    },
                }
            },
        },
    }
}

/// A loop: `while` `(` expression `)` `{` block `}`.
#[verifier::opaque]
pub open spec fn parse_while(tokens: Seq<SpecToken>, pos: nat) -> Parsed<SpecStmt>
    decreases tokens.len() - pos, 1nat,
{
    match expect(tokens, pos, TokenKind::While) {
        Err(e) => Err(e),
        Ok(_) => match parse_head(tokens, pos + 1) {
            Err(e) => Err(e),
            Ok((condition, body_at)) => {
                proof {
                    lemma_head_moves(tokens, pos + 1);
                }
                match parse_closed_block(tokens, body_at) {
                    Err(e) => Err(e),
                    Ok((body, end)) => Ok((SpecStmt::While { condition, body }, end)),
                }
            },
        },
    }
}

/// A statement, chosen by its first token.
#[verifier::opaque]
pub open spec fn parse_statement(tokens: Seq<SpecToken>, pos: nat) -> Parsed<SpecStmt>
    decreases tokens.len() - pos, 2nat,
{
    match kind_at(tokens, pos) {
        TokenKind::If => parse_if(tokens, pos),
        TokenKind::While => parse_while(tokens, pos),
        _ => parse_simple(tokens, pos),
    }
}

/// The statements of a block from `pos` on and the `}` behind them.
#[verifier::opaque]
pub open spec fn parse_closed_block(tokens: Seq<SpecToken>, pos: nat) -> Parsed<SpecBlock>
    decreases tokens.len() - pos, 4nat,
{
    match parse_block(tokens, pos, Seq::empty()) {
        Err(e) => Err(e),
        Ok((block, next)) => match expect(tokens, next, TokenKind::RBrace) {
            Err(e) => Err(e),
            Ok(end) => Ok((block, end)),
        },
    }
}

/// The statements of a block from `pos` on, behind the statements
/// `done`, up to the `}`, which is left for the caller.
#[verifier::opaque]
pub open spec fn parse_block(tokens: Seq<SpecToken>, pos: nat, done: SpecBlock) -> Parsed<
    SpecBlock,
>
    decreases tokens.len() - pos, 3nat,
{
    if kind_at(tokens, pos) == TokenKind::RBrace {
        Ok((done, pos))
    } else {
        match parse_statement(tokens, pos) {
            Err(e) => Err(e),
            Ok((s, next)) => if moved(tokens, pos, next) {
                parse_block(tokens, next, done.push(s))
            } else {
                Ok((done.push(s), next))
            },
        }
    }
}

/// The parameters of a function from `pos` on, behind the parameters
/// `done`: names separated by commas, up to the `)`, which is left for
/// the caller. A comma may stand before the `)`.
#[verifier::opaque]
pub open spec fn parse_params(tokens: Seq<SpecToken>, pos: nat, done: Seq<Seq<char>>) -> Parsed<
    Seq<Seq<char>>,
>
    decreases tokens.len() - pos,
{
    if kind_at(tokens, pos) == TokenKind::RParen {
        Ok((done, pos))
    } else {
        match expect_name(tokens, pos) {
            Err(e) => Err(e),
            Ok(name) => if kind_at(tokens, pos + 1) == TokenKind::Comma {
                parse_params(tokens, pos + 2, done.push(name))
            } else {
                Ok((done.push(name), pos + 1))
            },
        }
    }
}

/// A function: `fn` name `(` parameters `)` `{` block `}`.
pub open spec fn parse_function(tokens: Seq<SpecToken>, pos: nat) -> Parsed<SpecFunctionDecl> {
    match expect(tokens, pos, TokenKind::Fn) {
        Err(e) => Err(e),
        Ok(_) => match expect_name(tokens, pos + 1) {
            Err(e) => Err(e),
            Ok(name) => match expect(tokens, pos + 2, TokenKind::LParen) {
                Err(e) => Err(e),
                Ok(_) => match parse_params(tokens, pos + 3, Seq::empty()) {
                    Err(e) => Err(e),
                    Ok((params, next)) => match expect(tokens, next, TokenKind::RParen) {
                        Err(e) => Err(e),
                        Ok(_) => match expect(tokens, next + 1, TokenKind::LBrace) {
                            Err(e) => Err(e),
                            Ok(body_at) => match parse_closed_block(tokens, body_at) {
                                Err(e) => Err(e),
                                Ok((body, end)) => Ok(
                                    (SpecFunctionDecl { name, params, body }, end),
                                ),
                            },
                        },
                    },
                },
            },
        },
    }
}

/// The functions of a program from `pos` on, behind the functions
/// `done`, up to the end marker.
#[verifier::opaque]
pub open spec fn parse_functions(
    tokens: Seq<SpecToken>,
    pos: nat,
    done: Seq<SpecFunctionDecl>,
) -> Result<Seq<SpecFunctionDecl>, SpecParseError>
    decreases tokens.len() - pos,
{
    if kind_at(tokens, pos) == TokenKind::EOF {
        Ok(done)
    } else {
        match parse_function(tokens, pos) {
            Err(e) => Err(e),
            Ok((f, next)) => {
                proof {
                    lemma_function_moves(tokens, pos);
                }
                parse_functions(tokens, next, done.push(f))
            },
        }
    }
}

/// A program: functions up to the end marker. What stands behind the
/// first end marker is not looked at.
pub open spec fn parse_program(tokens: Seq<SpecToken>, pos: nat) -> Result<
    SpecProgram,
    SpecParseError,
> {
    match parse_functions(tokens, pos, Seq::empty()) {
        Err(e) => Err(e),
        Ok(functions) => Ok(SpecProgram { functions }),
    }
}

/// A successful parse of a primary ends behind its start and inside the
/// input.
pub proof fn lemma_primary_moves(tokens: Seq<SpecToken>, pos: nat)
    ensures
        parse_primary(tokens, pos) matches Ok((_, end)) ==> moved(tokens, pos, end),
    decreases tokens.len() - pos, 0nat,
{
    reveal(parse_primary);
    reveal(parse_args);
    reveal(parse_expression);
    match token_at(tokens, pos) {
        SpecToken::Ident(name) => {
            if kind_at(tokens, pos + 1) == TokenKind::LParen {
                lemma_args_move(tokens, pos + 2, Seq::empty());
            }
        },
        SpecToken::LParen => {
            lemma_expression_moves(tokens, pos + 1);
        },
        _ => {},
    }
}

/// The rest of a multiplicative expression ends inside the input and
/// not before its start.
pub proof fn lemma_multiplicative_rest_moves(tokens: Seq<SpecToken>, pos: nat, left: SpecExpr)
    requires
        pos <= tokens.len(),
    ensures
        multiplicative_rest(tokens, pos, left) matches Ok((_, end)) ==> pos <= end
            <= tokens.len(),
    decreases tokens.len() - pos, 1nat,
{
    reveal(multiplicative_rest);
    reveal(parse_primary);
    match multiplicative_op(kind_at(tokens, pos)) {
        None => {},
        Some(op) => {
            lemma_primary_moves(tokens, pos + 1);
            match parse_primary(tokens, pos + 1) {
                Ok((right, next)) => {
                    lemma_multiplicative_rest_moves(tokens, next, binary(left, op, right));
                },
                _ => {},
            }
        },
    }
}

/// A successful parse of a multiplicative expression ends behind its
/// start and inside the input.
pub proof fn lemma_mul_div_moves(tokens: Seq<SpecToken>, pos: nat)
    ensures
        parse_mul_div(tokens, pos) matches Ok((_, end)) ==> moved(tokens, pos, end),
    decreases tokens.len() - pos, 2nat,
{
    reveal(parse_mul_div);
    reveal(parse_primary);
    reveal(multiplicative_rest);
    lemma_primary_moves(tokens, pos);
    match parse_primary(tokens, pos) {
        Ok((left, next)) => {
            lemma_multiplicative_rest_moves(tokens, next, left);
        },
        _ => {},
    }
}

/// The rest of an additive expression ends inside the input and not
/// before its start.
pub proof fn lemma_additive_rest_moves(tokens: Seq<SpecToken>, pos: nat, left: SpecExpr)
    requires
        pos <= tokens.len(),
    ensures
        additive_rest(tokens, pos, left) matches Ok((_, end)) ==> pos <= end <= tokens.len(),
    decreases tokens.len() - pos, 3nat,
{
    reveal(additive_rest);
    reveal(parse_mul_div);
    match additive_op(kind_at(tokens, pos)) {
        None => {},
        Some(op) => {
            lemma_mul_div_moves(tokens, pos + 1);
            match parse_mul_div(tokens, pos + 1) {
                Ok((right, next)) => {
                    lemma_additive_rest_moves(tokens, next, binary(left, op, right));
                },
                _ => {},
            }
        },
    }
}

/// A successful parse of an additive expression ends behind its start
/// and inside the input.
pub proof fn lemma_add_sub_moves(tokens: Seq<SpecToken>, pos: nat)
    ensures
        parse_add_sub(tokens, pos) matches Ok((_, end)) ==> moved(tokens, pos, end),
    decreases tokens.len() - pos, 4nat,
{
    reveal(parse_add_sub);
    reveal(parse_mul_div);
    reveal(additive_rest);
    lemma_mul_div_moves(tokens, pos);
    match parse_mul_div(tokens, pos) {
        Ok((left, next)) => {
            lemma_additive_rest_moves(tokens, next, left);
        },
        _ => {},
    }
}

/// The rest of a comparison ends inside the input and not before its
/// start.
pub proof fn lemma_comparison_rest_moves(tokens: Seq<SpecToken>, pos: nat, left: SpecExpr)
    requires
        pos <= tokens.len(),
    ensures
        comparison_rest(tokens, pos, left) matches Ok((_, end)) ==> pos <= end <= tokens.len(),
    decreases tokens.len() - pos, 5nat,
{
    reveal(comparison_rest);
    reveal(parse_add_sub);
    match comparison_op(kind_at(tokens, pos)) {
        None => {},
        Some(op) => {
            lemma_add_sub_moves(tokens, pos + 1);
            match parse_add_sub(tokens, pos + 1) {
                Ok((right, next)) => {
                    lemma_comparison_rest_moves(tokens, next, binary(left, op, right));
                },
                _ => {},
            }
        },
    }
}

/// A successful parse of an expression ends behind its start and inside
/// the input.
pub proof fn lemma_expression_moves(tokens: Seq<SpecToken>, pos: nat)
    ensures
        parse_expression(tokens, pos) matches Ok((_, end)) ==> moved(tokens, pos, end),
    decreases tokens.len() - pos, 7nat,
{
    reveal(parse_expression);
    reveal(parse_comparison);
    reveal(parse_add_sub);
    reveal(comparison_rest);
    lemma_add_sub_moves(tokens, pos);
    match parse_add_sub(tokens, pos) {
        Ok((left, next)) => {
            lemma_comparison_rest_moves(tokens, next, left);
        },
        _ => {},
    }
}

/// The arguments of a call end inside the input and not before their
/// start.
pub proof fn lemma_args_move(tokens: Seq<SpecToken>, pos: nat, done: Seq<SpecExpr>)
    ensures
        parse_args(tokens, pos, done) matches Ok((_, end)) ==> pos <= end <= tokens.len(),
    decreases tokens.len() - pos, 8nat,
{
    reveal(parse_args);
    reveal(parse_expression);
    if kind_at(tokens, pos) != TokenKind::RParen {
        lemma_expression_moves(tokens, pos);
        match parse_expression(tokens, pos) {
            Ok((arg, next)) => {
                if kind_at(tokens, next) == TokenKind::Comma {
                    lemma_args_move(tokens, next + 1, done.push(arg));
                }
            },
            _ => {},
        }
    }
}

/// A successful parse of the head of a conditional or loop ends behind
/// its start and inside the input.
pub proof fn lemma_head_moves(tokens: Seq<SpecToken>, pos: nat)
    ensures
        parse_head(tokens, pos) matches Ok((_, end)) ==> moved(tokens, pos, end),
{
    lemma_expression_moves(tokens, pos + 1);
}

/// A successful parse of an expression with its `;` ends behind its
/// start and inside the input.
pub proof fn lemma_terminated_moves(tokens: Seq<SpecToken>, pos: nat)
    ensures
        parse_terminated(tokens, pos) matches Ok((_, end)) ==> moved(tokens, pos, end),
{
    lemma_expression_moves(tokens, pos);
}

/// A successful parse of a statement without block ends behind its
/// start and inside the input.
pub proof fn lemma_simple_moves(tokens: Seq<SpecToken>, pos: nat)
    ensures
        parse_simple(tokens, pos) matches Ok((_, end)) ==> moved(tokens, pos, end),
{
    lemma_terminated_moves(tokens, pos);
    lemma_terminated_moves(tokens, pos + 1);
    lemma_terminated_moves(tokens, pos + 2);
    lemma_terminated_moves(tokens, pos + 3);
}

/// A successful parse of a conditional ends behind its start and inside
/// the input.
pub proof fn lemma_if_moves(tokens: Seq<SpecToken>, pos: nat)
    ensures
        parse_if(tokens, pos) matches Ok((_, end)) ==> moved(tokens, pos, end),
    decreases tokens.len() - pos, 1nat,
{
    reveal(parse_if);
    reveal(parse_closed_block);
    lemma_head_moves(tokens, pos + 1);
    match parse_head(tokens, pos + 1) {
        Ok((_, then_at)) => {
            lemma_closed_block_moves(tokens, then_at);
            match parse_closed_block(tokens, then_at) {
                Ok((_, next)) => {
                    if kind_at(tokens, next) == TokenKind::Else && kind_at(tokens, next + 1)
                        == TokenKind::LBrace {
                        lemma_closed_block_moves(tokens, next + 2);
                    }
                },
                _ => {},
            }
        },
        _ => {},
    }
}

/// A successful parse of a loop ends behind its start and inside the
/// input.
pub proof fn lemma_while_moves(tokens: Seq<SpecToken>, pos: nat)
    ensures
        parse_while(tokens, pos) matches Ok((_, end)) ==> moved(tokens, pos, end),
    decreases tokens.len() - pos, 1nat,
{
    reveal(parse_while);
    reveal(parse_closed_block);
    lemma_head_moves(tokens, pos + 1);
    match parse_head(tokens, pos + 1) {
        Ok((_, body_at)) => {
            lemma_closed_block_moves(tokens, body_at);
        },
        _ => {},
    }
}

/// A successful parse of a statement ends behind its start and inside
/// the input.
pub proof fn lemma_statement_moves(tokens: Seq<SpecToken>, pos: nat)
    ensures
        parse_statement(tokens, pos) matches Ok((_, end)) ==> moved(tokens, pos, end),
    decreases tokens.len() - pos, 2nat,
{
    reveal(parse_statement);
    reveal(parse_if);
    reveal(parse_while);
    match kind_at(tokens, pos) {
        TokenKind::If => lemma_if_moves(tokens, pos),
        TokenKind::While => lemma_while_moves(tokens, pos),
        _ => lemma_simple_moves(tokens, pos),
    }
}

/// The statements of a block end inside the input and not before their
/// start.
pub proof fn lemma_block_moves(tokens: Seq<SpecToken>, pos: nat, done: SpecBlock)
    ensures
        parse_block(tokens, pos, done) matches Ok((_, end)) ==> pos <= end <= tokens.len(),
    decreases tokens.len() - pos, 3nat,
{
    reveal(parse_block);
    reveal(parse_statement);
    if kind_at(tokens, pos) != TokenKind::RBrace {
        lemma_statement_moves(tokens, pos);
        match parse_statement(tokens, pos) {
            Ok((s, next)) => {
                lemma_block_moves(tokens, next, done.push(s));
            },
            _ => {},
        }
    }
}

/// A successful parse of a block with its `}` ends behind its start and
/// inside the input.
pub proof fn lemma_closed_block_moves(tokens: Seq<SpecToken>, pos: nat)
    ensures
        parse_closed_block(tokens, pos) matches Ok((_, end)) ==> moved(tokens, pos, end),
    decreases tokens.len() - pos, 4nat,
{
    reveal(parse_closed_block);
    reveal(parse_block);
    lemma_block_moves(tokens, pos, Seq::empty());
}

/// The parameters of a function end inside the input and not before
/// their start.
pub proof fn lemma_params_move(tokens: Seq<SpecToken>, pos: nat, done: Seq<Seq<char>>)
    ensures
        parse_params(tokens, pos, done) matches Ok((_, end)) ==> pos <= end <= tokens.len(),
    decreases tokens.len() - pos,
{
    reveal(parse_params);
    if kind_at(tokens, pos) != TokenKind::RParen {
        if expect_name(tokens, pos) is Ok && kind_at(tokens, pos + 1) == TokenKind::Comma {
            lemma_params_move(tokens, pos + 2, done.push(expect_name(tokens, pos)->Ok_0));
        }
    }
}

/// A successful parse of a function ends behind its start and inside
/// the input.
pub proof fn lemma_function_moves(tokens: Seq<SpecToken>, pos: nat)
    ensures
        parse_function(tokens, pos) matches Ok((_, end)) ==> moved(tokens, pos, end),
{
    lemma_params_move(tokens, pos + 3, Seq::empty());
    match parse_params(tokens, pos + 3, Seq::empty()) {
        Ok((_, next)) => {
            lemma_closed_block_moves(tokens, next + 2);
        },
        _ => {},
    }
}

/// The models of a sequence of expressions, element by element.
pub open spec fn exprs_view(s: Seq<Expr>) -> Seq<SpecExpr> {
    Seq::new(s.len(), |i: int| s[i]@)
}

/// The models of a sequence of statements, element by element.
pub open spec fn stmts_view(s: Seq<Stmt>) -> SpecBlock {
    Seq::new(s.len(), |i: int| s[i]@)
}

/// The models of a sequence of functions, element by element.
pub open spec fn decls_view(s: Seq<FunctionDecl>) -> Seq<SpecFunctionDecl> {
    Seq::new(s.len(), |i: int| s[i]@)
}

/// Model of a parser: the tokens and the position of the cursor in
/// them.
pub struct SpecParser {
    pub tokens: Seq<SpecToken>,
    pub position: nat,
}

/// The parser. It holds the tokens and a cursor.
pub struct Parser {
    tokens: Vec<Token>,
    position: usize,
}

impl View for Parser {
    type V = SpecParser;

    closed spec fn view(&self) -> SpecParser {
        SpecParser { tokens: tokens_view(self.tokens@), position: self.position as nat }
    }
}

impl Parser {
    /// The cursor never leaves the tokens.
    #[verifier::type_invariant]
    spec fn cursor_inside(self) -> bool {
        self.position <= self.tokens.len()
    }

    /// A parser at the start of `tokens`. The tokens need not end with
    /// the end marker: behind the last token the parser sees one.
    pub fn new(tokens: Vec<Token>) -> (p: Self)
        ensures
            p@ == (SpecParser { tokens: tokens_view(tokens@), position: 0 }),
    {
        Parser { tokens, position: 0 }
    }

    /// The token under the cursor; behind the last token, the end marker.
    fn current(&self) -> (t: Token)
        ensures
            t@ == token_at(self@.tokens, self@.position),
            self@.position <= self@.tokens.len(),
    {
        proof {
            use_type_invariant(self);
        }
        if self.position < self.tokens.len() {
            self.tokens[self.position].clone()
        } else {
            Token::EOF
        }
    }

    /// The kind of the token under the cursor.
    fn kind(&self) -> (k: TokenKind)
        ensures
            k == kind_at(self@.tokens, self@.position),
            self@.position <= self@.tokens.len(),
            k != TokenKind::EOF ==> self@.position < self@.tokens.len(),
    {
        proof {
            use_type_invariant(self);
        }
        if self.position < self.tokens.len() {
            self.tokens[self.position].kind()
        } else {
            TokenKind::EOF
        }
    }

    /// The kind of the token behind the one under the cursor.
    fn next_kind(&self) -> (k: TokenKind)
        ensures
            k == kind_at(self@.tokens, self@.position + 1),
            k != TokenKind::EOF ==> self@.position + 1 < self@.tokens.len(),
    {
        proof {
            use_type_invariant(self);
        }
        if self.position < self.tokens.len() && self.position + 1 < self.tokens.len() {
            self.tokens[self.position + 1].kind()
        } else {
            TokenKind::EOF
        }
    }

    fn advance(&mut self)
        requires
            old(self)@.position < old(self)@.tokens.len(),
        ensures
            final(self)@ == (SpecParser { position: old(self)@.position + 1, ..old(self)@ }),
    {
        proof {
            use_type_invariant(&*self);
        }
        self.position = self.position + 1;
    }

    /// Passes a token of kind `kind`, or fails on another token.
    fn expect(&mut self, kind: TokenKind) -> (r: Result<(), ParseError>)
        requires
            kind != TokenKind::EOF,
        ensures
            final(self)@.tokens == old(self)@.tokens,
            match expect(old(self)@.tokens, old(self)@.position, kind) {
                Ok(end) => r is Ok && final(self)@.position == end && end
                    <= old(self)@.tokens.len(),
                Err(err) => r matches Err(e) && e@ == err,
            },
    {
        if self.kind() == kind {
            self.advance();
            Ok(())
        } else {
            Err(ParseError::Expected { expected: kind, found: self.current() })
        }
    }

    /// Passes an identifier and returns its name, or fails on another
    /// token.
    fn expect_name(&mut self) -> (r: Result<String, ParseError>)
        ensures
            final(self)@.tokens == old(self)@.tokens,
            match expect_name(old(self)@.tokens, old(self)@.position) {
                Ok(name) => r matches Ok(n) && n@ == name && final(self)@.position
                    == old(self)@.position + 1 && old(self)@.position
                    < old(self)@.tokens.len(),
                Err(err) => r matches Err(e) && e@ == err,
            },
    {
        match self.current() {
            Token::Ident(name) => {
                self.advance();
                Ok(name)
            },
            other => Err(ParseError::Expected { expected: TokenKind::Ident, found: other }),
        }
    }

    fn parse_primary(&mut self) -> (r: Result<Expr, ParseError>)
        ensures
            final(self)@.tokens == old(self)@.tokens,
            match parse_primary(old(self)@.tokens, old(self)@.position) {
                Ok((v, end)) => r matches Ok(x) && x@ == v && final(self)@.position == end
                    && moved(old(self)@.tokens, old(self)@.position, end),
                Err(err) => r matches Err(e) && e@ == err,
            },
        decreases old(self)@.tokens.len() - old(self)@.position, 0nat,
    {
        let ghost tokens = self@.tokens;
        let ghost start = self@.position;
        proof {
            reveal(parse_primary);
            reveal(parse_expression);
            reveal(parse_args);
            lemma_primary_moves(tokens, start);
        }
        match self.current() {
            Token::Int(v) => {
                self.advance();
                Ok(Expr::IntLiteral(v))
            },
            Token::String(s) => {
                self.advance();
                Ok(Expr::StringLiteral(s))
            },
            Token::Ident(name) => {
                if self.next_kind() == TokenKind::LParen {
                    self.advance();
                    self.advance();
                    let args = match self.parse_args() {
                        Err(e) => {
                            return Err(e);
                        },
                        Ok(args) => args,
                    };
                    match self.expect(TokenKind::RParen) {
                        Err(e) => {
                            return Err(e);
                        },
                        Ok(()) => {},
                    }
                    let call = Expr::Call { name, args };
                    assert(call@->args == exprs_view(args@));
                    Ok(call)
                } else {
                    self.advance();
                    Ok(Expr::VarRef(name))
                }
            },
            Token::LParen => {
                self.advance();
                let inner = match self.parse_expression() {
                    Err(e) => {
                        return Err(e);
                    },
                    Ok(inner) => inner,
                };
                match self.expect(TokenKind::RParen) {
                    Err(e) => {
                        return Err(e);
                    },
                    Ok(()) => {},
                }
                Ok(inner)
            },
            other => Err(ParseError::UnexpectedToken { found: other }),
        }
    }

    /// The arguments of a call, up to the `)`.
    fn parse_args(&mut self) -> (r: Result<Vec<Expr>, ParseError>)
        ensures
            final(self)@.tokens == old(self)@.tokens,
            match parse_args(old(self)@.tokens, old(self)@.position, Seq::empty()) {
                Ok((v, end)) => r matches Ok(x) && exprs_view(x@) == v && final(self)@.position
                    == end,
                Err(err) => r matches Err(e) && e@ == err,
            },
        decreases old(self)@.tokens.len() - old(self)@.position, 8nat,
    {
        let ghost tokens = self@.tokens;
        let ghost start = self@.position;
        let mut args: Vec<Expr> = Vec::new();
        proof {
            use_type_invariant(&*self);
            assert(exprs_view(args@) == Seq::<SpecExpr>::empty());
        }
        loop
            invariant_except_break
                parse_args(tokens, start, Seq::empty()) == parse_args(
                    tokens,
                    self@.position,
                    exprs_view(args@),
                ),
            invariant
                tokens == old(self)@.tokens,
                start == old(self)@.position,
                self@.tokens == tokens,
                start <= self@.position <= tokens.len(),
            ensures
                self@.tokens == tokens,
                parse_args(tokens, start, Seq::empty()) == Ok::<
                    (Seq<SpecExpr>, nat),
                    SpecParseError,
                >((exprs_view(args@), self@.position)),
            decreases tokens.len() - self@.position,
        {
            proof {
                reveal(parse_args);
                reveal(parse_expression);
            }
            if self.kind() == TokenKind::RParen {
                break ;
            }
            let arg = match self.parse_expression() {
                Err(e) => {
                    return Err(e);
                },
                Ok(arg) => arg,
            };
            assert(exprs_view(args@.push(arg)) == exprs_view(args@).push(arg@));
            args.push(arg);
            if self.kind() == TokenKind::Comma {
                self.advance();
            } else {
                break ;
            }
        }
        Ok(args)
    }

    fn parse_mul_div(&mut self) -> (r: Result<Expr, ParseError>)
        ensures
            final(self)@.tokens == old(self)@.tokens,
            match parse_mul_div(old(self)@.tokens, old(self)@.position) {
                Ok((v, end)) => r matches Ok(x) && x@ == v && final(self)@.position == end
                    && moved(old(self)@.tokens, old(self)@.position, end),
                Err(err) => r matches Err(e) && e@ == err,
            },
        decreases old(self)@.tokens.len() - old(self)@.position, 2nat,
    {
        let ghost tokens = self@.tokens;
        let ghost start = self@.position;
        proof {
            reveal(parse_mul_div);
            reveal(parse_primary);
            reveal(multiplicative_rest);
        }
        let mut expr = match self.parse_primary() {
            Err(e) => {
                return Err(e);
            },
            Ok(expr) => expr,
        };
        loop
            invariant_except_break
                parse_mul_div(tokens, start) == multiplicative_rest(
                    tokens,
                    self@.position,
                    expr@,
                ),
            invariant
                tokens == old(self)@.tokens,
                start == old(self)@.position,
                self@.tokens == tokens,
                start < self@.position <= tokens.len(),
            ensures
                self@.tokens == tokens,
                start < self@.position <= tokens.len(),
                parse_mul_div(tokens, start) == Ok::<(SpecExpr, nat), SpecParseError>(
                    (expr@, self@.position),
                ),
            decreases tokens.len() - self@.position,
        {
            proof {
                reveal(parse_primary);
                reveal(multiplicative_rest);
            }
            let op = match self.kind() {
                TokenKind::Star => BinOp::Mul,
                TokenKind::Slash => BinOp::Div,
                _ => {
                    break ;
                },
            };
            self.advance();
            let right = match self.parse_primary() {
                Err(e) => {
                    return Err(e);
                },
                Ok(right) => right,
            };
            expr = Expr::Binary { left: Box::new(expr), op, right: Box::new(right) };
        }
        Ok(expr)
    }

    fn parse_add_sub(&mut self) -> (r: Result<Expr, ParseError>)
        ensures
            final(self)@.tokens == old(self)@.tokens,
            match parse_add_sub(old(self)@.tokens, old(self)@.position) {
                Ok((v, end)) => r matches Ok(x) && x@ == v && final(self)@.position == end
                    && moved(old(self)@.tokens, old(self)@.position, end),
                Err(err) => r matches Err(e) && e@ == err,
            },
        decreases old(self)@.tokens.len() - old(self)@.position, 4nat,
    {
        let ghost tokens = self@.tokens;
        let ghost start = self@.position;
        proof {
            reveal(parse_add_sub);
            reveal(parse_mul_div);
            reveal(additive_rest);
        }
        let mut expr = match self.parse_mul_div() {
            Err(e) => {
                return Err(e);
            },
            Ok(expr) => expr,
        };
        loop
            invariant_except_break
                parse_add_sub(tokens, start) == additive_rest(tokens, self@.position, expr@),
            invariant
                tokens == old(self)@.tokens,
                start == old(self)@.position,
                self@.tokens == tokens,
                start < self@.position <= tokens.len(),
            ensures
                self@.tokens == tokens,
                start < self@.position <= tokens.len(),
                parse_add_sub(tokens, start) == Ok::<(SpecExpr, nat), SpecParseError>(
                    (expr@, self@.position),
                ),
            decreases tokens.len() - self@.position,
        {
            proof {
                reveal(parse_mul_div);
                reveal(additive_rest);
            }
            let op = match self.kind() {
                TokenKind::Plus => BinOp::Add,
                TokenKind::Minus => BinOp::Sub,
                _ => {
                    break ;
                },
            };
            self.advance();
            let right = match self.parse_mul_div() {
                Err(e) => {
                    return Err(e);
                },
                Ok(right) => right,
            };
            expr = Expr::Binary { left: Box::new(expr), op, right: Box::new(right) };
        }
        Ok(expr)
    }

    fn parse_comparison(&mut self) -> (r: Result<Expr, ParseError>)
        ensures
            final(self)@.tokens == old(self)@.tokens,
            match parse_comparison(old(self)@.tokens, old(self)@.position) {
                Ok((v, end)) => r matches Ok(x) && x@ == v && final(self)@.position == end
                    && moved(old(self)@.tokens, old(self)@.position, end),
                Err(err) => r matches Err(e) && e@ == err,
            },
        decreases old(self)@.tokens.len() - old(self)@.position, 6nat,
    {
        let ghost tokens = self@.tokens;
        let ghost start = self@.position;
        proof {
            reveal(parse_comparison);
            reveal(parse_add_sub);
            reveal(comparison_rest);
        }
        let mut expr = match self.parse_add_sub() {
            Err(e) => {
                return Err(e);
            },
            Ok(expr) => expr,
        };
        loop
            invariant_except_break
                parse_comparison(tokens, start) == comparison_rest(
                    tokens,
                    self@.position,
                    expr@,
                ),
            invariant
                tokens == old(self)@.tokens,
                start == old(self)@.position,
                self@.tokens == tokens,
                start < self@.position <= tokens.len(),
            ensures
                self@.tokens == tokens,
                start < self@.position <= tokens.len(),
                parse_comparison(tokens, start) == Ok::<(SpecExpr, nat), SpecParseError>(
                    (expr@, self@.position),
                ),
            decreases tokens.len() - self@.position,
        {
            proof {
                reveal(parse_add_sub);
                reveal(comparison_rest);
            }
            let op = match self.kind() {
                TokenKind::Greater => BinOp::Greater,
                TokenKind::Less => BinOp::Less,
                TokenKind::EqualEqual => BinOp::Equal,
                _ => {
                    break ;
                },
            };
            self.advance();
            let right = match self.parse_add_sub() {
                Err(e) => {
                    return Err(e);
                },
                Ok(right) => right,
            };
            expr = Expr::Binary { left: Box::new(expr), op, right: Box::new(right) };
        }
        Ok(expr)
    }

    fn parse_expression(&mut self) -> (r: Result<Expr, ParseError>)
        ensures
            final(self)@.tokens == old(self)@.tokens,
            match parse_expression(old(self)@.tokens, old(self)@.position) {
                Ok((v, end)) => r matches Ok(x) && x@ == v && final(self)@.position == end
                    && moved(old(self)@.tokens, old(self)@.position, end),
                Err(err) => r matches Err(e) && e@ == err,
            },
        decreases old(self)@.tokens.len() - old(self)@.position, 7nat,
    {
        proof {
            reveal(parse_expression);
            reveal(parse_comparison);
        }
        self.parse_comparison()
    }

    /// An expression and the `;` behind it.
    fn parse_terminated(&mut self) -> (r: Result<Expr, ParseError>)
        ensures
            final(self)@.tokens == old(self)@.tokens,
            match parse_terminated(old(self)@.tokens, old(self)@.position) {
                Ok((v, end)) => r matches Ok(x) && x@ == v && final(self)@.position == end
                    && moved(old(self)@.tokens, old(self)@.position, end),
                Err(err) => r matches Err(e) && e@ == err,
            },
    {
        let expr = match self.parse_expression() {
            Err(e) => {
                return Err(e);
            },
            Ok(expr) => expr,
        };
        match self.expect(TokenKind::Semicolon) {
            Err(e) => {
                return Err(e);
            },
            Ok(()) => {},
        }
        Ok(expr)
    }

    fn parse_let(&mut self) -> (r: Result<Stmt, ParseError>)
        ensures
            final(self)@.tokens == old(self)@.tokens,
            match parse_let(old(self)@.tokens, old(self)@.position) {
                Ok((v, end)) => r matches Ok(x) && x@ == v && final(self)@.position == end
                    && moved(old(self)@.tokens, old(self)@.position, end),
                Err(err) => r matches Err(e) && e@ == err,
            },
    {
        match self.expect(TokenKind::Let) {
            Err(e) => {
                return Err(e);
            },
            Ok(()) => {},
        }
        let name = match self.expect_name() {
            Err(e) => {
                return Err(e);
            },
            Ok(name) => name,
        };
        match self.expect(TokenKind::Equal) {
            Err(e) => {
                return Err(e);
            },
            Ok(()) => {},
        }
        let value = match self.parse_terminated() {
            Err(e) => {
                return Err(e);
            },
            Ok(value) => value,
        };
        Ok(Stmt::Let { name, value })
    }

    fn parse_assign(&mut self) -> (r: Result<Stmt, ParseError>)
        ensures
            final(self)@.tokens == old(self)@.tokens,
            match parse_assign(old(self)@.tokens, old(self)@.position) {
                Ok((v, end)) => r matches Ok(x) && x@ == v && final(self)@.position == end
                    && moved(old(self)@.tokens, old(self)@.position, end),
                Err(err) => r matches Err(e) && e@ == err,
            },
    {
        let name = match self.expect_name() {
            Err(e) => {
                return Err(e);
            },
            Ok(name) => name,
        };
        match self.expect(TokenKind::Equal) {
            Err(e) => {
                return Err(e);
            },
            Ok(()) => {},
        }
        let value = match self.parse_terminated() {
            Err(e) => {
                return Err(e);
            },
            Ok(value) => value,
        };
        Ok(Stmt::Assign { name, value })
    }

    /// The head of a conditional or a loop, behind its keyword.
    fn parse_head(&mut self) -> (r: Result<Expr, ParseError>)
        ensures
            final(self)@.tokens == old(self)@.tokens,
            match parse_head(old(self)@.tokens, old(self)@.position) {
                Ok((v, end)) => r matches Ok(x) && x@ == v && final(self)@.position == end
                    && moved(old(self)@.tokens, old(self)@.position, end),
                Err(err) => r matches Err(e) && e@ == err,
            },
    {
        match self.expect(TokenKind::LParen) {
            Err(e) => {
                return Err(e);
            },
            Ok(()) => {},
        }
        let condition = match self.parse_expression() {
            Err(e) => {
                return Err(e);
            },
            Ok(condition) => condition,
        };
        match self.expect(TokenKind::RParen) {
            Err(e) => {
                return Err(e);
            },
            Ok(()) => {},
        }
        match self.expect(TokenKind::LBrace) {
            Err(e) => {
                return Err(e);
            },
            Ok(()) => {},
        }
        Ok(condition)
    }

    /// A statement that holds no block.
    fn parse_simple(&mut self) -> (r: Result<Stmt, ParseError>)
        ensures
            final(self)@.tokens == old(self)@.tokens,
            match parse_simple(old(self)@.tokens, old(self)@.position) {
                Ok((v, end)) => r matches Ok(x) && x@ == v && final(self)@.position == end
                    && moved(old(self)@.tokens, old(self)@.position, end),
                Err(err) => r matches Err(e) && e@ == err,
            },
    {
        match self.kind() {
            TokenKind::Let => self.parse_let(),
            TokenKind::Return => {
                self.advance();
                match self.parse_terminated() {
                    Err(e) => Err(e),
                    Ok(expr) => Ok(Stmt::Return(expr)),
                }
            },
            TokenKind::Break => {
                self.advance();
                match self.expect(TokenKind::Semicolon) {
                    Err(e) => Err(e),
                    Ok(()) => Ok(Stmt::Break),
                }
            },
            TokenKind::Continue => {
                self.advance();
                match self.expect(TokenKind::Semicolon) {
                    Err(e) => Err(e),
                    Ok(()) => Ok(Stmt::Continue),
                }
            },
            TokenKind::Ident => {
                if self.next_kind() == TokenKind::Equal {
                    self.parse_assign()
                } else {
                    match self.parse_terminated() {
                        Err(e) => Err(e),
                        Ok(expr) => Ok(Stmt::ExprStmt(expr)),
                    }
                }
            },
            _ => {
                match self.parse_terminated() {
                    Err(e) => Err(e),
                    Ok(expr) => Ok(Stmt::ExprStmt(expr)),
                }
            },
        }
    }

    /// The statements of a block and the `}` behind them.
    fn parse_closed_block(&mut self) -> (r: Result<Block, ParseError>)
        ensures
            final(self)@.tokens == old(self)@.tokens,
            match parse_closed_block(old(self)@.tokens, old(self)@.position) {
                Ok((v, end)) => r matches Ok(x) && x@ == v && final(self)@.position == end
                    && moved(old(self)@.tokens, old(self)@.position, end),
                Err(err) => r matches Err(e) && e@ == err,
            },
        decreases old(self)@.tokens.len() - old(self)@.position, 4nat,
    {
        proof {
            reveal(parse_closed_block);
            reveal(parse_block);
            lemma_closed_block_moves(self@.tokens, self@.position);
        }
        let block = match self.parse_block() {
            Err(e) => {
                return Err(e);
            },
            Ok(block) => block,
        };
        match self.expect(TokenKind::RBrace) {
            Err(e) => {
                return Err(e);
            },
            Ok(()) => {},
        }
        Ok(block)
    }

    fn parse_if(&mut self) -> (r: Result<Stmt, ParseError>)
        ensures
            final(self)@.tokens == old(self)@.tokens,
            match parse_if(old(self)@.tokens, old(self)@.position) {
                Ok((v, end)) => r matches Ok(x) && x@ == v && final(self)@.position == end
                    && moved(old(self)@.tokens, old(self)@.position, end),
                Err(err) => r matches Err(e) && e@ == err,
            },
        decreases old(self)@.tokens.len() - old(self)@.position, 1nat,
    {
        proof {
            reveal(parse_if);
            reveal(parse_closed_block);
            lemma_if_moves(self@.tokens, self@.position);
        }
        match self.expect(TokenKind::If) {
            Err(e) => {
                return Err(e);
            },
            Ok(()) => {},
        }
        let condition = match self.parse_head() {
            Err(e) => {
                return Err(e);
            },
            Ok(condition) => condition,
        };
        let then_block = match self.parse_closed_block() {
            Err(e) => {
                return Err(e);
            },
            Ok(block) => block,
        };
        let else_block = if self.kind() == TokenKind::Else {
            self.advance();
            match self.expect(TokenKind::LBrace) {
                Err(e) => {
                    return Err(e);
                },
                Ok(()) => {},
            }
            match self.parse_closed_block() {
                Err(e) => {
                    return Err(e);
                },
                Ok(block) => Some(block),
            }
        } else {
            None
        };
        Ok(Stmt::If { condition, then_block, else_block })
    }

    fn parse_while(&mut self) -> (r: Result<Stmt, ParseError>)
        ensures
            final(self)@.tokens == old(self)@.tokens,
            match parse_while(old(self)@.tokens, old(self)@.position) {
                Ok((v, end)) => r matches Ok(x) && x@ == v && final(self)@.position == end
                    && moved(old(self)@.tokens, old(self)@.position, end),
                Err(err) => r matches Err(e) && e@ == err,
            },
        decreases old(self)@.tokens.len() - old(self)@.position, 1nat,
    {
        proof {
            reveal(parse_while);
            reveal(parse_closed_block);
            lemma_while_moves(self@.tokens, self@.position);
        }
        match self.expect(TokenKind::While) {
            Err(e) => {
                return Err(e);
            },
            Ok(()) => {},
        }
        let condition = match self.parse_head() {
            Err(e) => {
                return Err(e);
            },
            Ok(condition) => condition,
        };
        let body = match self.parse_closed_block() {
            Err(e) => {
                return Err(e);
            },
            Ok(block) => block,
        };
        Ok(Stmt::While { condition, body })
    }

    fn parse_statement(&mut self) -> (r: Result<Stmt, ParseError>)
        ensures
            final(self)@.tokens == old(self)@.tokens,
            match parse_statement(old(self)@.tokens, old(self)@.position) {
                Ok((v, end)) => r matches Ok(x) && x@ == v && final(self)@.position == end
                    && moved(old(self)@.tokens, old(self)@.position, end),
                Err(err) => r matches Err(e) && e@ == err,
            },
        decreases old(self)@.tokens.len() - old(self)@.position, 2nat,
    {
        proof {
            reveal(parse_statement);
            reveal(parse_if);
            reveal(parse_while);
        }
        match self.kind() {
            TokenKind::If => self.parse_if(),
            TokenKind::While => self.parse_while(),
            _ => self.parse_simple(),
        }
    }

    /// The statements of a block, up to the `}`.
    fn parse_block(&mut self) -> (r: Result<Block, ParseError>)
        ensures
            final(self)@.tokens == old(self)@.tokens,
            match parse_block(old(self)@.tokens, old(self)@.position, Seq::empty()) {
                Ok((v, end)) => r matches Ok(x) && x@ == v && final(self)@.position == end,
                Err(err) => r matches Err(e) && e@ == err,
            },
        decreases old(self)@.tokens.len() - old(self)@.position, 3nat,
    {
        let ghost tokens = self@.tokens;
        let ghost start = self@.position;
        let mut statements: Vec<Stmt> = Vec::new();
        proof {
            use_type_invariant(&*self);
            assert(stmts_view(statements@) == Seq::<SpecStmt>::empty());
        }
        loop
            invariant_except_break
                parse_block(tokens, start, Seq::empty()) == parse_block(
                    tokens,
                    self@.position,
                    stmts_view(statements@),
                ),
            invariant
                tokens == old(self)@.tokens,
                start == old(self)@.position,
                self@.tokens == tokens,
                start <= self@.position <= tokens.len(),
            ensures
                self@.tokens == tokens,
                parse_block(tokens, start, Seq::empty()) == Ok::<(SpecBlock, nat), SpecParseError>(
                    (stmts_view(statements@), self@.position),
                ),
            decreases tokens.len() - self@.position,
        {
            proof {
                reveal(parse_block);
                reveal(parse_statement);
            }
            if self.kind() == TokenKind::RBrace {
                break ;
            }
            let statement = match self.parse_statement() {
                Err(e) => {
                    return Err(e);
                },
                Ok(statement) => statement,
            };
            assert(stmts_view(statements@.push(statement)) == stmts_view(statements@).push(
                statement@,
            ));
            statements.push(statement);
        }
        let block = Block { statements };
        assert(block@ == stmts_view(statements@));
        Ok(block)
    }

    /// The parameters of a function, up to the `)`.
    fn parse_params(&mut self) -> (r: Result<Vec<String>, ParseError>)
        ensures
            final(self)@.tokens == old(self)@.tokens,
            match parse_params(old(self)@.tokens, old(self)@.position, Seq::empty()) {
                Ok((v, end)) => r matches Ok(x) && names_view(x@) == v && final(self)@.position
                    == end,
                Err(err) => r matches Err(e) && e@ == err,
            },
    {
        let ghost tokens = self@.tokens;
        let ghost start = self@.position;
        let mut params: Vec<String> = Vec::new();
        proof {
            use_type_invariant(&*self);
            assert(names_view(params@) == Seq::<Seq<char>>::empty());
        }
        loop
            invariant_except_break
                parse_params(tokens, start, Seq::empty()) == parse_params(
                    tokens,
                    self@.position,
                    names_view(params@),
                ),
            invariant
                tokens == old(self)@.tokens,
                start == old(self)@.position,
                self@.tokens == tokens,
                start <= self@.position <= tokens.len(),
            ensures
                self@.tokens == tokens,
                parse_params(tokens, start, Seq::empty()) == Ok::<
                    (Seq<Seq<char>>, nat),
                    SpecParseError,
                >((names_view(params@), self@.position)),
            decreases tokens.len() - self@.position,
        {
            proof {
                reveal(parse_params);
            }
            if self.kind() == TokenKind::RParen {
                break ;
            }
            let name = match self.expect_name() {
                Err(e) => {
                    return Err(e);
                },
                Ok(name) => name,
            };
            assert(names_view(params@.push(name)) == names_view(params@).push(name@));
            params.push(name);
            if self.kind() == TokenKind::Comma {
                self.advance();
            } else {
                break ;
            }
        }
        Ok(params)
    }

    fn parse_function(&mut self) -> (r: Result<FunctionDecl, ParseError>)
        ensures
            final(self)@.tokens == old(self)@.tokens,
            match parse_function(old(self)@.tokens, old(self)@.position) {
                Ok((v, end)) => r matches Ok(x) && x@ == v && final(self)@.position == end
                    && moved(old(self)@.tokens, old(self)@.position, end),
                Err(err) => r matches Err(e) && e@ == err,
            },
    {
        proof {
            lemma_function_moves(self@.tokens, self@.position);
        }
        match self.expect(TokenKind::Fn) {
            Err(e) => {
                return Err(e);
            },
            Ok(()) => {},
        }
        let name = match self.expect_name() {
            Err(e) => {
                return Err(e);
            },
            Ok(name) => name,
        };
        match self.expect(TokenKind::LParen) {
            Err(e) => {
                return Err(e);
            },
            Ok(()) => {},
        }
        let params = match self.parse_params() {
            Err(e) => {
                return Err(e);
            },
            Ok(params) => params,
        };
        match self.expect(TokenKind::RParen) {
            Err(e) => {
                return Err(e);
            },
            Ok(()) => {},
        }
        match self.expect(TokenKind::LBrace) {
            Err(e) => {
                return Err(e);
            },
            Ok(()) => {},
        }
        let body = match self.parse_closed_block() {
            Err(e) => {
                return Err(e);
            },
            Ok(body) => body,
        };
        Ok(FunctionDecl { name, params, body })
    }

    /// Parses the functions from the cursor up to the end marker. The
    /// first mismatch ends the parse; no partial program is returned.
    pub fn parse_program(&mut self) -> (r: Result<Program, ParseError>)
        ensures
            final(self)@.tokens == old(self)@.tokens,
            match parse_program(old(self)@.tokens, old(self)@.position) {
                Ok(p) => r matches Ok(x) && x@ == p,
                Err(err) => r matches Err(e) && e@ == err,
            },
    {
        let ghost tokens = self@.tokens;
        let ghost start = self@.position;
        let mut functions: Vec<FunctionDecl> = Vec::new();
        proof {
            use_type_invariant(&*self);
            assert(decls_view(functions@) == Seq::<SpecFunctionDecl>::empty());
        }
        loop
            invariant_except_break
                parse_functions(tokens, start, Seq::empty()) == parse_functions(
                    tokens,
                    self@.position,
                    decls_view(functions@),
                ),
            invariant
                tokens == old(self)@.tokens,
                start == old(self)@.position,
                self@.tokens == tokens,
                start <= self@.position <= tokens.len(),
            ensures
                self@.tokens == tokens,
                parse_functions(tokens, start, Seq::empty()) == Ok::<
                    Seq<SpecFunctionDecl>,
                    SpecParseError,
                >(decls_view(functions@)),
            decreases tokens.len() - self@.position,
        {
            proof {
                reveal(parse_functions);
            }
            if self.kind() == TokenKind::EOF {
                break ;
            }
            let function = match self.parse_function() {
                Err(e) => {
                    return Err(e);
                },
                Ok(function) => function,
            };
            assert(decls_view(functions@.push(function)) == decls_view(functions@).push(
                function@,
            ));
            functions.push(function);
        }
        let program = Program { functions };
        assert(program@.functions == decls_view(functions@));
        Ok(program)
    }
}

} // verus!
