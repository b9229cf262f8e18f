use compiler::ast::{BinOp, Block, Expr, FunctionDecl, Program, Stmt};
use compiler::lexer::tokenize;
use compiler::parser::{ParseError, Parser};
use compiler::pipeline::parse;
use compiler::token::{Token, TokenKind};

fn var(name: &str) -> Expr {
    Expr::VarRef(name.to_string())
}

fn num(v: i64) -> Expr {
    Expr::IntLiteral(v)
}

fn binary(left: Expr, op: BinOp, right: Expr) -> Expr {
    Expr::Binary { left: Box::new(left), op, right: Box::new(right) }
}

fn call(name: &str, args: Vec<Expr>) -> Expr {
    Expr::Call { name: name.to_string(), args }
}

fn main_with(statements: Vec<Stmt>) -> Program {
    Program {
        functions: vec![FunctionDecl {
            name: "main".to_string(),
            params: vec![],
            body: Block { statements },
        }],
    }
}

fn parse_body(body: &str) -> Vec<Stmt> {
    let source = format!("fn main() {{ {} }}", body);
    let program = parse(&source).expect("the text parses");
    assert_eq!(program.functions.len(), 1);
    program.functions.into_iter().next().unwrap().body.statements
}

fn parse_expr(text: &str) -> Expr {
    let mut statements = parse_body(&format!("{};", text));
    assert_eq!(statements.len(), 1);
    match statements.remove(0) {
        Stmt::ExprStmt(e) => e,
        other => panic!("not an expression statement: {:?}", other),
    }
}

fn error_of(source: &str) -> ParseError {
    parse(source).expect_err("the text does not parse")
}

#[test]
fn empty_token_sequence_is_the_empty_program() {
    assert_eq!(parse(""), Ok(Program { functions: vec![] }));
    let mut parser = Parser::new(vec![]);
    assert_eq!(parser.parse_program(), Ok(Program { functions: vec![] }));
}

#[test]
fn tokens_behind_the_end_marker_are_not_looked_at() {
    let mut tokens = tokenize("fn main() { }");
    tokens.push(Token::RBrace);
    let mut parser = Parser::new(tokens);
    assert_eq!(parser.parse_program(), Ok(main_with(vec![])));
}

#[test]
fn function_with_parameters() {
    let program = parse("fn add(a, b) { return a + b; }").unwrap();
    assert_eq!(
        program,
        Program {
            functions: vec![FunctionDecl {
                name: "add".to_string(),
                params: vec!["a".to_string(), "b".to_string()],
                body: Block {
                    statements: vec![Stmt::Return(binary(var("a"), BinOp::Add, var("b")))],
                },
            }],
        }
    );
}

#[test]
fn functions_keep_their_order() {
    let program = parse("fn b() { } fn a() { } fn main() { }").unwrap();
    let names: Vec<&str> = program.functions.iter().map(|f| f.name.as_str()).collect();
    assert_eq!(names, vec!["b", "a", "main"]);
}

#[test]
fn trailing_comma_is_tolerated_in_parameters_and_arguments() {
    let program = parse("fn f(a, b,) { f(1, 2,); }").unwrap();
    assert_eq!(program.functions[0].params, vec!["a".to_string(), "b".to_string()]);
    assert_eq!(
        program.functions[0].body.statements,
        vec![Stmt::ExprStmt(call("f", vec![num(1), num(2)]))]
    );
}

#[test]
fn arguments_must_be_separated_by_commas() {
    assert_eq!(
        error_of("fn main() { f(1 2); }"),
        ParseError::Expected { expected: TokenKind::RParen, found: Token::Int(2) }
    );
    assert_eq!(
        error_of("fn f(a b) { }"),
        ParseError::Expected { expected: TokenKind::RParen, found: Token::Ident("b".to_string()) }
    );
}

#[test]
fn statement_is_chosen_by_its_first_token() {
    assert_eq!(
        parse_body("let x = 1; x = 2; x; return x; break; continue;"),
        vec![
            Stmt::Let { name: "x".to_string(), value: num(1) },
            Stmt::Assign { name: "x".to_string(), value: num(2) },
            Stmt::ExprStmt(var("x")),
            Stmt::Return(var("x")),
            Stmt::Break,
            Stmt::Continue,
        ]
    );
}

#[test]
fn identifier_followed_by_double_equal_is_an_expression() {
    assert_eq!(
        parse_body("x == 1;"),
        vec![Stmt::ExprStmt(binary(var("x"), BinOp::Equal, num(1)))]
    );
}

#[test]
fn if_with_and_without_else() {
    assert_eq!(
        parse_body("if (x) { a; } if (y) { } else { b; }"),
        vec![
            Stmt::If {
                condition: var("x"),
                then_block: Block { statements: vec![Stmt::ExprStmt(var("a"))] },
                else_block: None,
            },
            Stmt::If {
                condition: var("y"),
                then_block: Block { statements: vec![] },
                else_block: Some(Block { statements: vec![Stmt::ExprStmt(var("b"))] }),
            },
        ]
    );
}

#[test]
fn else_if_is_not_chained() {
    assert_eq!(
        error_of("fn main() { if (x) { } else if (y) { } }"),
        ParseError::Expected { expected: TokenKind::LBrace, found: Token::If }
    );
}

#[test]
fn while_with_nested_blocks() {
    assert_eq!(
        parse_body("while (x < 3) { if (x) { break; } x = x + 1; }"),
        vec![Stmt::While {
            condition: binary(var("x"), BinOp::Less, num(3)),
            body: Block {
                statements: vec![
                    Stmt::If {
                        condition: var("x"),
                        then_block: Block { statements: vec![Stmt::Break] },
                        else_block: None,
                    },
                    Stmt::Assign {
                        name: "x".to_string(),
                        value: binary(var("x"), BinOp::Add, num(1)),
                    },
                ],
            },
        }]
    );
}

#[test]
fn multiplication_binds_tighter_than_addition() {
    assert_eq!(
        parse_expr("1 + 2 * 3"),
        binary(num(1), BinOp::Add, binary(num(2), BinOp::Mul, num(3)))
    );
    assert_eq!(
        parse_expr("1 * 2 + 3"),
        binary(binary(num(1), BinOp::Mul, num(2)), BinOp::Add, num(3))
    );
}

#[test]
fn addition_binds_tighter_than_comparison() {
    assert_eq!(
        parse_expr("a + 1 < b - 2"),
        binary(
            binary(var("a"), BinOp::Add, num(1)),
            BinOp::Less,
            binary(var("b"), BinOp::Sub, num(2))
        )
    );
}

#[test]
fn operators_of_one_level_group_to_the_left() {
    assert_eq!(
        parse_expr("a - b - c"),
        binary(binary(var("a"), BinOp::Sub, var("b")), BinOp::Sub, var("c"))
    );
    assert_eq!(
        parse_expr("a / b * c"),
        binary(binary(var("a"), BinOp::Div, var("b")), BinOp::Mul, var("c"))
    );
    assert_eq!(
        parse_expr("a < b < c"),
        binary(binary(var("a"), BinOp::Less, var("b")), BinOp::Less, var("c"))
    );
    assert_eq!(
        parse_expr("a > b == c"),
        binary(binary(var("a"), BinOp::Greater, var("b")), BinOp::Equal, var("c"))
    );
}

#[test]
fn parentheses_override_precedence() {
    assert_eq!(
        parse_expr("(1 + 2) * 3"),
        binary(binary(num(1), BinOp::Add, num(2)), BinOp::Mul, num(3))
    );
    assert_eq!(parse_expr("((x))"), var("x"));
}

#[test]
fn primaries() {
    assert_eq!(parse_expr("7"), num(7));
    assert_eq!(parse_expr("\"s\""), Expr::StringLiteral("s".to_string()));
    assert_eq!(parse_expr("f()"), call("f", vec![]));
    assert_eq!(
        parse_expr("f(g(1), x + 1)"),
        call("f", vec![call("g", vec![num(1)]), binary(var("x"), BinOp::Add, num(1))])
    );
}

#[test]
fn token_that_starts_no_expression_is_refused() {
    assert_eq!(
        error_of("fn main() { + ; }"),
        ParseError::UnexpectedToken { found: Token::Plus }
    );
    assert_eq!(
        error_of("fn main() { x = ; }"),
        ParseError::UnexpectedToken { found: Token::Semicolon }
    );
    assert_eq!(error_of("fn main() { 1 + "), ParseError::UnexpectedToken { found: Token::EOF });
}

#[test]
fn missing_token_is_reported_with_what_was_found() {
    assert_eq!(
        error_of("main() { }"),
        ParseError::Expected { expected: TokenKind::Fn, found: Token::Ident("main".to_string()) }
    );
    assert_eq!(
        error_of("fn 1() { }"),
        ParseError::Expected { expected: TokenKind::Ident, found: Token::Int(1) }
    );
    assert_eq!(
        error_of("fn main { }"),
        ParseError::Expected { expected: TokenKind::LParen, found: Token::LBrace }
    );
    assert_eq!(
        error_of("fn main() { x }"),
        ParseError::Expected { expected: TokenKind::Semicolon, found: Token::RBrace }
    );
    assert_eq!(
        error_of("fn main() { let = 1; }"),
        ParseError::Expected { expected: TokenKind::Ident, found: Token::Equal }
    );
    assert_eq!(
        error_of("fn main() { let x 1; }"),
        ParseError::Expected { expected: TokenKind::Equal, found: Token::Int(1) }
    );
    assert_eq!(
        error_of("fn main() { while x { } }"),
        ParseError::Expected { expected: TokenKind::LParen, found: Token::Ident("x".to_string()) }
    );
    assert_eq!(
        error_of("fn main() { (1 ; }"),
        ParseError::Expected { expected: TokenKind::RParen, found: Token::Semicolon }
    );
}

#[test]
fn first_error_ends_the_parse() {
    assert_eq!(
        error_of("fn a( { } fn b( { }"),
        ParseError::Expected { expected: TokenKind::Ident, found: Token::LBrace }
    );
}

#[test]
fn unclosed_block_fails_at_the_end_marker() {
    assert_eq!(
        error_of("fn main() { x;"),
        ParseError::UnexpectedToken { found: Token::EOF }
    );
}

#[test]
fn messages_name_the_tokens() {
    assert_eq!(
        ParseError::Expected { expected: TokenKind::RParen, found: Token::Int(2) }.message(),
        "expected token `)`, got integer"
    );
    assert_eq!(
        ParseError::UnexpectedToken { found: Token::Plus }.message(),
        "unexpected token `+` in primary position"
    );
}
