use compiler::ast::Program;
use compiler::codegen::{CodeGenerator, CodegenError};
use compiler::pipeline::parse;

fn generate(source: &str) -> Result<String, CodegenError> {
    let program = parse(source).expect("the text parses");
    CodeGenerator::new().generate(&program)
}

fn body_of_main(body: &str) -> String {
    let text = generate(&format!("fn main() {{ {} }}", body)).expect("the backend covers it");
    let text = text.strip_prefix("#include <stdio.h>\n\nint main() {\n").expect("the head");
    text.strip_suffix("}\n\n").expect("the foot").to_string()
}

#[test]
fn empty_program_is_only_the_include() {
    assert_eq!(
        CodeGenerator::new().generate(&Program { functions: vec![] }),
        Ok("#include <stdio.h>\n\n".to_string())
    );
}

#[test]
fn main_returns_int_and_other_functions_nothing() {
    assert_eq!(
        generate("fn helper(a, b) { } fn main() { }"),
        Ok("#include <stdio.h>\n\nvoid helper() {\n}\n\nint main() {\n}\n\n".to_string())
    );
}

#[test]
fn declaration_and_assignment() {
    assert_eq!(body_of_main("let x = 1; x = x + 2;"), "int x = 1;\nx = (x + 2);\n");
}

#[test]
fn binary_expressions_stand_in_parentheses() {
    assert_eq!(
        body_of_main("a + b * c - d / e; a < b; a > b; a == b;"),
        "((a + (b * c)) - (d / e));\n(a < b);\n(a > b);\n(a == b);\n"
    );
}

#[test]
fn calls_join_their_arguments_with_commas() {
    assert_eq!(body_of_main("f(); f(1); f(1, x, \"s\");"), "f();\nf(1);\nf(1, x, \"s\");\n");
}

#[test]
fn print_chooses_its_format_by_the_form_of_the_argument() {
    assert_eq!(
        body_of_main("print(1); print(x); print(\"hi\");"),
        "printf(\"%d\\n\", 1);\nprintf(\"%d\\n\", x);\nprintf(\"%s\\n\", \"hi\");\n"
    );
}

#[test]
fn print_of_anything_else_is_refused() {
    assert_eq!(generate("fn main() { print(1 + 2); }"), Err(CodegenError::UnsupportedPrintArgument));
    assert_eq!(generate("fn main() { print(f()); }"), Err(CodegenError::UnsupportedPrintArgument));
    assert_eq!(generate("fn main() { print(); }"), Err(CodegenError::UnsupportedPrintArgument));
    assert_eq!(
        generate("fn main() { f(1, print(g())); }"),
        Err(CodegenError::UnsupportedPrintArgument)
    );
}

#[test]
fn conditional_with_and_without_else() {
    assert_eq!(body_of_main("if (x) { a; }"), "if (x) {\na;\n}\n");
    assert_eq!(body_of_main("if (x) { a; } else { b; }"), "if (x) {\na;\n} else {\nb;\n}\n");
}

#[test]
fn loop_with_nested_conditional() {
    assert_eq!(
        body_of_main("while (x < 3) { if (x) { print(x); } x = x + 1; }"),
        "while ((x < 3)) {\nif (x) {\nprintf(\"%d\\n\", x);\n}\nx = (x + 1);\n}\n"
    );
}

#[test]
fn return_break_and_continue_are_refused() {
    assert_eq!(generate("fn main() { return 1; }"), Err(CodegenError::UnsupportedStatement));
    assert_eq!(
        generate("fn main() { while (1) { break; } }"),
        Err(CodegenError::UnsupportedStatement)
    );
    assert_eq!(
        generate("fn main() { while (1) { if (1) { continue; } } }"),
        Err(CodegenError::UnsupportedStatement)
    );
}

#[test]
fn first_problem_in_program_order_is_reported() {
    assert_eq!(
        generate("fn f() { print(1 + 1); } fn main() { return 1; }"),
        Err(CodegenError::UnsupportedPrintArgument)
    );
    assert_eq!(
        generate("fn f() { return 1; } fn main() { print(1 + 1); }"),
        Err(CodegenError::UnsupportedStatement)
    );
}

#[test]
fn negative_literal_and_large_literal() {
    let program = compiler::ast::Program {
        functions: vec![compiler::ast::FunctionDecl {
            name: "main".to_string(),
            params: vec![],
            body: compiler::ast::Block {
                statements: vec![
                    compiler::ast::Stmt::ExprStmt(compiler::ast::Expr::IntLiteral(-12)),
                    compiler::ast::Stmt::ExprStmt(compiler::ast::Expr::IntLiteral(i64::MIN)),
                ],
            },
        }],
    };
    assert_eq!(
        CodeGenerator::new().generate(&program),
        Ok("#include <stdio.h>\n\nint main() {\n-12;\n-9223372036854775808;\n}\n\n".to_string())
    );
}
