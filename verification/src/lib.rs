//! A small imperative language: scanner, parser, semantic analysis,
//! bytecode compiler and stack machine.

pub mod ast;
pub mod codegen;
pub mod interpreter;
pub mod lexer;
pub mod parser;
pub mod pipeline;
pub mod runtime_error;
pub mod semantic;
pub mod text;
pub mod token;
pub mod vm;
