//! The whole front end in one call: scan, parse, analyse, compile. The
//! stages run in that order and the first error ends the work.

use crate::ast::Program as Ast;
use crate::lexer::{tokenize, tokens_from};
use crate::parser::{parse_program, ParseError, Parser, SpecParseError};
use crate::semantic::{analyze, fresh, SemanticAnalyzer, SemanticError, SpecSemanticError};
use crate::vm::bytecode::{Program, SpecProgram};
use crate::vm::checked::lemma_valid_program_compiles;
use crate::vm::compiler::BytecodeCompiler;
use crate::vm::lowering::compile;
use vstd::prelude::*;
use vstd::string::StringExecFns;

verus! {

/// Model of an error of the front end.
pub enum SpecError {
    Parse(SpecParseError),
    Semantic(SpecSemanticError),
}

/// Why a source text was not compiled.
#[derive(Debug, PartialEq, Eq)]
pub enum Error {
    /// The text is not a program.
    Parse(ParseError),
    /// The program breaks a rule of the language.
    Semantic(SemanticError),
}

impl View for Error {
    type V = SpecError;

    open spec fn view(&self) -> SpecError {
        match self {
            Error::Parse(e) => SpecError::Parse(e@),
            Error::Semantic(e) => SpecError::Semantic(e@),
        }
    }
}

impl SpecError {
    /// The message that reports the error.
    pub open spec fn message(self) -> Seq<char> {
        match self {
            SpecError::Parse(e) => "parse error: "@ + e.message(),
            SpecError::Semantic(e) => "semantic error: "@ + e.message(),
        }
    }
}

impl Error {
    /// The message that reports the error.
    pub fn message(&self) -> (m: String)
        ensures
            m@ == self@.message(),
    {
        match self {
            Error::Parse(e) => {
                let mut m = String::from_str("parse error: ");
                m.append(e.message().as_str());
                m
            },
            Error::Semantic(e) => {
                let mut m = String::from_str("semantic error: ");
                m.append(e.message().as_str());
                m
            },
        }
    }
}

/// What the front end makes of a source text: the tokens of the text
/// are parsed, the program is analysed by a new analyzer, and only a
/// program that passes is compiled.
pub open spec fn build(source: Seq<char>) -> Result<SpecProgram, SpecError> {
    match parse_program(tokens_from(source, 0), 0) {
        Err(e) => Err(SpecError::Parse(e)),
        Ok(ast) => match analyze(fresh(), ast) {
            Err(e) => Err(SpecError::Semantic(e)),
            Ok(_) => Ok(compile(ast)->Ok_0),
        },
    }
}

/// Parses a source text.
pub fn parse(source: &str) -> (r: Result<Ast, ParseError>)
    ensures
        match parse_program(tokens_from(source@, 0), 0) {
            Ok(ast) => r matches Ok(p) && p@ == ast,
            Err(err) => r matches Err(e) && e@ == err,
        },
{
    let tokens = tokenize(source);
    let mut parser = Parser::new(tokens);
    parser.parse_program()
}

/// Compiles a source text. A text that is not a program gives a parse
/// error; a program with a violation gives a semantic error, and is not
/// compiled.
pub fn build_program(source: &str) -> (r: Result<Program, Error>)
    ensures
        match build(source@) {
            Ok(program) => r matches Ok(p) && p@ == program,
            Err(err) => r matches Err(e) && e@ == err,
        },
{
    let ast = match parse(source) {
        Err(e) => {
            return Err(Error::Parse(e));
        },
        Ok(ast) => ast,
    };
    let mut analyzer = SemanticAnalyzer::new();
    match analyzer.analyze(&ast) {
        Err(e) => {
            return Err(Error::Semantic(e));
        },
        Ok(()) => {},
    }
    proof {
        lemma_valid_program_compiles(ast@);
    }
    match BytecodeCompiler::new().compile(&ast) {
        Ok(program) => Ok(program),
        Err(_) => unreached(),
    }
}

} // verus!
