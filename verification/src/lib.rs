//! A small interpreter for an S-expression language: source text is
//! tokenized ([`lexer`]), parsed into an abstract syntax tree ([`parser`]),
//! and evaluated directly against that tree ([`interpreter`]).
//!
//! Every stage carries an exact specification: the scanner [`lexer::slex`],
//! the parser [`parser::sparse_program`], and the fuel-indexed evaluator
//! [`semantics::seval`] pin down what each function produces.

use vstd::prelude::*;

pub mod ast;
pub mod binop;
pub mod env;
pub mod float;
pub mod interpreter;
pub mod laws;
pub mod lexer;
pub mod parser;
pub mod runtime;
pub mod semantics;
pub mod text;
pub mod token;
pub mod value;

pub use ast::{AstNode, Op, SyntaxError};
pub use interpreter::Interpreter;
pub use lexer::Lexer;
pub use parser::Parser;
pub use runtime::{ErrorKind, RuntimeError};
pub use token::{Span, Token, TokenKind};
pub use value::{NativeFn, SpecialForm, Value};

verus! {

/// Tokenizes and parses a whole source string into its sequence of
/// top-level expressions.
pub fn to_ast(text: &str) -> (r: Result<Vec<AstNode>, SyntaxError>)
    ensures
        match crate::parser::sparse_program(text@) {
            Ok(asts) => r matches Ok(nodes) && crate::ast::asts_of(nodes@) == asts,
            Err(_) => r is Err,
        },
{
    let lexer = Lexer::new(text);
    let mut parser = match Parser::new(lexer) {
        Ok(p) => p,
        Err(e) => {
            return Err(e);
        },
    };
    parser.parse_exprs()
}

} // verus!
