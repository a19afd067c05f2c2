//! Front end and middle end of a compiler for a small C-like language:
//! lexing, parsing, scoping, constant folding and lowering to a
//! basic-block intermediate representation.

pub mod accepts;
pub mod accepts_decl;
pub mod accepts_stmt;
pub mod accepts_unit;
pub mod ast;
pub mod builder;
pub mod code;
pub mod code_stmt;
pub mod code_unit;
pub mod consteval;
pub mod decl;
pub mod error;
pub mod flow;
pub mod grammar;
pub mod init;
pub mod ir;
pub mod lexer;
pub mod literal;
pub mod loops;
pub mod lower;
pub mod parser;
pub mod pipeline;
pub mod place;
pub mod scope;
pub mod semantics;
pub mod shape;
pub mod stmt;
pub mod syntax;
pub mod token;
pub mod unit;
