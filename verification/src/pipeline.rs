//! The whole way from source text to the intermediate representation:
//! lexing, parsing, and lowering with the static rules checked.

use vstd::prelude::*;
use crate::ast::CompUnit;
use crate::error::SemanticError;
use crate::ir::{module_well_formed, Module};
use crate::lexer::{first_error, lexes, tokenize};
use crate::grammar::{error_at, program_end};
use crate::parser::{parse, written_as, SyntaxError};
use crate::semantics::check_program;
use crate::token::{LexicalError, Span, Token};
use crate::code_unit::{code_program, module_view};
use crate::unit::{compile, defined_functions, missing_returns, name_views, signatures, unreturned};

verus! {

/// Why source text does not compile: the first stage that fails says so.
#[derive(Debug, PartialEq, Eq)]
pub enum CompileError {
    Lexical(LexicalError, Span),
    Syntax(SyntaxError),
    Semantic(SemanticError),
}

/// What source text compiles to: the module, and the names of the
/// functions that return a number and do not end in a `return`, which
/// deserve a warning.
#[derive(Debug, PartialEq, Eq)]
pub struct Compiled {
    pub module: Module,
    pub missing_returns: Vec<String>,
}

/// Whether `compiled` is what the tree `unit`, which the static rules
/// accept, compiles to.
pub open spec fn compiled_from(compiled: Compiled, unit: CompUnit) -> bool {
    &&& check_program(unit) == Ok::<(), SemanticError>(())
    &&& module_well_formed(compiled.module)
    &&& module_view(compiled.module) == code_program(unit)
    &&& signatures(compiled.module.functions@) == defined_functions(unit)
    &&& name_views(compiled.missing_returns@) == unreturned(unit)
}

/// Whether `unit` is the tree of the source text `src`: the text has
/// tokens, and the tree is the one that is written with them.
pub open spec fn parses_to(src: Seq<u8>, unit: CompUnit) -> bool {
    exists|toks: Seq<(Token, Span)>| #[trigger] lexes(src, 0, toks) && written_as(toks, unit)
}

/// Whether the source text `src` has tokens that the grammar rejects with
/// the error `e`.
pub open spec fn fails_to_parse(src: Seq<u8>, e: SyntaxError) -> bool {
    exists|toks: Seq<(Token, Span)>| #[trigger]
        lexes(src, 0, toks) && program_end(toks) is Err && e == error_at(
            toks,
            program_end(toks)->Err_0,
        )
}

/// Compiles one compilation unit from its source text. Fails with the
/// first lexical error; else with the syntax error for the token at which
/// the grammar says that the tokens go wrong; else with the first thing
/// that the static rules find wrong with the tree of the text. Otherwise
/// the tree of the text is accepted by the rules, the module is the one
/// that `code_program` gives for the tree and is well formed, and the
/// functions that may end without a `return` are named.
pub fn compile_source(src: &[u8]) -> (r: Result<Compiled, CompileError>)
    ensures
        match r {
            Ok(compiled) => exists|unit: CompUnit| #[trigger]
                parses_to(src@, unit) && compiled_from(compiled, unit),
            Err(CompileError::Lexical(e, span)) => first_error(src@, 0) == Some((e, span)),
            Err(CompileError::Syntax(e)) => first_error(src@, 0) is None && fails_to_parse(
                src@,
                e,
            ),
            Err(CompileError::Semantic(e)) => exists|unit: CompUnit| #[trigger]
                parses_to(src@, unit) && check_program(unit) == Err::<(), SemanticError>(e),
        },
{
    let toks = match tokenize(src) {
        Ok(toks) => toks,
        Err((e, span)) => {
            return Err(CompileError::Lexical(e, span));
        },
    };
    let unit = match parse(toks.as_slice()) {
        Ok(unit) => unit,
        Err(e) => {
            proof {
                assert(lexes(src@, 0, toks@));
                assert(fails_to_parse(src@, e));
            }
            return Err(CompileError::Syntax(e));
        },
    };
    proof {
        assert(lexes(src@, 0, toks@) && written_as(toks@, unit));
        assert(parses_to(src@, unit));
    }
    match compile(&unit) {
        Ok(module) => {
            let compiled = Compiled { module, missing_returns: missing_returns(&unit) };
            proof {
                assert(compiled_from(compiled, unit));
            }
            Ok(compiled)
        },
        Err(e) => Err(CompileError::Semantic(e)),
    }
}

} // verus!
