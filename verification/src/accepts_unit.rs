//! The grammar accepts whatever is written as a program.

use vstd::prelude::*;
use crate::accepts::{lemma_bracketed, lemma_head, lemma_one, lemma_split};
use crate::accepts_decl::{lemma_decl, lemma_params};
use crate::accepts_stmt::lemma_block;
use crate::ast::{CompUnit, DeclOrFuncDef, FuncDef};
use crate::grammar::{
    at, block_end, func_end, mark_end, name_end, params_end, program_end, starts_func,
    unit_item_end, unit_rest,
};
use crate::syntax::{
    block_nested, block_tokens, comp_unit_canonical, comp_unit_tokens, func_def_tokens,
    func_type_token, kinds, param_list_tokens, stream, unit_item_canonical, unit_item_tokens,
};
use crate::token::{Span, Token};

verus! {

/// A function that is written between two places ends at the second, and
/// is taken for a function.
pub proof fn lemma_func(toks: Seq<(Token, Span)>, f: FuncDef, pos: int, e: int)
    requires
        0 <= pos <= e <= toks.len(),
        stream(toks, pos, e) == func_def_tokens(f),
        block_nested(f.block),
    ensures
        pos < e,
        func_end(toks, pos) == Ok::<int, int>(e),
        starts_func(toks, pos),
{
    let word = func_type_token(f.func_type);
    let params = param_list_tokens(f.params@);
    let front = seq![word] + seq![Token::Ident(f.ident)] + seq![Token::LParen] + params + seq![
        Token::RParen,
    ];
    lemma_split(toks, pos, e, front, block_tokens(f.block));
    let m = pos + front.len();
    lemma_bracketed(
        toks,
        pos,
        m,
        seq![word] + seq![Token::Ident(f.ident)],
        Token::LParen,
        params,
        Token::RParen,
    );
    lemma_head(toks, pos, pos + 2, word, seq![Token::Ident(f.ident)]);
    lemma_one(toks, pos + 1, pos + 2, Token::Ident(f.ident));
    lemma_params(toks, f.params@, pos + 3, m - 1);
    lemma_block(toks, f.block, m, e);
    assert(name_end(toks, pos + 1) == Ok::<int, int>(pos + 2));
    assert(mark_end(toks, pos + 2, Token::LParen) == Ok::<int, int>(pos + 3));
    assert(params_end(toks, pos + 3) == Ok::<int, int>(m - 1));
    assert(mark_end(toks, m - 1, Token::RParen) == Ok::<int, int>(m));
    assert(block_end(toks, m) == Ok::<int, int>(e));
}

/// An item of the top level that is written between two places ends at
/// the second.
pub proof fn lemma_unit_item(toks: Seq<(Token, Span)>, item: DeclOrFuncDef, pos: int, e: int)
    requires
        0 <= pos <= e <= toks.len(),
        stream(toks, pos, e) == unit_item_tokens(item),
        unit_item_canonical(item),
    ensures
        pos < e,
        unit_item_end(toks, pos) == Ok::<int, int>(e),
{
    match item {
        DeclOrFuncDef::Decl(d) => {
            lemma_decl(toks, *d, pos, e);
        },
        DeclOrFuncDef::FuncDef(f) => {
            lemma_func(toks, *f, pos, e);
        },
    }
}

/// The items of the top level go on over another item.
proof fn lemma_unit_step(toks: Seq<(Token, Span)>, m: int, e: int)
    requires
        0 <= m < e <= toks.len(),
        program_end(toks) == unit_rest(toks, m),
        unit_item_end(toks, m) == Ok::<int, int>(e),
    ensures
        program_end(toks) == unit_rest(toks, e),
{
}

/// The items of a compilation unit that are written up to a place are
/// read up to that place.
pub proof fn lemma_comp_unit(toks: Seq<(Token, Span)>, u: CompUnit, e: int)
    requires
        0 <= e <= toks.len(),
        stream(toks, 0, e) == comp_unit_tokens(u),
        comp_unit_canonical(u),
    ensures
        0 < e,
        program_end(toks) == unit_rest(toks, e),
    decreases e,
{
    match u.prev_unit {
        None => {
            lemma_unit_item(toks, u.cur_unit, 0, e);
        },
        Some(prev) => {
            let before = comp_unit_tokens(*prev);
            lemma_split(toks, 0, e, before, unit_item_tokens(u.cur_unit));
            let m = before.len() as int;
            lemma_unit_item(toks, u.cur_unit, m, e);
            lemma_comp_unit(toks, *prev, m);
            lemma_unit_step(toks, m, e);
        },
    }
}

/// Whatever is written as a compilation unit, with each `else` where it
/// belongs and at least one name in each declaration, is a program by the
/// grammar.
pub proof fn lemma_written_is_accepted(toks: Seq<(Token, Span)>, u: CompUnit)
    requires
        comp_unit_tokens(u) == kinds(toks),
        comp_unit_canonical(u),
    ensures
        program_end(toks) == Ok::<int, int>(toks.len() as int),
{
    assert(stream(toks, 0, toks.len() as int) =~= kinds(toks));
    lemma_comp_unit(toks, u, toks.len() as int);
}

} // verus!
