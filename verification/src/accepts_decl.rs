//! The grammar accepts whatever is written as a declaration or as a
//! parameter.

use vstd::prelude::*;
use crate::accepts::{
    lemma_around, lemma_bracketed, lemma_enclosed, lemma_exp, lemma_exp_first, lemma_head,
    lemma_none, lemma_one, lemma_split, starts_exp,
};
use crate::ast::{ConstDef, ConstExp, ConstInitVal, Decl, FuncFParam, InitVal, VarDef};
use crate::grammar::{
    at, bracket_rest, const_decl_end, const_def_end, decl_end, defs_end, init_end, lemma_pieces,
    list_rest, mark_end, name_end, param_end, params_end, piece_end, starts_func, var_decl_end,
    var_def_end, Piece, Scan,
};
use crate::syntax::{
    const_def_list_tokens, const_def_tokens, const_exp_tokens, const_init_list_tokens,
    const_init_tokens, decl_listed, decl_tokens, dim_list_tokens, init_list_tokens, init_tokens,
    param_list_tokens, param_tokens, stream, var_def_list_tokens, var_def_tokens,
};
use crate::token::{Span, Token};

verus! {

/// What the grammar makes of a list from its first piece on.
pub open spec fn pieces_from(toks: Seq<(Token, Span)>, pos: int, piece: Piece) -> Scan {
    match piece_end(toks, pos, piece) {
        Err(a) => Err(a),
        Ok(p) => list_rest(toks, p, piece),
    }
}

/// A list goes on over a comma and another piece.
pub proof fn lemma_list_step(toks: Seq<(Token, Span)>, piece: Piece, pos: int, m: int, e: int)
    requires
        pieces_from(toks, pos, piece) == list_rest(toks, m, piece),
        at(toks, m) == Some(Token::Comma),
        piece_end(toks, m + 1, piece) == Ok::<int, int>(e),
        e > m,
    ensures
        pieces_from(toks, pos, piece) == list_rest(toks, e, piece),
{
}

/// Whether a piece of a declaration can end at `e`: a comma or a semicolon
/// follows.
pub open spec fn ends_def(toks: Seq<(Token, Span)>, e: int) -> bool {
    at(toks, e) == Some(Token::Comma) || at(toks, e) == Some(Token::SemiColon)
}

/// Whether an initializer can end at `e`: a comma, a semicolon or a
/// closing brace follows.
pub open spec fn ends_init(toks: Seq<(Token, Span)>, e: int) -> bool {
    at(toks, e) == Some(Token::Comma) || at(toks, e) == Some(Token::SemiColon) || at(toks, e)
        == Some(Token::RBrace)
}

/// Dimensions that are written between two places are read up to the
/// second place, and on where another bracket follows.
pub proof fn lemma_dims(toks: Seq<(Token, Span)>, ds: Seq<ConstExp>, pos: int, e: int)
    requires
        0 <= pos <= e <= toks.len(),
        stream(toks, pos, e) == dim_list_tokens(ds),
    ensures
        bracket_rest(toks, pos) == bracket_rest(toks, e),
        e == pos || at(toks, pos) == Some(Token::LBracket),
    decreases ds.len(),
{
    if ds.len() == 0 {
        lemma_none(toks, pos, e);
    } else {
        let before = dim_list_tokens(ds.drop_last());
        lemma_bracketed(
            toks,
            pos,
            e,
            before,
            Token::LBracket,
            const_exp_tokens(ds.last()),
            Token::RBracket,
        );
        let m = pos + before.len();
        lemma_dims(toks, ds.drop_last(), pos, m);
        match ds.last() {
            ConstExp::Exp(inner) => {
                lemma_exp(toks, *inner, m + 1, e - 1);
            },
        }
        assert(mark_end(toks, e - 1, Token::RBracket) == Ok::<int, int>(e));
        assert(bracket_rest(toks, m) == bracket_rest(toks, e));
    }
}

/// Whether an initializer can start with the token.
pub open spec fn starts_init(t: Token) -> bool {
    t == Token::LBrace || starts_exp(t)
}

/// An initializer is written with at least one token, and the first is one
/// that an initializer can start with.
pub proof fn lemma_init_first(x: InitVal)
    ensures
        init_tokens(x).len() >= 1,
        starts_init(init_tokens(x)[0]),
{
    match x {
        InitVal::Exp(e) => lemma_exp_first(*e),
        InitVal::Array(_) => {},
    }
}

/// A constant initializer is written with at least one token, and the first
/// is one that an initializer can start with.
pub proof fn lemma_const_init_first(x: ConstInitVal)
    ensures
        const_init_tokens(x).len() >= 1,
        starts_init(const_init_tokens(x)[0]),
{
    match x {
        ConstInitVal::Exp(c) => match *c {
            ConstExp::Exp(e) => lemma_exp_first(*e),
        },
        ConstInitVal::Array(_) => {},
    }
}

/// Where an initializer in braces ends, from where its parts end.
proof fn lemma_braces(toks: Seq<(Token, Span)>, pos: int, e: int)
    requires
        at(toks, pos) == Some(Token::LBrace),
        at(toks, e - 1) == Some(Token::RBrace),
        e - 1 > pos + 1 ==> at(toks, pos + 1) != Some(Token::RBrace) && (init_end(
            toks,
            pos + 1,
        ) matches Ok(p) && p > pos + 1) && pieces_from(toks, pos + 1, Piece::Init) == Ok::<
            int,
            int,
        >(e - 1),
        e - 1 >= pos + 1,
    ensures
        init_end(toks, pos) == Ok::<int, int>(e),
{
    lemma_pieces(toks, pos + 1);
}

/// An initializer that is written between two places, with what can end
/// it behind, ends at the second place.
pub proof fn lemma_init(toks: Seq<(Token, Span)>, x: InitVal, pos: int, e: int)
    requires
        0 <= pos <= e <= toks.len(),
        stream(toks, pos, e) == init_tokens(x),
        ends_init(toks, e),
    ensures
        pos < e,
        init_end(toks, pos) == Ok::<int, int>(e),
        at(toks, pos) matches Some(t) && starts_init(t),
    decreases e - pos, 1int,
{
    lemma_init_first(x);
    assert(stream(toks, pos, e)[0] == init_tokens(x)[0]);
    match x {
        InitVal::Exp(inner) => {
            lemma_exp(toks, *inner, pos, e);
            lemma_exp_first(*inner);
        },
        InitVal::Array(items) => {
            lemma_enclosed(
                toks,
                pos,
                e,
                Token::LBrace,
                init_list_tokens(items@),
                Token::RBrace,
            );
            if items@.len() > 0 {
                lemma_init_list(toks, items@, pos + 1, e - 1);
                assert(list_rest(toks, e - 1, Piece::Init) == Ok::<int, int>(e - 1));
            } else {
                lemma_none(toks, pos + 1, e - 1);
            }
            lemma_braces(toks, pos, e);
        },
    }
}

/// Initializers with commas between them that are written between two
/// places are read up to the second place, and on where another comma
/// follows.
pub proof fn lemma_init_list(toks: Seq<(Token, Span)>, items: Seq<InitVal>, pos: int, e: int)
    requires
        0 <= pos <= e <= toks.len(),
        items.len() >= 1,
        stream(toks, pos, e) == init_list_tokens(items),
        ends_init(toks, e),
    ensures
        pos < e,
        at(toks, pos) matches Some(t) && starts_init(t),
        init_end(toks, pos) matches Ok(p) && p > pos,
        pieces_from(toks, pos, Piece::Init) == list_rest(toks, e, Piece::Init),
    decreases e - pos, 2int,
{
    lemma_pieces(toks, pos);
    if items.len() == 1 {
        lemma_init(toks, items[0], pos, e);
    } else {
        let before = init_list_tokens(items.drop_last());
        lemma_around(toks, pos, e, before, Token::Comma, init_tokens(items.last()));
        let m = pos + before.len();
        lemma_init_list(toks, items.drop_last(), pos, m);
        lemma_init(toks, items.last(), m + 1, e);
        lemma_pieces(toks, m + 1);
        lemma_list_step(toks, Piece::Init, pos, m, e);
    }
}

/// A constant initializer that is written between two places, with what
/// can end it behind, ends at the second place.
pub proof fn lemma_const_init(toks: Seq<(Token, Span)>, x: ConstInitVal, pos: int, e: int)
    requires
        0 <= pos <= e <= toks.len(),
        stream(toks, pos, e) == const_init_tokens(x),
        ends_init(toks, e),
    ensures
        pos < e,
        init_end(toks, pos) == Ok::<int, int>(e),
        at(toks, pos) matches Some(t) && starts_init(t),
    decreases e - pos, 1int,
{
    lemma_const_init_first(x);
    assert(stream(toks, pos, e)[0] == const_init_tokens(x)[0]);
    match x {
        ConstInitVal::Exp(c) => match *c {
            ConstExp::Exp(inner) => {
                lemma_exp(toks, *inner, pos, e);
                lemma_exp_first(*inner);
            },
        },
        ConstInitVal::Array(items) => {
            lemma_enclosed(
                toks,
                pos,
                e,
                Token::LBrace,
                const_init_list_tokens(items@),
                Token::RBrace,
            );
            if items@.len() > 0 {
                lemma_const_init_list(toks, items@, pos + 1, e - 1);
                assert(list_rest(toks, e - 1, Piece::Init) == Ok::<int, int>(e - 1));
            } else {
                lemma_none(toks, pos + 1, e - 1);
            }
            lemma_braces(toks, pos, e);
        },
    }
}

/// Constant initializers with commas between them that are written between
/// two places are read up to the second place, and on where another comma
/// follows.
pub proof fn lemma_const_init_list(
    toks: Seq<(Token, Span)>,
    items: Seq<ConstInitVal>,
    pos: int,
    e: int,
)
    requires
        0 <= pos <= e <= toks.len(),
        items.len() >= 1,
        stream(toks, pos, e) == const_init_list_tokens(items),
        ends_init(toks, e),
    ensures
        pos < e,
        at(toks, pos) matches Some(t) && starts_init(t),
        init_end(toks, pos) matches Ok(p) && p > pos,
        pieces_from(toks, pos, Piece::Init) == list_rest(toks, e, Piece::Init),
    decreases e - pos, 2int,
{
    lemma_pieces(toks, pos);
    if items.len() == 1 {
        lemma_const_init(toks, items[0], pos, e);
    } else {
        let before = const_init_list_tokens(items.drop_last());
        lemma_around(toks, pos, e, before, Token::Comma, const_init_tokens(items.last()));
        let m = pos + before.len();
        lemma_const_init_list(toks, items.drop_last(), pos, m);
        lemma_const_init(toks, items.last(), m + 1, e);
        lemma_pieces(toks, m + 1);
        lemma_list_step(toks, Piece::Init, pos, m, e);
    }
}

/// The definition of a constant that is written between two places, with
/// a comma or a semicolon behind it, ends at the second place.
pub proof fn lemma_const_def(toks: Seq<(Token, Span)>, d: ConstDef, pos: int, e: int)
    requires
        0 <= pos <= e <= toks.len(),
        stream(toks, pos, e) == const_def_tokens(d),
        ends_def(toks, e),
    ensures
        pos < e,
        const_def_end(toks, pos) == Ok::<int, int>(e),
{
    let name = seq![Token::Ident(d.ident)];
    let dims = dim_list_tokens(d.dimensions@);
    lemma_around(toks, pos, e, name + dims, Token::Assign, const_init_tokens(d.init_val));
    let m = pos + 1 + dims.len();
    lemma_head(toks, pos, m, Token::Ident(d.ident), dims);
    lemma_dims(toks, d.dimensions@, pos + 1, m);
    lemma_const_init(toks, d.init_val, m + 1, e);
    assert(name_end(toks, pos) == Ok::<int, int>(pos + 1));
    assert(bracket_rest(toks, m) == Ok::<int, int>(m));
    assert(mark_end(toks, m, Token::Assign) == Ok::<int, int>(m + 1));
}

/// The definition of a variable without an initializer.
proof fn lemma_var_def_plain(
    toks: Seq<(Token, Span)>,
    ident: String,
    dimensions: Seq<ConstExp>,
    pos: int,
    e: int,
)
    requires
        0 <= pos <= e <= toks.len(),
        stream(toks, pos, e) == seq![Token::Ident(ident)] + dim_list_tokens(dimensions),
        ends_def(toks, e),
    ensures
        pos < e,
        var_def_end(toks, pos) == Ok::<int, int>(e),
        at(toks, pos) == Some(Token::Ident(ident)),
        at(toks, pos + 1) != Some(Token::LParen),
{
    lemma_head(toks, pos, e, Token::Ident(ident), dim_list_tokens(dimensions));
    lemma_dims(toks, dimensions, pos + 1, e);
    assert(name_end(toks, pos) == Ok::<int, int>(pos + 1));
    assert(bracket_rest(toks, e) == Ok::<int, int>(e));
    assert(bracket_rest(toks, pos + 1) == Ok::<int, int>(e));
}

/// The definition of a variable with an initializer.
proof fn lemma_var_def_init(
    toks: Seq<(Token, Span)>,
    ident: String,
    dimensions: Seq<ConstExp>,
    init: InitVal,
    pos: int,
    e: int,
)
    requires
        0 <= pos <= e <= toks.len(),
        stream(toks, pos, e) == seq![Token::Ident(ident)] + dim_list_tokens(dimensions)
            + seq![Token::Assign] + init_tokens(init),
        ends_def(toks, e),
    ensures
        pos < e,
        var_def_end(toks, pos) == Ok::<int, int>(e),
        at(toks, pos) == Some(Token::Ident(ident)),
        at(toks, pos + 1) != Some(Token::LParen),
{
    let name = seq![Token::Ident(ident)];
    let dims = dim_list_tokens(dimensions);
    lemma_around(toks, pos, e, name + dims, Token::Assign, init_tokens(init));
    let m = pos + 1 + dims.len();
    lemma_head(toks, pos, m, Token::Ident(ident), dims);
    lemma_dims(toks, dimensions, pos + 1, m);
    lemma_init(toks, init, m + 1, e);
    assert(name_end(toks, pos) == Ok::<int, int>(pos + 1));
    assert(bracket_rest(toks, m) == Ok::<int, int>(m));
    assert(bracket_rest(toks, pos + 1) == Ok::<int, int>(m));
}

/// The definition of a variable that is written between two places, with
/// a comma or a semicolon behind it, ends at the second place.
pub proof fn lemma_var_def(toks: Seq<(Token, Span)>, d: VarDef, pos: int, e: int)
    requires
        0 <= pos <= e <= toks.len(),
        stream(toks, pos, e) == var_def_tokens(d),
        ends_def(toks, e),
    ensures
        pos < e,
        var_def_end(toks, pos) == Ok::<int, int>(e),
        at(toks, pos) matches Some(Token::Ident(_)),
        at(toks, pos + 1) != Some(Token::LParen),
{
    match d {
        VarDef::Uninit(ident, dimensions) => {
            lemma_var_def_plain(toks, ident, dimensions@, pos, e);
        },
        VarDef::Init(ident, dimensions, init) => {
            lemma_var_def_init(toks, ident, dimensions@, init, pos, e);
        },
    }
}

/// Definitions of constants with commas between them that are written
/// between two places are read up to the second place, and on where another
/// comma follows.
pub proof fn lemma_const_defs(toks: Seq<(Token, Span)>, ds: Seq<ConstDef>, pos: int, e: int)
    requires
        0 <= pos <= e <= toks.len(),
        ds.len() >= 1,
        stream(toks, pos, e) == const_def_list_tokens(ds),
        ends_def(toks, e),
    ensures
        pos < e,
        pieces_from(toks, pos, Piece::ConstDef) == list_rest(toks, e, Piece::ConstDef),
    decreases ds.len(),
{
    lemma_pieces(toks, pos);
    if ds.len() == 1 {
        lemma_const_def(toks, ds[0], pos, e);
    } else {
        let before = const_def_list_tokens(ds.drop_last());
        lemma_around(toks, pos, e, before, Token::Comma, const_def_tokens(ds.last()));
        let m = pos + before.len();
        lemma_const_defs(toks, ds.drop_last(), pos, m);
        lemma_const_def(toks, ds.last(), m + 1, e);
        lemma_pieces(toks, m + 1);
        lemma_list_step(toks, Piece::ConstDef, pos, m, e);
    }
}

/// Definitions of variables with commas between them that are written
/// between two places are read up to the second place, and on where another
/// comma follows.
pub proof fn lemma_var_defs(toks: Seq<(Token, Span)>, ds: Seq<VarDef>, pos: int, e: int)
    requires
        0 <= pos <= e <= toks.len(),
        ds.len() >= 1,
        stream(toks, pos, e) == var_def_list_tokens(ds),
        ends_def(toks, e),
    ensures
        pos < e,
        at(toks, pos) matches Some(Token::Ident(_)),
        at(toks, pos + 1) != Some(Token::LParen),
        pieces_from(toks, pos, Piece::VarDef) == list_rest(toks, e, Piece::VarDef),
    decreases ds.len(),
{
    lemma_pieces(toks, pos);
    if ds.len() == 1 {
        lemma_var_def(toks, ds[0], pos, e);
    } else {
        let before = var_def_list_tokens(ds.drop_last());
        lemma_around(toks, pos, e, before, Token::Comma, var_def_tokens(ds.last()));
        let m = pos + before.len();
        lemma_var_defs(toks, ds.drop_last(), pos, m);
        lemma_var_def(toks, ds.last(), m + 1, e);
        lemma_pieces(toks, m + 1);
        lemma_list_step(toks, Piece::VarDef, pos, m, e);
    }
}

/// A declaration of constants.
proof fn lemma_const_decl(toks: Seq<(Token, Span)>, ds: Seq<ConstDef>, pos: int, e: int)
    requires
        0 <= pos <= e <= toks.len(),
        ds.len() >= 1,
        stream(toks, pos, e) == seq![Token::Const] + seq![Token::Int] + const_def_list_tokens(ds)
            + seq![Token::SemiColon],
    ensures
        pos < e,
        const_decl_end(toks, pos) == Ok::<int, int>(e),
        at(toks, pos) == Some(Token::Const),
{
    lemma_bracketed(
        toks,
        pos,
        e,
        seq![Token::Const],
        Token::Int,
        const_def_list_tokens(ds),
        Token::SemiColon,
    );
    lemma_one(toks, pos, pos + 1, Token::Const);
    lemma_const_defs(toks, ds, pos + 2, e - 1);
    assert(list_rest(toks, e - 1, Piece::ConstDef) == Ok::<int, int>(e - 1));
    assert(mark_end(toks, e - 1, Token::SemiColon) == Ok::<int, int>(e));
    assert(defs_end(toks, pos + 2, Piece::ConstDef) == Ok::<int, int>(e));
    assert(mark_end(toks, pos, Token::Const) == Ok::<int, int>(pos + 1));
    assert(mark_end(toks, pos + 1, Token::Int) == Ok::<int, int>(pos + 2));
}

/// A declaration of variables.
proof fn lemma_var_decl(toks: Seq<(Token, Span)>, ds: Seq<VarDef>, pos: int, e: int)
    requires
        0 <= pos <= e <= toks.len(),
        ds.len() >= 1,
        stream(toks, pos, e) == seq![Token::Int] + var_def_list_tokens(ds) + seq![
            Token::SemiColon,
        ],
    ensures
        pos < e,
        var_decl_end(toks, pos) == Ok::<int, int>(e),
        at(toks, pos) == Some(Token::Int),
        at(toks, pos + 2) != Some(Token::LParen),
{
    lemma_enclosed(
        toks,
        pos,
        e,
        Token::Int,
        var_def_list_tokens(ds),
        Token::SemiColon,
    );
    lemma_var_defs(toks, ds, pos + 1, e - 1);
    assert(list_rest(toks, e - 1, Piece::VarDef) == Ok::<int, int>(e - 1));
    assert(mark_end(toks, e - 1, Token::SemiColon) == Ok::<int, int>(e));
    assert(defs_end(toks, pos + 1, Piece::VarDef) == Ok::<int, int>(e));
    assert(mark_end(toks, pos, Token::Int) == Ok::<int, int>(pos + 1));
}

/// A declaration of at least one name that is written between two places
/// ends at the second place, and is not taken for a function.
pub proof fn lemma_decl(toks: Seq<(Token, Span)>, d: Decl, pos: int, e: int)
    requires
        0 <= pos <= e <= toks.len(),
        stream(toks, pos, e) == decl_tokens(d),
        decl_listed(d),
    ensures
        pos < e,
        decl_end(toks, pos) == Ok::<int, int>(e),
        at(toks, pos) == Some(Token::Const) || at(toks, pos) == Some(Token::Int),
        !starts_func(toks, pos),
{
    match d {
        Decl::ConstDecl(c) => {
            lemma_const_decl(toks, c.const_defs@, pos, e);
        },
        Decl::VarDecl(v) => {
            lemma_var_decl(toks, v.var_defs@, pos, e);
        },
    }
}

/// Whether a parameter can end at `e`: a comma or the closing parenthesis
/// follows.
pub open spec fn ends_param(toks: Seq<(Token, Span)>, e: int) -> bool {
    at(toks, e) == Some(Token::Comma) || at(toks, e) == Some(Token::RParen)
}

/// A parameter that is written between two places, with a comma or the
/// closing parenthesis behind it, ends at the second place.
pub proof fn lemma_param(toks: Seq<(Token, Span)>, p: FuncFParam, pos: int, e: int)
    requires
        0 <= pos <= e <= toks.len(),
        stream(toks, pos, e) == param_tokens(p),
        ends_param(toks, e),
    ensures
        pos < e,
        at(toks, pos) == Some(Token::Int),
        param_end(toks, pos) == Ok::<int, int>(e),
{
    if p.is_array {
        let dims = dim_list_tokens(p.dimensions@);
        let front = seq![Token::Int] + seq![Token::Ident(p.ident)] + seq![Token::LBracket]
            + seq![Token::RBracket];
        lemma_split(toks, pos, e, front, dims);
        lemma_bracketed(
            toks,
            pos,
            pos + 4,
            seq![Token::Int],
            Token::Ident(p.ident),
            seq![Token::LBracket],
            Token::RBracket,
        );
        lemma_one(toks, pos, pos + 1, Token::Int);
        lemma_one(toks, pos + 2, pos + 3, Token::LBracket);
        lemma_dims(toks, p.dimensions@, pos + 4, e);
        assert(mark_end(toks, pos, Token::Int) == Ok::<int, int>(pos + 1));
        assert(name_end(toks, pos + 1) == Ok::<int, int>(pos + 2));
        assert(mark_end(toks, pos + 3, Token::RBracket) == Ok::<int, int>(pos + 4));
        assert(bracket_rest(toks, e) == Ok::<int, int>(e));
    } else {
        lemma_head(toks, pos, e, Token::Int, seq![Token::Ident(p.ident)]);
        lemma_one(toks, pos + 1, e, Token::Ident(p.ident));
        assert(mark_end(toks, pos, Token::Int) == Ok::<int, int>(pos + 1));
        assert(name_end(toks, pos + 1) == Ok::<int, int>(pos + 2));
    }
}

/// Parameters with commas between them that are written between two places
/// are read up to the second place, and on where another comma follows.
pub proof fn lemma_param_list(toks: Seq<(Token, Span)>, ps: Seq<FuncFParam>, pos: int, e: int)
    requires
        0 <= pos <= e <= toks.len(),
        ps.len() >= 1,
        stream(toks, pos, e) == param_list_tokens(ps),
        ends_param(toks, e),
    ensures
        pos < e,
        at(toks, pos) == Some(Token::Int),
        pieces_from(toks, pos, Piece::Param) == list_rest(toks, e, Piece::Param),
    decreases ps.len(),
{
    lemma_pieces(toks, pos);
    if ps.len() == 1 {
        lemma_param(toks, ps[0], pos, e);
    } else {
        let before = param_list_tokens(ps.drop_last());
        lemma_around(toks, pos, e, before, Token::Comma, param_tokens(ps.last()));
        let m = pos + before.len();
        lemma_param_list(toks, ps.drop_last(), pos, m);
        lemma_param(toks, ps.last(), m + 1, e);
        lemma_pieces(toks, m + 1);
        lemma_list_step(toks, Piece::Param, pos, m, e);
    }
}

/// The parameters of a function that are written between two places, with
/// the closing parenthesis behind them, end at the second place.
pub proof fn lemma_params(toks: Seq<(Token, Span)>, ps: Seq<FuncFParam>, pos: int, e: int)
    requires
        0 <= pos <= e <= toks.len(),
        stream(toks, pos, e) == param_list_tokens(ps),
        at(toks, e) == Some(Token::RParen),
    ensures
        params_end(toks, pos) == Ok::<int, int>(e),
{
    if ps.len() == 0 {
        lemma_none(toks, pos, e);
    } else {
        lemma_param_list(toks, ps, pos, e);
        lemma_pieces(toks, pos);
        assert(list_rest(toks, e, Piece::Param) == Ok::<int, int>(e));
    }
}

} // verus!
