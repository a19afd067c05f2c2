//! The grammar accepts whatever is written as a statement.

use vstd::prelude::*;
use crate::accepts::{
    free_after, lemma_around, lemma_bracketed, lemma_enclosed, lemma_exp, lemma_exp_first,
    lemma_head, lemma_lval, lemma_none, lemma_one, lemma_split, starts_exp,
};
use crate::accepts_decl::lemma_decl;
use crate::ast::{
    AddExp, Block, BlockItem, EqExp, Exp, LAndExp, LOrExp, LVal, MulExp, PrimaryExp, RelExp, Stmt,
    UnaryExp,
};
use crate::grammar::{
    assign_or_exp_end, at, block_end, bracket_rest, exp_stmt_end, head_end, item_end, items_rest,
    lval_end, mark_end, name_end, return_end, stmt_end,
};
use crate::parser::else_taken;
use crate::syntax::{
    add_tokens, block_nested, block_tokens, else_tokens, eq_tokens, exp_list_tokens, exp_tokens,
    item_list_tokens, item_nested, item_tokens, land_tokens, lor_tokens, lval_tokens, mul_tokens,
    opt_exp_tokens, primary_tokens, rel_tokens, stmt_nested, stmt_tokens, stream, unary_op_token,
    unary_tokens,
};
use crate::token::{Span, Token};

verus! {

/// Whether no `=` stands where a name with its indices, read from `pos`,
/// ends within the stretch up to `e`.
pub open spec fn no_assign(toks: Seq<(Token, Span)>, pos: int, e: int) -> bool {
    lval_end(toks, pos) matches Ok(p) ==> p <= e && (p < e ==> at(toks, p) != Some(
        Token::Assign,
    ))
}

/// Within what is written between two places, no `=` stands where a name
/// with its indices, read from the first place, ends.
proof fn lemma_primary_name(toks: Seq<(Token, Span)>, x: PrimaryExp, pos: int, e: int)
    requires
        0 <= pos <= e <= toks.len(),
        stream(toks, pos, e) == primary_tokens(x),
        free_after(toks, e, 1),
    ensures
        no_assign(toks, pos, e),
{
    match x {
        PrimaryExp::Paren(inner) => {
            assert(primary_tokens(x) =~= seq![Token::LParen] + (exp_tokens(*inner) + seq![
                Token::RParen,
            ]));
            lemma_head(toks, pos, e, Token::LParen, exp_tokens(*inner) + seq![Token::RParen]);
            assert(name_end(toks, pos) is Err);
        },
        PrimaryExp::LVal(lval) => {
            lemma_lval(toks, lval, pos, e);
            assert(bracket_rest(toks, e) == Ok::<int, int>(e));
        },
        PrimaryExp::Number(n) => {
            lemma_one(toks, pos, e, Token::IntConst(n));
            assert(name_end(toks, pos) is Err);
        },
    }
}

/// Within what is written between two places, no `=` stands where a name
/// with its indices, read from the first place, ends.
proof fn lemma_unary_name(toks: Seq<(Token, Span)>, x: UnaryExp, pos: int, e: int)
    requires
        0 <= pos <= e <= toks.len(),
        stream(toks, pos, e) == unary_tokens(x),
        free_after(toks, e, 1),
    ensures
        no_assign(toks, pos, e),
{
    match x {
        UnaryExp::PrimaryExp(inner) => {
            lemma_primary_name(toks, *inner, pos, e);
        },
        UnaryExp::Call(name, args) => {
            lemma_bracketed(
                toks,
                pos,
                e,
                seq![Token::Ident(name)],
                Token::LParen,
                exp_list_tokens(args@),
                Token::RParen,
            );
            lemma_one(toks, pos, pos + 1, Token::Ident(name));
            assert(name_end(toks, pos) == Ok::<int, int>(pos + 1));
            assert(bracket_rest(toks, pos + 1) == Ok::<int, int>(pos + 1));
        },
        UnaryExp::UnaryOp(op, inner) => {
            lemma_head(toks, pos, e, unary_op_token(op), unary_tokens(*inner));
            assert(name_end(toks, pos) is Err);
        },
    }
}

/// Within what is written between two places, no `=` stands where a name
/// with its indices, read from the first place, ends.
proof fn lemma_lor_name(toks: Seq<(Token, Span)>, x: LOrExp, pos: int, e: int)
    requires
        0 <= pos <= e <= toks.len(),
        stream(toks, pos, e) == lor_tokens(x),
        free_after(toks, e, 6),
    ensures
        no_assign(toks, pos, e),
    decreases x,
{
    match x {
        LOrExp::LAndExp(inner) => {
            lemma_land_name(toks, *inner, pos, e);
        },
        LOrExp::Or(l, r) => {
            lemma_around(toks, pos, e, lor_tokens(*l), Token::Or, land_tokens(*r));
            lemma_lor_name(toks, *l, pos, pos + lor_tokens(*l).len());
        },
    }
}

/// Within what is written between two places, no `=` stands where a name
/// with its indices, read from the first place, ends.
proof fn lemma_land_name(toks: Seq<(Token, Span)>, x: LAndExp, pos: int, e: int)
    requires
        0 <= pos <= e <= toks.len(),
        stream(toks, pos, e) == land_tokens(x),
        free_after(toks, e, 5),
    ensures
        no_assign(toks, pos, e),
    decreases x,
{
    match x {
        LAndExp::EqExp(inner) => {
            lemma_eq_name(toks, *inner, pos, e);
        },
        LAndExp::And(l, r) => {
            lemma_around(toks, pos, e, land_tokens(*l), Token::And, eq_tokens(*r));
            lemma_land_name(toks, *l, pos, pos + land_tokens(*l).len());
        },
    }
}

/// Within what is written between two places, no `=` stands where a name
/// with its indices, read from the first place, ends.
proof fn lemma_eq_name(toks: Seq<(Token, Span)>, x: EqExp, pos: int, e: int)
    requires
        0 <= pos <= e <= toks.len(),
        stream(toks, pos, e) == eq_tokens(x),
        free_after(toks, e, 4),
    ensures
        no_assign(toks, pos, e),
    decreases x,
{
    match x {
        EqExp::RelExp(inner) => {
            lemma_rel_name(toks, *inner, pos, e);
        },
        EqExp::Eq(l, r) => {
            lemma_around(toks, pos, e, eq_tokens(*l), Token::Eq, rel_tokens(*r));
            lemma_eq_name(toks, *l, pos, pos + eq_tokens(*l).len());
        },
        EqExp::Neq(l, r) => {
            lemma_around(toks, pos, e, eq_tokens(*l), Token::Neq, rel_tokens(*r));
            lemma_eq_name(toks, *l, pos, pos + eq_tokens(*l).len());
        },
    }
}

/// Within what is written between two places, no `=` stands where a name
/// with its indices, read from the first place, ends.
proof fn lemma_rel_name(toks: Seq<(Token, Span)>, x: RelExp, pos: int, e: int)
    requires
        0 <= pos <= e <= toks.len(),
        stream(toks, pos, e) == rel_tokens(x),
        free_after(toks, e, 3),
    ensures
        no_assign(toks, pos, e),
    decreases x,
{
    match x {
        RelExp::AddExp(inner) => {
            lemma_add_name(toks, *inner, pos, e);
        },
        RelExp::Lt(l, r) => {
            lemma_around(toks, pos, e, rel_tokens(*l), Token::Lt, add_tokens(*r));
            lemma_rel_name(toks, *l, pos, pos + rel_tokens(*l).len());
        },
        RelExp::Gt(l, r) => {
            lemma_around(toks, pos, e, rel_tokens(*l), Token::Gt, add_tokens(*r));
            lemma_rel_name(toks, *l, pos, pos + rel_tokens(*l).len());
        },
        RelExp::Le(l, r) => {
            lemma_around(toks, pos, e, rel_tokens(*l), Token::Le, add_tokens(*r));
            lemma_rel_name(toks, *l, pos, pos + rel_tokens(*l).len());
        },
        RelExp::Ge(l, r) => {
            lemma_around(toks, pos, e, rel_tokens(*l), Token::Ge, add_tokens(*r));
            lemma_rel_name(toks, *l, pos, pos + rel_tokens(*l).len());
        },
    }
}

/// Within what is written between two places, no `=` stands where a name
/// with its indices, read from the first place, ends.
proof fn lemma_add_name(toks: Seq<(Token, Span)>, x: AddExp, pos: int, e: int)
    requires
        0 <= pos <= e <= toks.len(),
        stream(toks, pos, e) == add_tokens(x),
        free_after(toks, e, 2),
    ensures
        no_assign(toks, pos, e),
    decreases x,
{
    match x {
        AddExp::MulExp(inner) => {
            lemma_mul_name(toks, *inner, pos, e);
        },
        AddExp::Add(l, r) => {
            lemma_around(toks, pos, e, add_tokens(*l), Token::Add, mul_tokens(*r));
            lemma_add_name(toks, *l, pos, pos + add_tokens(*l).len());
        },
        AddExp::Sub(l, r) => {
            lemma_around(toks, pos, e, add_tokens(*l), Token::Sub, mul_tokens(*r));
            lemma_add_name(toks, *l, pos, pos + add_tokens(*l).len());
        },
    }
}

/// Within what is written between two places, no `=` stands where a name
/// with its indices, read from the first place, ends.
proof fn lemma_mul_name(toks: Seq<(Token, Span)>, x: MulExp, pos: int, e: int)
    requires
        0 <= pos <= e <= toks.len(),
        stream(toks, pos, e) == mul_tokens(x),
        free_after(toks, e, 1),
    ensures
        no_assign(toks, pos, e),
    decreases x,
{
    match x {
        MulExp::UnaryExp(inner) => {
            lemma_unary_name(toks, *inner, pos, e);
        },
        MulExp::Mul(l, r) => {
            lemma_around(toks, pos, e, mul_tokens(*l), Token::Mul, unary_tokens(*r));
            lemma_mul_name(toks, *l, pos, pos + mul_tokens(*l).len());
        },
        MulExp::Div(l, r) => {
            lemma_around(toks, pos, e, mul_tokens(*l), Token::Div, unary_tokens(*r));
            lemma_mul_name(toks, *l, pos, pos + mul_tokens(*l).len());
        },
        MulExp::Mod(l, r) => {
            lemma_around(toks, pos, e, mul_tokens(*l), Token::Mod, unary_tokens(*r));
            lemma_mul_name(toks, *l, pos, pos + mul_tokens(*l).len());
        },
    }
}

/// Within an expression that is written between two places, no `=` stands
/// where a name with its indices, read from the first place, ends.
pub proof fn lemma_exp_name(toks: Seq<(Token, Span)>, x: Exp, pos: int, e: int)
    requires
        0 <= pos <= e <= toks.len(),
        stream(toks, pos, e) == exp_tokens(x),
        free_after(toks, e, 7),
    ensures
        no_assign(toks, pos, e),
{
    match x {
        Exp::LOrExp(inner) => lemma_lor_name(toks, *inner, pos, e),
    }
}

/// Whether a statement can start with the token.
pub open spec fn starts_stmt(t: Token) -> bool {
    t == Token::SemiColon || t == Token::LBrace || t == Token::If || t == Token::While || t
        == Token::Break || t == Token::Continue || t == Token::Return || starts_exp(t)
}

/// An assignment that is written between two places ends at the second.
proof fn lemma_assign(toks: Seq<(Token, Span)>, lval: LVal, x: Exp, pos: int, e: int)
    requires
        0 <= pos <= e <= toks.len(),
        stream(toks, pos, e) == lval_tokens(lval) + seq![Token::Assign] + exp_tokens(x) + seq![
            Token::SemiColon,
        ],
    ensures
        pos < e,
        assign_or_exp_end(toks, pos) == Ok::<int, int>(e),
        at(toks, pos) matches Some(Token::Ident(_)),
{
    lemma_bracketed(
        toks,
        pos,
        e,
        lval_tokens(lval),
        Token::Assign,
        exp_tokens(x),
        Token::SemiColon,
    );
    let m = pos + lval_tokens(lval).len();
    lemma_lval(toks, lval, pos, m);
    lemma_exp(toks, x, m + 1, e - 1);
    assert(bracket_rest(toks, m) == Ok::<int, int>(m));
    assert(exp_stmt_end(toks, m + 1) == Ok::<int, int>(e));
}

/// An expression statement that is written between two places ends at the
/// second, and is not taken for an assignment.
proof fn lemma_exp_stmt(toks: Seq<(Token, Span)>, x: Exp, pos: int, e: int)
    requires
        0 <= pos <= e <= toks.len(),
        stream(toks, pos, e) == exp_tokens(x) + seq![Token::SemiColon],
    ensures
        pos < e,
        exp_stmt_end(toks, pos) == Ok::<int, int>(e),
        assign_or_exp_end(toks, pos) == Ok::<int, int>(e),
        at(toks, pos) matches Some(t) && starts_exp(t),
{
    lemma_split(toks, pos, e, exp_tokens(x), seq![Token::SemiColon]);
    let m = pos + exp_tokens(x).len();
    lemma_one(toks, m, e, Token::SemiColon);
    lemma_exp(toks, x, pos, m);
    lemma_exp_name(toks, x, pos, m);
    lemma_exp_first(x);
    assert(stream(toks, pos, m)[0] == exp_tokens(x)[0]);
    assert(exp_stmt_end(toks, pos) == Ok::<int, int>(e));
}

/// A `return` that is written between two places ends at the second.
proof fn lemma_return(toks: Seq<(Token, Span)>, x: Option<Exp>, pos: int, e: int)
    requires
        0 <= pos <= e <= toks.len(),
        stream(toks, pos, e) == seq![Token::Return] + opt_exp_tokens(x) + seq![Token::SemiColon],
    ensures
        pos < e,
        return_end(toks, pos) == Ok::<int, int>(e),
        at(toks, pos) == Some(Token::Return),
{
    lemma_enclosed(
        toks,
        pos,
        e,
        Token::Return,
        opt_exp_tokens(x),
        Token::SemiColon,
    );
    assert(mark_end(toks, pos, Token::Return) == Ok::<int, int>(pos + 1));
    match x {
        None => {
            lemma_none(toks, pos + 1, e - 1);
        },
        Some(x) => {
            lemma_exp(toks, x, pos + 1, e - 1);
            lemma_exp_first(x);
            assert(stream(toks, pos + 1, e - 1)[0] == exp_tokens(x)[0]);
            assert(exp_stmt_end(toks, pos + 1) == Ok::<int, int>(e));
        },
    }
}

/// A word and a semicolon that are written between two places.
proof fn lemma_word(toks: Seq<(Token, Span)>, word: Token, pos: int, e: int)
    requires
        0 <= pos <= e <= toks.len(),
        stream(toks, pos, e) == seq![word] + seq![Token::SemiColon],
    ensures
        e == pos + 2,
        at(toks, pos) == Some(word),
        mark_end(toks, pos + 1, Token::SemiColon) == Ok::<int, int>(e),
{
    lemma_head(toks, pos, e, word, seq![Token::SemiColon]);
    lemma_one(toks, pos + 1, e, Token::SemiColon);
}

/// The head of an `if` or `while` that is written between two places ends
/// at the second.
proof fn lemma_head_end(toks: Seq<(Token, Span)>, word: Token, c: Exp, pos: int, e: int)
    requires
        0 <= pos <= e <= toks.len(),
        stream(toks, pos, e) == seq![word] + seq![Token::LParen] + exp_tokens(c) + seq![
            Token::RParen,
        ],
    ensures
        pos < e,
        at(toks, pos) == Some(word),
        head_end(toks, pos, word) == Ok::<int, int>(e),
{
    lemma_bracketed(toks, pos, e, seq![word], Token::LParen, exp_tokens(c), Token::RParen);
    lemma_one(toks, pos, pos + 1, word);
    lemma_exp(toks, c, pos + 2, e - 1);
    assert(mark_end(toks, pos, word) == Ok::<int, int>(pos + 1));
    assert(mark_end(toks, pos + 1, Token::LParen) == Ok::<int, int>(pos + 2));
    assert(mark_end(toks, e - 1, Token::RParen) == Ok::<int, int>(e));
}

/// Where an `if` ends, from where its parts end.
proof fn lemma_if_end(toks: Seq<(Token, Span)>, pos: int, m1: int, m2: int, e: int)
    requires
        at(toks, pos) == Some(Token::If),
        head_end(toks, pos, Token::If) == Ok::<int, int>(m1),
        pos < m1 <= m2,
        stmt_end(toks, m1) == Ok::<int, int>(m2),
        at(toks, m2) == Some(Token::Else) ==> stmt_end(toks, m2 + 1) == Ok::<int, int>(e),
        at(toks, m2) != Some(Token::Else) ==> e == m2,
    ensures
        stmt_end(toks, pos) == Ok::<int, int>(e),
{
}

/// Where a `while` ends, from where its parts end.
proof fn lemma_while_end(toks: Seq<(Token, Span)>, pos: int, m1: int, e: int)
    requires
        at(toks, pos) == Some(Token::While),
        head_end(toks, pos, Token::While) == Ok::<int, int>(m1),
        pos < m1,
        stmt_end(toks, m1) == Ok::<int, int>(e),
    ensures
        stmt_end(toks, pos) == Ok::<int, int>(e),
{
}

/// An `if` that is written between two places ends at the second.
proof fn lemma_if(toks: Seq<(Token, Span)>, s: Stmt, pos: int, e: int)
    requires
        0 <= pos <= e <= toks.len(),
        s is If,
        stream(toks, pos, e) == stmt_tokens(s),
        stmt_nested(s),
        else_taken(toks, s, e),
    ensures
        pos < e,
        stmt_end(toks, pos) == Ok::<int, int>(e),
        at(toks, pos) == Some(Token::If),
    decreases e - pos, 0int,
{
    match s {
        Stmt::If(c, t, o) => {
            let head = seq![Token::If] + seq![Token::LParen] + exp_tokens(c) + seq![
                Token::RParen,
            ];
            lemma_split(toks, pos, e, head + stmt_tokens(*t), else_tokens(o));
            let m2 = pos + (head + stmt_tokens(*t)).len();
            lemma_split(toks, pos, m2, head, stmt_tokens(*t));
            let m1 = pos + head.len();
            lemma_head_end(toks, Token::If, c, pos, m1);
            match o {
                None => {
                    lemma_none(toks, m2, e);
                    lemma_stmt(toks, *t, m1, m2);
                },
                Some(other) => {
                    lemma_head(toks, m2, e, Token::Else, stmt_tokens(*other));
                    lemma_stmt(toks, *t, m1, m2);
                    lemma_stmt(toks, *other, m2 + 1, e);
                },
            }
            lemma_if_end(toks, pos, m1, m2, e);
        },
        _ => {},
    }
}

/// A `while` that is written between two places ends at the second.
proof fn lemma_while(toks: Seq<(Token, Span)>, s: Stmt, pos: int, e: int)
    requires
        0 <= pos <= e <= toks.len(),
        s is While,
        stream(toks, pos, e) == stmt_tokens(s),
        stmt_nested(s),
        else_taken(toks, s, e),
    ensures
        pos < e,
        stmt_end(toks, pos) == Ok::<int, int>(e),
        at(toks, pos) == Some(Token::While),
    decreases e - pos, 0int,
{
    match s {
        Stmt::While(c, body) => {
            let head = seq![Token::While] + seq![Token::LParen] + exp_tokens(c) + seq![
                Token::RParen,
            ];
            lemma_split(toks, pos, e, head, stmt_tokens(*body));
            let m1 = pos + head.len();
            lemma_head_end(toks, Token::While, c, pos, m1);
            lemma_stmt(toks, *body, m1, e);
            lemma_while_end(toks, pos, m1, e);
        },
        _ => {},
    }
}

/// A statement that is written between two places, with each `else` where
/// it belongs and none behind that it would take, ends at the second
/// place.
pub proof fn lemma_stmt(toks: Seq<(Token, Span)>, s: Stmt, pos: int, e: int)
    requires
        0 <= pos <= e <= toks.len(),
        stream(toks, pos, e) == stmt_tokens(s),
        stmt_nested(s),
        else_taken(toks, s, e),
    ensures
        pos < e,
        stmt_end(toks, pos) == Ok::<int, int>(e),
        at(toks, pos) matches Some(t) && starts_stmt(t),
    decreases e - pos, 1int,
{
    match s {
        Stmt::Assign(lval, x) => lemma_assign(toks, lval, x, pos, e),
        Stmt::Exp(None) => {
            assert(stmt_tokens(s) =~= seq![Token::SemiColon]);
            lemma_one(toks, pos, e, Token::SemiColon);
        },
        Stmt::Exp(Some(x)) => lemma_exp_stmt(toks, x, pos, e),
        Stmt::Block(b) => {
            lemma_block(toks, b, pos, e);
        },
        Stmt::If(_, _, _) => lemma_if(toks, s, pos, e),
        Stmt::While(_, _) => lemma_while(toks, s, pos, e),
        Stmt::Break => lemma_word(toks, Token::Break, pos, e),
        Stmt::Continue => lemma_word(toks, Token::Continue, pos, e),
        Stmt::Return(x) => lemma_return(toks, x, pos, e),
    }
}

/// A block that is written between two places ends at the second.
pub proof fn lemma_block(toks: Seq<(Token, Span)>, b: Block, pos: int, e: int)
    requires
        0 <= pos <= e <= toks.len(),
        stream(toks, pos, e) == block_tokens(b),
        block_nested(b),
    ensures
        pos < e,
        block_end(toks, pos) == Ok::<int, int>(e),
        at(toks, pos) == Some(Token::LBrace),
    decreases e - pos, 0int,
{
    lemma_enclosed(
        toks,
        pos,
        e,
        Token::LBrace,
        item_list_tokens(b.items@),
        Token::RBrace,
    );
    lemma_items(toks, b.items@, pos + 1, e - 1);
    assert(items_rest(toks, e - 1) == Ok::<int, int>(e));
    assert(mark_end(toks, pos, Token::LBrace) == Ok::<int, int>(pos + 1));
}

/// Whether each of the items is as the grammar means it.
pub open spec fn items_nested(items: Seq<BlockItem>) -> bool {
    forall|i: int| 0 <= i < items.len() ==> item_nested(#[trigger] items[i])
}

/// Items of a block that are written between two places, with no `else`
/// behind them, are read up to the second place.
pub proof fn lemma_items(toks: Seq<(Token, Span)>, items: Seq<BlockItem>, pos: int, e: int)
    requires
        0 <= pos <= e <= toks.len(),
        stream(toks, pos, e) == item_list_tokens(items),
        items_nested(items),
        at(toks, e) != Some(Token::Else),
    ensures
        items_rest(toks, pos) == items_rest(toks, e),
    decreases e - pos, 3int,
{
    if items.len() == 0 {
        lemma_none(toks, pos, e);
    } else {
        let before = item_list_tokens(items.drop_last());
        lemma_split(toks, pos, e, before, item_tokens(items.last()));
        let m = pos + before.len();
        assert(item_nested(items[items.len() - 1]));
        lemma_item(toks, items.last(), m, e);
        assert(items_nested(items.drop_last())) by {
            assert forall|i: int| 0 <= i < items.drop_last().len() implies item_nested(
                #[trigger] items.drop_last()[i],
            ) by {
                assert(items.drop_last()[i] == items[i]);
            }
        }
        lemma_items(toks, items.drop_last(), pos, m);
        assert(item_end(toks, m) == Ok::<int, int>(e));
        assert(items_rest(toks, m) == items_rest(toks, e));
    }
}

/// An item of a block that is written between two places, with no `else`
/// behind it, ends at the second place.
pub proof fn lemma_item(toks: Seq<(Token, Span)>, item: BlockItem, pos: int, e: int)
    requires
        0 <= pos <= e <= toks.len(),
        stream(toks, pos, e) == item_tokens(item),
        item_nested(item),
        at(toks, e) != Some(Token::Else),
    ensures
        pos < e,
        item_end(toks, pos) == Ok::<int, int>(e),
        at(toks, pos) matches Some(t) && t != Token::RBrace && t != Token::Else,
    decreases e - pos, 2int,
{
    match item {
        BlockItem::Decl(d) => {
            lemma_decl(toks, *d, pos, e);
        },
        BlockItem::Stmt(s) => {
            lemma_stmt(toks, *s, pos, e);
        },
    }
}

} // verus!
