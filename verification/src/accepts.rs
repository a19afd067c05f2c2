//! The grammar accepts whatever is written as a tree: where the tokens
//! between two places are those of a tree, the grammar says that the
//! construct that starts at the first place ends at the second.

use vstd::prelude::*;
use crate::ast::{AddExp, EqExp, Exp, LAndExp, LOrExp, LVal, MulExp, PrimaryExp, RelExp, UnaryExp};
use crate::grammar::{
    args_end, at, binary_end, binary_rest, bracket_rest, exp_end, is_operator, lemma_level_zero,
    lemma_pieces, list_rest, lval_end, mark_end, name_end, primary_end, unary_end, Piece,
};
use crate::syntax::{
    add_tokens, eq_tokens, exp_list_tokens, exp_tokens, index_list_tokens, land_tokens, lor_tokens,
    lval_tokens, mul_tokens, primary_tokens, rel_tokens, stream, unary_op_token, unary_tokens,
};
use crate::token::{Span, Token};

verus! {

/// Where a stretch of tokens starts with a given token, the token stands at
/// the start, and the rest follows.
pub proof fn lemma_head(toks: Seq<(Token, Span)>, pos: int, e: int, t: Token, rest: Seq<Token>)
    requires
        0 <= pos <= e <= toks.len(),
        stream(toks, pos, e) == seq![t] + rest,
    ensures
        pos < e,
        at(toks, pos) == Some(t),
        stream(toks, pos + 1, e) == rest,
{
    let s = stream(toks, pos, e);
    assert(s.len() == 1 + rest.len());
    assert(s[0] == t);
    assert(stream(toks, pos + 1, e) =~= rest) by {
        assert forall|i: int| 0 <= i < rest.len() implies stream(toks, pos + 1, e)[i]
            == rest[i] by {
            assert(s[i + 1] == rest[i]);
        }
    }
}

/// Where a stretch of tokens is made of two parts, the parts are stretches
/// that meet.
pub proof fn lemma_split(toks: Seq<(Token, Span)>, pos: int, e: int, a: Seq<Token>, b: Seq<Token>)
    requires
        0 <= pos <= e <= toks.len(),
        stream(toks, pos, e) == a + b,
    ensures
        pos + a.len() <= e,
        stream(toks, pos, pos + a.len()) == a,
        stream(toks, pos + a.len(), e) == b,
{
    let s = stream(toks, pos, e);
    assert(s.len() == a.len() + b.len());
    assert(stream(toks, pos, pos + a.len()) =~= a) by {
        assert forall|i: int| 0 <= i < a.len() implies stream(toks, pos, pos + a.len())[i]
            == a[i] by {
            assert(s[i] == a[i]);
        }
    }
    assert(stream(toks, pos + a.len(), e) =~= b) by {
        assert forall|i: int| 0 <= i < b.len() implies stream(toks, pos + a.len(), e)[i]
            == b[i] by {
            assert(s[a.len() + i] == b[i]);
        }
    }
}

/// Where a stretch of tokens is a part, a token and another part, the
/// token stands between the two parts.
pub proof fn lemma_around(
    toks: Seq<(Token, Span)>,
    pos: int,
    e: int,
    a: Seq<Token>,
    t: Token,
    b: Seq<Token>,
)
    requires
        0 <= pos <= e <= toks.len(),
        stream(toks, pos, e) == a + seq![t] + b,
    ensures
        pos + a.len() < e,
        stream(toks, pos, pos + a.len()) == a,
        at(toks, pos + a.len()) == Some(t),
        stream(toks, pos + a.len() + 1, e) == b,
{
    assert(a + seq![t] + b =~= a + (seq![t] + b));
    lemma_split(toks, pos, e, a, seq![t] + b);
    lemma_head(toks, pos + a.len(), e, t, b);
}

/// Where a stretch of tokens is one token, the token stands there and the
/// stretch is one long.
pub proof fn lemma_one(toks: Seq<(Token, Span)>, pos: int, e: int, t: Token)
    requires
        0 <= pos <= e <= toks.len(),
        stream(toks, pos, e) == seq![t],
    ensures
        e == pos + 1,
        at(toks, pos) == Some(t),
{
    let s = stream(toks, pos, e);
    assert(s.len() == 1);
    assert(s[0] == t);
}

/// Where a stretch of tokens is empty, it starts where it ends.
pub proof fn lemma_none(toks: Seq<(Token, Span)>, pos: int, e: int)
    requires
        0 <= pos <= e <= toks.len(),
        stream(toks, pos, e) == Seq::<Token>::empty(),
    ensures
        e == pos,
{
    assert(stream(toks, pos, e).len() == 0);
}

/// Where a stretch of tokens is a part, an opening token, another part and
/// a closing token, the tokens stand around the second part.
pub proof fn lemma_bracketed(
    toks: Seq<(Token, Span)>,
    pos: int,
    e: int,
    before: Seq<Token>,
    open: Token,
    inside: Seq<Token>,
    close: Token,
)
    requires
        0 <= pos <= e <= toks.len(),
        stream(toks, pos, e) == before + seq![open] + inside + seq![close],
    ensures
        e == pos + before.len() + inside.len() + 2,
        stream(toks, pos, pos + before.len()) == before,
        at(toks, pos + before.len()) == Some(open),
        stream(toks, pos + before.len() + 1, e - 1) == inside,
        at(toks, e - 1) == Some(close),
{
    assert(before + seq![open] + inside + seq![close] =~= before + seq![open] + (inside + seq![
        close,
    ]));
    lemma_around(toks, pos, e, before, open, inside + seq![close]);
    let m = pos + before.len();
    lemma_split(toks, m + 1, e, inside, seq![close]);
    lemma_one(toks, m + 1 + inside.len(), e, close);
}

/// Where a stretch of tokens is an opening token, a part and a closing
/// token, the tokens stand around the part.
pub proof fn lemma_enclosed(
    toks: Seq<(Token, Span)>,
    pos: int,
    e: int,
    open: Token,
    inside: Seq<Token>,
    close: Token,
)
    requires
        0 <= pos <= e <= toks.len(),
        stream(toks, pos, e) == seq![open] + inside + seq![close],
    ensures
        e == pos + inside.len() + 2,
        at(toks, pos) == Some(open),
        stream(toks, pos + 1, e - 1) == inside,
        at(toks, e - 1) == Some(close),
{
    assert(seq![open] + inside + seq![close] =~= seq![open] + (inside + seq![close]));
    lemma_head(toks, pos, e, open, inside + seq![close]);
    lemma_split(toks, pos + 1, e, inside, seq![close]);
    lemma_one(toks, pos + 1 + inside.len(), e, close);
}

/// Whether an expression can start with the token.
pub open spec fn starts_exp(t: Token) -> bool {
    t is Ident || t is IntConst || t == Token::LParen || t == Token::Add || t == Token::Sub || t
        == Token::Not
}

/// Whether what follows at `e` leaves a binary expression of the level
/// alone: no opening bracket or parenthesis, which would go on a name, and
/// no operator of a tighter level.
pub open spec fn free_after(toks: Seq<(Token, Span)>, e: int, level: int) -> bool {
    match at(toks, e) {
        None => true,
        Some(t) => {
            &&& t != Token::LBracket
            &&& t != Token::LParen
            &&& !(level > 1 && is_operator(1, t))
            &&& !(level > 2 && is_operator(2, t))
            &&& !(level > 3 && is_operator(3, t))
            &&& !(level > 4 && is_operator(4, t))
            &&& !(level > 5 && is_operator(5, t))
            &&& !(level > 6 && is_operator(6, t))
        },
    }
}

/// A primary expression is written with at least one token, and the first is one
/// that an expression can start with.
pub proof fn lemma_primary_first(x: PrimaryExp)
    ensures
        primary_tokens(x).len() >= 1,
        starts_exp(primary_tokens(x)[0]),
{
}

/// A unary expression is written with at least one token, and the first is one
/// that an expression can start with.
pub proof fn lemma_unary_first(x: UnaryExp)
    ensures
        unary_tokens(x).len() >= 1,
        starts_exp(unary_tokens(x)[0]),
{
    match x {
        UnaryExp::PrimaryExp(inner) => lemma_primary_first(*inner),
        UnaryExp::Call(_, _) => {},
        UnaryExp::UnaryOp(_, _) => {},
    }
}

/// A product is written with at least one token, and the first is one
/// that an expression can start with.
pub proof fn lemma_mul_first(x: MulExp)
    ensures
        mul_tokens(x).len() >= 1,
        starts_exp(mul_tokens(x)[0]),
    decreases x, 0int,
{
    match x {
        MulExp::UnaryExp(inner) => lemma_unary_first(*inner),
        MulExp::Mul(l, _) => lemma_mul_first(*l),
        MulExp::Div(l, _) => lemma_mul_first(*l),
        MulExp::Mod(l, _) => lemma_mul_first(*l),
    }
}

/// A sum is written with at least one token, and the first is one
/// that an expression can start with.
pub proof fn lemma_add_first(x: AddExp)
    ensures
        add_tokens(x).len() >= 1,
        starts_exp(add_tokens(x)[0]),
    decreases x, 0int,
{
    match x {
        AddExp::MulExp(inner) => lemma_mul_first(*inner),
        AddExp::Add(l, _) => lemma_add_first(*l),
        AddExp::Sub(l, _) => lemma_add_first(*l),
    }
}

/// A comparison is written with at least one token, and the first is one
/// that an expression can start with.
pub proof fn lemma_rel_first(x: RelExp)
    ensures
        rel_tokens(x).len() >= 1,
        starts_exp(rel_tokens(x)[0]),
    decreases x, 0int,
{
    match x {
        RelExp::AddExp(inner) => lemma_add_first(*inner),
        RelExp::Lt(l, _) => lemma_rel_first(*l),
        RelExp::Gt(l, _) => lemma_rel_first(*l),
        RelExp::Le(l, _) => lemma_rel_first(*l),
        RelExp::Ge(l, _) => lemma_rel_first(*l),
    }
}

/// An equality is written with at least one token, and the first is one
/// that an expression can start with.
pub proof fn lemma_eq_first(x: EqExp)
    ensures
        eq_tokens(x).len() >= 1,
        starts_exp(eq_tokens(x)[0]),
    decreases x, 0int,
{
    match x {
        EqExp::RelExp(inner) => lemma_rel_first(*inner),
        EqExp::Eq(l, _) => lemma_eq_first(*l),
        EqExp::Neq(l, _) => lemma_eq_first(*l),
    }
}

/// A logical and is written with at least one token, and the first is one
/// that an expression can start with.
pub proof fn lemma_land_first(x: LAndExp)
    ensures
        land_tokens(x).len() >= 1,
        starts_exp(land_tokens(x)[0]),
    decreases x, 0int,
{
    match x {
        LAndExp::EqExp(inner) => lemma_eq_first(*inner),
        LAndExp::And(l, _) => lemma_land_first(*l),
    }
}

/// A logical or is written with at least one token, and the first is one
/// that an expression can start with.
pub proof fn lemma_lor_first(x: LOrExp)
    ensures
        lor_tokens(x).len() >= 1,
        starts_exp(lor_tokens(x)[0]),
    decreases x, 0int,
{
    match x {
        LOrExp::LAndExp(inner) => lemma_land_first(*inner),
        LOrExp::Or(l, _) => lemma_lor_first(*l),
    }
}

/// An expression is written with at least one token, and the first is one
/// that an expression can start with.
pub proof fn lemma_exp_first(x: Exp)
    ensures
        exp_tokens(x).len() >= 1,
        starts_exp(exp_tokens(x)[0]),
{
    match x {
        Exp::LOrExp(inner) => lemma_lor_first(*inner),
    }
}

/// A logical or that is written between two places is read up to the second
/// place, and on where another `||` follows.
pub proof fn lemma_lor(toks: Seq<(Token, Span)>, x: LOrExp, pos: int, e: int)
    requires
        0 <= pos <= e <= toks.len(),
        stream(toks, pos, e) == lor_tokens(x),
        free_after(toks, e, 6),
    ensures
        pos < e,
        binary_end(toks, pos, 6) == binary_rest(toks, e, 6),
    decreases e - pos, 16int,
{
    lemma_lor_first(x);
    match x {
        LOrExp::LAndExp(inner) => {
            lemma_land(toks, *inner, pos, e);
            assert(binary_rest(toks, e, 5) == Ok::<int, int>(e));
        },
        LOrExp::Or(l, r) => {
            lemma_around(toks, pos, e, lor_tokens(*l), Token::Or, land_tokens(*r));
            let m = pos + lor_tokens(*l).len();
            lemma_lor(toks, *l, pos, m);
            lemma_land(toks, *r, m + 1, e);
            assert(binary_rest(toks, e, 5) == Ok::<int, int>(e));
            assert(binary_rest(toks, m, 6) == binary_rest(toks, e, 6));
        },
    }
}

/// A logical and that is written between two places is read up to the
/// second place, and on where another `&&` follows.
pub proof fn lemma_land(toks: Seq<(Token, Span)>, x: LAndExp, pos: int, e: int)
    requires
        0 <= pos <= e <= toks.len(),
        stream(toks, pos, e) == land_tokens(x),
        free_after(toks, e, 5),
    ensures
        pos < e,
        binary_end(toks, pos, 5) == binary_rest(toks, e, 5),
    decreases e - pos, 15int,
{
    lemma_land_first(x);
    match x {
        LAndExp::EqExp(inner) => {
            lemma_eq(toks, *inner, pos, e);
            assert(binary_rest(toks, e, 4) == Ok::<int, int>(e));
        },
        LAndExp::And(l, r) => {
            lemma_around(toks, pos, e, land_tokens(*l), Token::And, eq_tokens(*r));
            let m = pos + land_tokens(*l).len();
            lemma_land(toks, *l, pos, m);
            lemma_eq(toks, *r, m + 1, e);
            assert(binary_rest(toks, e, 4) == Ok::<int, int>(e));
            assert(binary_rest(toks, m, 5) == binary_rest(toks, e, 5));
        },
    }
}

/// An equality that is written between two places is read up to the second
/// place, and on where another `==` or `!=` follows.
pub proof fn lemma_eq(toks: Seq<(Token, Span)>, x: EqExp, pos: int, e: int)
    requires
        0 <= pos <= e <= toks.len(),
        stream(toks, pos, e) == eq_tokens(x),
        free_after(toks, e, 4),
    ensures
        pos < e,
        binary_end(toks, pos, 4) == binary_rest(toks, e, 4),
    decreases e - pos, 14int,
{
    lemma_eq_first(x);
    match x {
        EqExp::RelExp(inner) => {
            lemma_rel(toks, *inner, pos, e);
            assert(binary_rest(toks, e, 3) == Ok::<int, int>(e));
        },
        EqExp::Eq(l, r) => {
            lemma_around(toks, pos, e, eq_tokens(*l), Token::Eq, rel_tokens(*r));
            let m = pos + eq_tokens(*l).len();
            lemma_eq(toks, *l, pos, m);
            lemma_rel(toks, *r, m + 1, e);
            assert(binary_rest(toks, e, 3) == Ok::<int, int>(e));
            assert(binary_rest(toks, m, 4) == binary_rest(toks, e, 4));
        },
        EqExp::Neq(l, r) => {
            lemma_around(toks, pos, e, eq_tokens(*l), Token::Neq, rel_tokens(*r));
            let m = pos + eq_tokens(*l).len();
            lemma_eq(toks, *l, pos, m);
            lemma_rel(toks, *r, m + 1, e);
            assert(binary_rest(toks, e, 3) == Ok::<int, int>(e));
            assert(binary_rest(toks, m, 4) == binary_rest(toks, e, 4));
        },
    }
}

/// A comparison that is written between two places is read up to the second
/// place, and on where another comparison operator follows.
pub proof fn lemma_rel(toks: Seq<(Token, Span)>, x: RelExp, pos: int, e: int)
    requires
        0 <= pos <= e <= toks.len(),
        stream(toks, pos, e) == rel_tokens(x),
        free_after(toks, e, 3),
    ensures
        pos < e,
        binary_end(toks, pos, 3) == binary_rest(toks, e, 3),
    decreases e - pos, 13int,
{
    lemma_rel_first(x);
    match x {
        RelExp::AddExp(inner) => {
            lemma_add(toks, *inner, pos, e);
            assert(binary_rest(toks, e, 2) == Ok::<int, int>(e));
        },
        RelExp::Lt(l, r) => {
            lemma_around(toks, pos, e, rel_tokens(*l), Token::Lt, add_tokens(*r));
            let m = pos + rel_tokens(*l).len();
            lemma_rel(toks, *l, pos, m);
            lemma_add(toks, *r, m + 1, e);
            assert(binary_rest(toks, e, 2) == Ok::<int, int>(e));
            assert(binary_rest(toks, m, 3) == binary_rest(toks, e, 3));
        },
        RelExp::Gt(l, r) => {
            lemma_around(toks, pos, e, rel_tokens(*l), Token::Gt, add_tokens(*r));
            let m = pos + rel_tokens(*l).len();
            lemma_rel(toks, *l, pos, m);
            lemma_add(toks, *r, m + 1, e);
            assert(binary_rest(toks, e, 2) == Ok::<int, int>(e));
            assert(binary_rest(toks, m, 3) == binary_rest(toks, e, 3));
        },
        RelExp::Le(l, r) => {
            lemma_around(toks, pos, e, rel_tokens(*l), Token::Le, add_tokens(*r));
            let m = pos + rel_tokens(*l).len();
            lemma_rel(toks, *l, pos, m);
            lemma_add(toks, *r, m + 1, e);
            assert(binary_rest(toks, e, 2) == Ok::<int, int>(e));
            assert(binary_rest(toks, m, 3) == binary_rest(toks, e, 3));
        },
        RelExp::Ge(l, r) => {
            lemma_around(toks, pos, e, rel_tokens(*l), Token::Ge, add_tokens(*r));
            let m = pos + rel_tokens(*l).len();
            lemma_rel(toks, *l, pos, m);
            lemma_add(toks, *r, m + 1, e);
            assert(binary_rest(toks, e, 2) == Ok::<int, int>(e));
            assert(binary_rest(toks, m, 3) == binary_rest(toks, e, 3));
        },
    }
}

/// A sum that is written between two places is read up to the second place,
/// and on where another `+` or `-` follows.
pub proof fn lemma_add(toks: Seq<(Token, Span)>, x: AddExp, pos: int, e: int)
    requires
        0 <= pos <= e <= toks.len(),
        stream(toks, pos, e) == add_tokens(x),
        free_after(toks, e, 2),
    ensures
        pos < e,
        binary_end(toks, pos, 2) == binary_rest(toks, e, 2),
    decreases e - pos, 12int,
{
    lemma_add_first(x);
    match x {
        AddExp::MulExp(inner) => {
            lemma_mul(toks, *inner, pos, e);
            assert(binary_rest(toks, e, 1) == Ok::<int, int>(e));
        },
        AddExp::Add(l, r) => {
            lemma_around(toks, pos, e, add_tokens(*l), Token::Add, mul_tokens(*r));
            let m = pos + add_tokens(*l).len();
            lemma_add(toks, *l, pos, m);
            lemma_mul(toks, *r, m + 1, e);
            assert(binary_rest(toks, e, 1) == Ok::<int, int>(e));
            assert(binary_rest(toks, m, 2) == binary_rest(toks, e, 2));
        },
        AddExp::Sub(l, r) => {
            lemma_around(toks, pos, e, add_tokens(*l), Token::Sub, mul_tokens(*r));
            let m = pos + add_tokens(*l).len();
            lemma_add(toks, *l, pos, m);
            lemma_mul(toks, *r, m + 1, e);
            assert(binary_rest(toks, e, 1) == Ok::<int, int>(e));
            assert(binary_rest(toks, m, 2) == binary_rest(toks, e, 2));
        },
    }
}

/// A product that is written between two places is read up to the second
/// place, and on where another `*`, `/` or `%` follows.
pub proof fn lemma_mul(toks: Seq<(Token, Span)>, x: MulExp, pos: int, e: int)
    requires
        0 <= pos <= e <= toks.len(),
        stream(toks, pos, e) == mul_tokens(x),
        free_after(toks, e, 1),
    ensures
        pos < e,
        binary_end(toks, pos, 1) == binary_rest(toks, e, 1),
    decreases e - pos, 11int,
{
    lemma_mul_first(x);
    match x {
        MulExp::UnaryExp(inner) => {
            lemma_unary(toks, *inner, pos, e);
            lemma_level_zero(toks, pos);
        },
        MulExp::Mul(l, r) => {
            lemma_around(toks, pos, e, mul_tokens(*l), Token::Mul, unary_tokens(*r));
            let m = pos + mul_tokens(*l).len();
            lemma_mul(toks, *l, pos, m);
            lemma_unary(toks, *r, m + 1, e);
            lemma_level_zero(toks, m + 1);
            assert(binary_rest(toks, m, 1) == binary_rest(toks, e, 1));
        },
        MulExp::Div(l, r) => {
            lemma_around(toks, pos, e, mul_tokens(*l), Token::Div, unary_tokens(*r));
            let m = pos + mul_tokens(*l).len();
            lemma_mul(toks, *l, pos, m);
            lemma_unary(toks, *r, m + 1, e);
            lemma_level_zero(toks, m + 1);
            assert(binary_rest(toks, m, 1) == binary_rest(toks, e, 1));
        },
        MulExp::Mod(l, r) => {
            lemma_around(toks, pos, e, mul_tokens(*l), Token::Mod, unary_tokens(*r));
            let m = pos + mul_tokens(*l).len();
            lemma_mul(toks, *l, pos, m);
            lemma_unary(toks, *r, m + 1, e);
            lemma_level_zero(toks, m + 1);
            assert(binary_rest(toks, m, 1) == binary_rest(toks, e, 1));
        },
    }
}

/// An expression that is written between two places, with nothing after it
/// that would go on it, ends at the second place.
pub proof fn lemma_exp(toks: Seq<(Token, Span)>, x: Exp, pos: int, e: int)
    requires
        0 <= pos <= e <= toks.len(),
        stream(toks, pos, e) == exp_tokens(x),
        free_after(toks, e, 7),
    ensures
        pos < e,
        exp_end(toks, pos) == Ok::<int, int>(e),
    decreases e - pos, 20int,
{
    match x {
        Exp::LOrExp(inner) => {
            lemma_lor(toks, *inner, pos, e);
            assert(binary_rest(toks, e, 6) == Ok::<int, int>(e));
        },
    }
}

/// A unary expression that is written between two places ends at the second
/// place.
pub proof fn lemma_unary(toks: Seq<(Token, Span)>, x: UnaryExp, pos: int, e: int)
    requires
        0 <= pos <= e <= toks.len(),
        stream(toks, pos, e) == unary_tokens(x),
        free_after(toks, e, 1),
    ensures
        pos < e,
        unary_end(toks, pos) == Ok::<int, int>(e),
    decreases e - pos, 10int,
{
    lemma_unary_first(x);
    match x {
        UnaryExp::PrimaryExp(inner) => {
            lemma_primary(toks, *inner, pos, e);
        },
        UnaryExp::Call(name, args) => {
            lemma_bracketed(
                toks,
                pos,
                e,
                seq![Token::Ident(name)],
                Token::LParen,
                exp_list_tokens(args@),
                Token::RParen,
            );
            lemma_one(toks, pos, pos + 1, Token::Ident(name));
            lemma_args(toks, args@, pos + 2, e - 1);
        },
        UnaryExp::UnaryOp(op, inner) => {
            lemma_head(toks, pos, e, unary_op_token(op), unary_tokens(*inner));
            lemma_unary(toks, *inner, pos + 1, e);
        },
    }
}

/// A primary expression that is written between two places ends at the
/// second place; no call is taken for it.
pub proof fn lemma_primary(toks: Seq<(Token, Span)>, x: PrimaryExp, pos: int, e: int)
    requires
        0 <= pos <= e <= toks.len(),
        stream(toks, pos, e) == primary_tokens(x),
        free_after(toks, e, 1),
    ensures
        pos < e,
        primary_end(toks, pos) == Ok::<int, int>(e),
        at(toks, pos) == Some(Token::LParen) || (at(toks, pos) matches Some(Token::IntConst(_)))
            || ((at(toks, pos) matches Some(Token::Ident(_))) && at(toks, pos + 1) != Some(
            Token::LParen,
        )),
    decreases e - pos, 9int,
{
    match x {
        PrimaryExp::Paren(inner) => {
            lemma_enclosed(
                toks,
                pos,
                e,
                Token::LParen,
                exp_tokens(*inner),
                Token::RParen,
            );
            lemma_exp(toks, *inner, pos + 1, e - 1);
        },
        PrimaryExp::LVal(lval) => {
            lemma_lval(toks, lval, pos, e);
            assert(bracket_rest(toks, e) == Ok::<int, int>(e));
        },
        PrimaryExp::Number(n) => {
            lemma_one(toks, pos, e, Token::IntConst(n));
        },
    }
}

/// A name with its indices that is written between two places is read up
/// to the second place, and on where another index follows.
pub proof fn lemma_lval(toks: Seq<(Token, Span)>, x: LVal, pos: int, e: int)
    requires
        0 <= pos <= e <= toks.len(),
        stream(toks, pos, e) == lval_tokens(x),
    ensures
        pos < e,
        at(toks, pos) == Some(Token::Ident(x.ident)),
        lval_end(toks, pos) == bracket_rest(toks, e),
        e == pos + 1 || at(toks, pos + 1) == Some(Token::LBracket),
    decreases e - pos, 8int,
{
    lemma_head(toks, pos, e, Token::Ident(x.ident), index_list_tokens(x.indices@));
    assert(name_end(toks, pos) == Ok::<int, int>(pos + 1));
    lemma_indices(toks, x.indices@, pos + 1, e);
}

/// Indices that are written between two places are read up to the second
/// place, and on where another index follows.
pub proof fn lemma_indices(toks: Seq<(Token, Span)>, es: Seq<Exp>, pos: int, e: int)
    requires
        0 <= pos <= e <= toks.len(),
        stream(toks, pos, e) == index_list_tokens(es),
    ensures
        bracket_rest(toks, pos) == bracket_rest(toks, e),
        e == pos || at(toks, pos) == Some(Token::LBracket),
    decreases e - pos, 7int,
{
    if es.len() == 0 {
        lemma_none(toks, pos, e);
    } else {
        let before = index_list_tokens(es.drop_last());
        lemma_bracketed(
            toks,
            pos,
            e,
            before,
            Token::LBracket,
            exp_tokens(es.last()),
            Token::RBracket,
        );
        let m = pos + before.len();
        lemma_indices(toks, es.drop_last(), pos, m);
        lemma_exp(toks, es.last(), m + 1, e - 1);
        assert(mark_end(toks, e - 1, Token::RBracket) == Ok::<int, int>(e));
        assert(bracket_rest(toks, m) == bracket_rest(toks, e));
    }
}

/// What the grammar makes of a list of expressions from its first one on.
pub open spec fn exps_from(toks: Seq<(Token, Span)>, pos: int) -> Result<int, int> {
    match exp_end(toks, pos) {
        Err(a) => Err(a),
        Ok(p) => if p > pos {
            list_rest(toks, p, Piece::Exp)
        } else {
            Err(p)
        },
    }
}

/// Expressions with commas between them that are written between two places
/// are read up to the second place, and on where another comma follows.
pub proof fn lemma_exp_list(toks: Seq<(Token, Span)>, es: Seq<Exp>, pos: int, e: int)
    requires
        0 <= pos <= e <= toks.len(),
        es.len() >= 1,
        stream(toks, pos, e) == exp_list_tokens(es),
        free_after(toks, e, 7),
    ensures
        pos < e,
        at(toks, pos) matches Some(t) && starts_exp(t),
        exps_from(toks, pos) == list_rest(toks, e, Piece::Exp),
    decreases e - pos, 21int,
{
    if es.len() == 1 {
        lemma_exp(toks, es[0], pos, e);
        lemma_exp_first(es[0]);
        assert(stream(toks, pos, e)[0] == exp_tokens(es[0])[0]);
    } else {
        let before = exp_list_tokens(es.drop_last());
        lemma_around(toks, pos, e, before, Token::Comma, exp_tokens(es.last()));
        let m = pos + before.len();
        lemma_exp_list(toks, es.drop_last(), pos, m);
        lemma_exp(toks, es.last(), m + 1, e);
        lemma_pieces(toks, m + 1);
        assert(list_rest(toks, m, Piece::Exp) == list_rest(toks, e, Piece::Exp));
    }
}

/// The arguments of a call that are written between two places, with the
/// closing parenthesis after them, end at the second place.
pub proof fn lemma_args(toks: Seq<(Token, Span)>, es: Seq<Exp>, pos: int, e: int)
    requires
        0 <= pos <= e <= toks.len(),
        stream(toks, pos, e) == exp_list_tokens(es),
        at(toks, e) == Some(Token::RParen),
    ensures
        args_end(toks, pos) == Ok::<int, int>(e),
    decreases e - pos, 22int,
{
    if es.len() == 0 {
        lemma_none(toks, pos, e);
    } else {
        lemma_exp_list(toks, es, pos, e);
        assert(list_rest(toks, e, Piece::Exp) == Ok::<int, int>(e));
    }
}

} // verus!
