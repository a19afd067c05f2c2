//! Syntactic analysis: from tokens to the abstract syntax tree, by recursive
//! descent with one function per level of the grammar.

use vstd::prelude::*;
use crate::accepts_unit::lemma_written_is_accepted;
use crate::ast::{
    AddExp, BType, Block, BlockItem, CompUnit, ConstDecl, ConstDef, ConstExp, ConstInitVal, Decl,
    DeclOrFuncDef, EqExp, Exp, FuncDef, FuncFParam, FuncType, InitVal, LAndExp, LOrExp, LVal,
    MulExp, PrimaryExp, RelExp, Stmt, UnaryExp, UnaryOp, VarDecl, VarDef,
};
use crate::syntax::{
    add_tokens, block_nested, block_tokens, comp_unit_canonical, comp_unit_tokens,
    const_def_list_tokens, const_def_tokens, const_exp_tokens, const_init_list_tokens,
    const_init_tokens, decl_listed, decl_tokens, dim_list_tokens, else_tokens, eq_tokens,
    exp_list_tokens, exp_tokens, func_def_tokens, index_list_tokens, init_list_tokens, init_tokens,
    item_list_tokens, item_nested, item_tokens, kinds, land_tokens, lor_tokens, lval_tokens,
    mul_tokens, param_list_tokens, param_shaped, param_tokens, primary_tokens, rel_tokens,
    stmt_closed, stmt_nested, stmt_tokens, stream, unary_tokens, unit_item_canonical,
    unit_item_tokens, var_def_list_tokens, var_def_tokens,
};
use crate::grammar::{
    args_end, assign_or_exp_end, at, binary_end, binary_rest, block_end, bracket_rest,
    const_decl_end, const_def_end, decl_end, error_at, exp_end, exp_stmt_end, func_end, head_end,
    init_end, item_end, items_rest, lemma_level_zero, lemma_pieces, list_rest, lval_end, mark_end,
    name_end, param_end, params_end, primary_end, program_end, return_end, stmt_end, then_mark,
    unary_end, unit_item_end, unit_rest, var_decl_end, var_def_end, Piece, Scan,
};
use crate::token::{Span, Token};

verus! {

broadcast use crate::syntax::lemma_stream_join;

/// Why a sequence of tokens is no program.
#[derive(Debug, PartialEq, Eq)]
pub enum SyntaxError {
    /// A token that cannot stand where it does.
    UnexpectedToken { found: Token, span: Span },
    /// The tokens end inside a construct.
    UnexpectedEnd,
}

/// Whether the error names a token of `toks` with its span.
pub open spec fn error_in(e: SyntaxError, toks: Seq<(Token, Span)>) -> bool {
    match e {
        SyntaxError::UnexpectedToken { found, span } => exists|i: int|
            0 <= i < toks.len() && #[trigger] toks[i] == (found, span),
        SyntaxError::UnexpectedEnd => true,
    }
}

/// The token at `pos`, if there is one.
fn peek<'a>(toks: &'a [(Token, Span)], pos: usize) -> (t: Option<&'a Token>)
    ensures
        match t {
            Some(t) => pos < toks.len() && *t == toks@[pos as int].0 && stream(
                toks@,
                pos as int,
                pos + 1,
            ) == seq![*t] && at(toks@, pos as int) == Some(*t),
            None => pos >= toks.len() && at(toks@, pos as int) is None,
        },
{
    if pos < toks.len() {
        proof {
            assert(stream(toks@, pos as int, pos + 1) =~= seq![toks@[pos as int].0]);
        }
        Some(&toks[pos].0)
    } else {
        None
    }
}

/// The error for what stands at `pos`.
fn unexpected(toks: &[(Token, Span)], pos: usize) -> (e: SyntaxError)
    ensures
        e == error_at(toks@, pos as int),
        error_in(e, toks@),
{
    if pos < toks.len() {
        let found = toks[pos].0.clone();
        let span = toks[pos].1;
        proof {
            assert(toks@[pos as int] == (found, span));
        }
        SyntaxError::UnexpectedToken { found, span }
    } else {
        SyntaxError::UnexpectedEnd
    }
}

/// Steps over the mark `want` at `pos`; fails where another token stands
/// there, or none.
fn expect(toks: &[(Token, Span)], pos: usize, want: &Token) -> (r: Result<usize, SyntaxError>)
    requires
        want.is_mark(),
    ensures
        match r {
            Ok(end) => pos < toks.len() && end == pos + 1 && toks@[pos as int].0 == *want
                && stream(toks@, pos as int, end as int) == seq![*want] && mark_end(
                toks@,
                pos as int,
                *want,
            ) == Ok::<int, int>(end as int),
            Err(e) => error_in(e, toks@) && e == error_at(toks@, pos as int) && mark_end(
                toks@,
                pos as int,
                *want,
            ) == Err::<int, int>(pos as int),
        },
{
    match peek(toks, pos) {
        Some(t) => {
            if t.same_mark(want) {
                Ok(pos + 1)
            } else {
                Err(unexpected(toks, pos))
            }
        },
        None => Err(unexpected(toks, pos)),
    }
}

/// Steps over the identifier at `pos` and returns its name.
fn expect_ident(toks: &[(Token, Span)], pos: usize) -> (r: Result<(String, usize), SyntaxError>)
    ensures
        match r {
            Ok((name, end)) => pos < toks.len() && end == pos + 1 && toks@[pos as int].0
                == Token::Ident(name) && stream(toks@, pos as int, end as int) == seq![
                Token::Ident(name),
            ] && name_end(toks@, pos as int) == Ok::<int, int>(end as int),
            Err(e) => error_in(e, toks@) && e == error_at(toks@, pos as int) && name_end(
                toks@,
                pos as int,
            ) == Err::<int, int>(pos as int),
        },
{
    match peek(toks, pos) {
        Some(Token::Ident(name)) => Ok((name.clone(), pos + 1)),
        _ => Err(unexpected(toks, pos)),
    }
}

/// Whether the outcome `r` of reading is the one that the grammar gives:
/// the end where the grammar says the construct ends, or the error for the
/// token where it says the tokens go wrong.
pub open spec fn scans<T>(toks: Seq<(Token, Span)>, r: Result<(T, usize), SyntaxError>, rule: Scan)
    -> bool {
    match r {
        Ok((_, end)) => rule == Ok::<int, int>(end as int),
        Err(e) => rule is Err && e == error_at(toks, rule->Err_0),
    }
}

/// Whether `r` is the outcome of reading, from `pos` on, something that is
/// written as `written` and ends where `rule` says: it ends at a later
/// place and the tokens between are `written`, or it names an offending
/// token.
pub open spec fn reads<T>(
    toks: Seq<(Token, Span)>,
    pos: int,
    r: Result<(T, usize), SyntaxError>,
    written: spec_fn(T) -> Seq<Token>,
    rule: Scan,
) -> bool {
    &&& scans(toks, r, rule)
    &&& match r {
        Ok((tree, end)) => pos < end <= toks.len() && stream(toks, pos, end as int) == written(
            tree,
        ),
        Err(e) => error_in(e, toks),
    }
}

fn parse_exp(toks: &[(Token, Span)], pos: usize) -> (r: Result<(Exp, usize), SyntaxError>)
    requires
        pos <= toks.len(),
    ensures
        reads(toks@, pos as int, r, |e: Exp| exp_tokens(e), exp_end(toks@, pos as int)),
    decreases toks.len() - pos, 9int,
{
    let (inner, end) = parse_lor(toks, pos)?;
    Ok((Exp::LOrExp(Box::new(inner)), end))
}

fn parse_lor(toks: &[(Token, Span)], pos: usize) -> (r: Result<(LOrExp, usize), SyntaxError>)
    requires
        pos <= toks.len(),
    ensures
        reads(toks@, pos as int, r, |e: LOrExp| lor_tokens(e), binary_end(toks@, pos as int, 6)),
    decreases toks.len() - pos, 8int,
{
    let (first, first_end) = parse_land(toks, pos)?;
    let mut lhs = LOrExp::LAndExp(Box::new(first));
    let mut p = first_end;
    loop
        invariant
            pos < p <= toks.len(),
            stream(toks@, pos as int, p as int) == lor_tokens(lhs),
            binary_end(toks@, pos as int, 6) == binary_rest(toks@, p as int, 6),
        decreases toks.len() - p,
    {
        match peek(toks, p) {
            Some(Token::Or) => {
                let (rhs, end) = parse_land(toks, p + 1)?;
                lhs = LOrExp::Or(Box::new(lhs), Box::new(rhs));
                p = end;
            },
            _ => {
                return Ok((lhs, p));
            },
        }
    }
}

fn parse_land(toks: &[(Token, Span)], pos: usize) -> (r: Result<(LAndExp, usize), SyntaxError>)
    requires
        pos <= toks.len(),
    ensures
        reads(toks@, pos as int, r, |e: LAndExp| land_tokens(e), binary_end(toks@, pos as int, 5)),
    decreases toks.len() - pos, 7int,
{
    let (first, first_end) = parse_eq(toks, pos)?;
    let mut lhs = LAndExp::EqExp(Box::new(first));
    let mut p = first_end;
    loop
        invariant
            pos < p <= toks.len(),
            stream(toks@, pos as int, p as int) == land_tokens(lhs),
            binary_end(toks@, pos as int, 5) == binary_rest(toks@, p as int, 5),
        decreases toks.len() - p,
    {
        match peek(toks, p) {
            Some(Token::And) => {
                let (rhs, end) = parse_eq(toks, p + 1)?;
                lhs = LAndExp::And(Box::new(lhs), Box::new(rhs));
                p = end;
            },
            _ => {
                return Ok((lhs, p));
            },
        }
    }
}

fn parse_eq(toks: &[(Token, Span)], pos: usize) -> (r: Result<(EqExp, usize), SyntaxError>)
    requires
        pos <= toks.len(),
    ensures
        reads(toks@, pos as int, r, |e: EqExp| eq_tokens(e), binary_end(toks@, pos as int, 4)),
    decreases toks.len() - pos, 6int,
{
    let (first, first_end) = parse_rel(toks, pos)?;
    let mut lhs = EqExp::RelExp(Box::new(first));
    let mut p = first_end;
    loop
        invariant
            pos < p <= toks.len(),
            stream(toks@, pos as int, p as int) == eq_tokens(lhs),
            binary_end(toks@, pos as int, 4) == binary_rest(toks@, p as int, 4),
        decreases toks.len() - p,
    {
        match peek(toks, p) {
            Some(Token::Eq) => {
                let (rhs, end) = parse_rel(toks, p + 1)?;
                lhs = EqExp::Eq(Box::new(lhs), Box::new(rhs));
                p = end;
            },
            Some(Token::Neq) => {
                let (rhs, end) = parse_rel(toks, p + 1)?;
                lhs = EqExp::Neq(Box::new(lhs), Box::new(rhs));
                p = end;
            },
            _ => {
                return Ok((lhs, p));
            },
        }
    }
}

fn parse_rel(toks: &[(Token, Span)], pos: usize) -> (r: Result<(RelExp, usize), SyntaxError>)
    requires
        pos <= toks.len(),
    ensures
        reads(toks@, pos as int, r, |e: RelExp| rel_tokens(e), binary_end(toks@, pos as int, 3)),
    decreases toks.len() - pos, 5int,
{
    let (first, first_end) = parse_add(toks, pos)?;
    let mut lhs = RelExp::AddExp(Box::new(first));
    let mut p = first_end;
    loop
        invariant
            pos < p <= toks.len(),
            stream(toks@, pos as int, p as int) == rel_tokens(lhs),
            binary_end(toks@, pos as int, 3) == binary_rest(toks@, p as int, 3),
        decreases toks.len() - p,
    {
        match peek(toks, p) {
            Some(Token::Lt) => {
                let (rhs, end) = parse_add(toks, p + 1)?;
                lhs = RelExp::Lt(Box::new(lhs), Box::new(rhs));
                p = end;
            },
            Some(Token::Gt) => {
                let (rhs, end) = parse_add(toks, p + 1)?;
                lhs = RelExp::Gt(Box::new(lhs), Box::new(rhs));
                p = end;
            },
            Some(Token::Le) => {
                let (rhs, end) = parse_add(toks, p + 1)?;
                lhs = RelExp::Le(Box::new(lhs), Box::new(rhs));
                p = end;
            },
            Some(Token::Ge) => {
                let (rhs, end) = parse_add(toks, p + 1)?;
                lhs = RelExp::Ge(Box::new(lhs), Box::new(rhs));
                p = end;
            },
            _ => {
                return Ok((lhs, p));
            },
        }
    }
}

fn parse_add(toks: &[(Token, Span)], pos: usize) -> (r: Result<(AddExp, usize), SyntaxError>)
    requires
        pos <= toks.len(),
    ensures
        reads(toks@, pos as int, r, |e: AddExp| add_tokens(e), binary_end(toks@, pos as int, 2)),
    decreases toks.len() - pos, 4int,
{
    let (first, first_end) = parse_mul(toks, pos)?;
    let mut lhs = AddExp::MulExp(Box::new(first));
    let mut p = first_end;
    loop
        invariant
            pos < p <= toks.len(),
            stream(toks@, pos as int, p as int) == add_tokens(lhs),
            binary_end(toks@, pos as int, 2) == binary_rest(toks@, p as int, 2),
        decreases toks.len() - p,
    {
        match peek(toks, p) {
            Some(Token::Add) => {
                let (rhs, end) = parse_mul(toks, p + 1)?;
                lhs = AddExp::Add(Box::new(lhs), Box::new(rhs));
                p = end;
            },
            Some(Token::Sub) => {
                let (rhs, end) = parse_mul(toks, p + 1)?;
                lhs = AddExp::Sub(Box::new(lhs), Box::new(rhs));
                p = end;
            },
            _ => {
                return Ok((lhs, p));
            },
        }
    }
}

fn parse_mul(toks: &[(Token, Span)], pos: usize) -> (r: Result<(MulExp, usize), SyntaxError>)
    requires
        pos <= toks.len(),
    ensures
        reads(toks@, pos as int, r, |e: MulExp| mul_tokens(e), binary_end(toks@, pos as int, 1)),
    decreases toks.len() - pos, 3int,
{
    proof {
        lemma_level_zero(toks@, pos as int);
    }
    let (first, first_end) = parse_unary(toks, pos)?;
    let mut lhs = MulExp::UnaryExp(Box::new(first));
    let mut p = first_end;
    loop
        invariant
            pos < p <= toks.len(),
            stream(toks@, pos as int, p as int) == mul_tokens(lhs),
            binary_end(toks@, pos as int, 1) == binary_rest(toks@, p as int, 1),
        decreases toks.len() - p,
    {
        proof {
            lemma_level_zero(toks@, p + 1);
        }
        match peek(toks, p) {
            Some(Token::Mul) => {
                let (rhs, end) = parse_unary(toks, p + 1)?;
                lhs = MulExp::Mul(Box::new(lhs), Box::new(rhs));
                p = end;
            },
            Some(Token::Div) => {
                let (rhs, end) = parse_unary(toks, p + 1)?;
                lhs = MulExp::Div(Box::new(lhs), Box::new(rhs));
                p = end;
            },
            Some(Token::Mod) => {
                let (rhs, end) = parse_unary(toks, p + 1)?;
                lhs = MulExp::Mod(Box::new(lhs), Box::new(rhs));
                p = end;
            },
            _ => {
                return Ok((lhs, p));
            },
        }
    }
}

fn parse_unary(toks: &[(Token, Span)], pos: usize) -> (r: Result<(UnaryExp, usize), SyntaxError>)
    requires
        pos <= toks.len(),
    ensures
        reads(toks@, pos as int, r, |e: UnaryExp| unary_tokens(e), unary_end(toks@, pos as int)),
    decreases toks.len() - pos, 2int,
{
    match peek(toks, pos) {
        Some(Token::Add) => {
            let (inner, end) = parse_unary(toks, pos + 1)?;
            Ok((UnaryExp::UnaryOp(UnaryOp::Add, Box::new(inner)), end))
        },
        Some(Token::Sub) => {
            let (inner, end) = parse_unary(toks, pos + 1)?;
            Ok((UnaryExp::UnaryOp(UnaryOp::Sub, Box::new(inner)), end))
        },
        Some(Token::Not) => {
            let (inner, end) = parse_unary(toks, pos + 1)?;
            Ok((UnaryExp::UnaryOp(UnaryOp::Not, Box::new(inner)), end))
        },
        Some(Token::Ident(name)) => {
            match peek(toks, pos + 1) {
                Some(Token::LParen) => {
                    let (args, after_args) = parse_args(toks, pos + 2)?;
                    let end = expect(toks, after_args, &Token::RParen)?;
                    Ok((UnaryExp::Call(name.clone(), args), end))
                },
                _ => {
                    let (inner, end) = parse_primary(toks, pos)?;
                    Ok((UnaryExp::PrimaryExp(Box::new(inner)), end))
                },
            }
        },
        _ => {
            let (inner, end) = parse_primary(toks, pos)?;
            Ok((UnaryExp::PrimaryExp(Box::new(inner)), end))
        },
    }
}

/// Reads the arguments of a call: expressions with commas between them, up
/// to the closing parenthesis, which it leaves.
fn parse_args(toks: &[(Token, Span)], pos: usize) -> (r: Result<(Vec<Exp>, usize), SyntaxError>)
    requires
        pos <= toks.len(),
    ensures
        scans(toks@, r, args_end(toks@, pos as int)),
        match r {
            Ok((args, end)) => pos <= end <= toks.len() && stream(toks@, pos as int, end as int)
                == exp_list_tokens(args@),
            Err(e) => error_in(e, toks@),
        },
    decreases toks.len() - pos, 10int,
{
    let mut args: Vec<Exp> = Vec::new();
    match peek(toks, pos) {
        Some(Token::RParen) => {
            proof {
                assert(stream(toks@, pos as int, pos as int) =~= Seq::<Token>::empty());
            }
            return Ok((args, pos));
        },
        _ => {},
    }
    let (first, first_end) = parse_exp(toks, pos)?;
    args.push(first);
    let mut p = first_end;
    loop
        invariant
            pos < p <= toks.len(),
            args@.len() >= 1,
            stream(toks@, pos as int, p as int) == exp_list_tokens(args@),
            args_end(toks@, pos as int) == list_rest(toks@, p as int, Piece::Exp),
        decreases toks.len() - p,
    {
        proof {
            lemma_pieces(toks@, p + 1);
        }
        match peek(toks, p) {
            Some(Token::Comma) => {
                let (next, end) = parse_exp(toks, p + 1)?;
                let ghost before = args@;
                args.push(next);
                proof {
                    assert(args@.drop_last() =~= before);
                }
                p = end;
            },
            _ => {
                return Ok((args, p));
            },
        }
    }
}

fn parse_primary(toks: &[(Token, Span)], pos: usize) -> (r: Result<
    (PrimaryExp, usize),
    SyntaxError,
>)
    requires
        pos <= toks.len(),
    ensures
        reads(
            toks@,
            pos as int,
            r,
            |e: PrimaryExp| primary_tokens(e),
            primary_end(toks@, pos as int),
        ),
    decreases toks.len() - pos, 1int,
{
    match peek(toks, pos) {
        Some(Token::LParen) => {
            let (inner, inner_end) = parse_exp(toks, pos + 1)?;
            let end = expect(toks, inner_end, &Token::RParen)?;
            Ok((PrimaryExp::Paren(Box::new(inner)), end))
        },
        Some(Token::IntConst(v)) => Ok((PrimaryExp::Number(*v), pos + 1)),
        Some(Token::Ident(_)) => {
            let (lval, end) = parse_lval(toks, pos)?;
            Ok((PrimaryExp::LVal(lval), end))
        },
        _ => Err(unexpected(toks, pos)),
    }
}

fn parse_lval(toks: &[(Token, Span)], pos: usize) -> (r: Result<(LVal, usize), SyntaxError>)
    requires
        pos <= toks.len(),
    ensures
        reads(toks@, pos as int, r, |v: LVal| lval_tokens(v), lval_end(toks@, pos as int)),
    decreases toks.len() - pos, 0int,
{
    let (ident, after_name) = expect_ident(toks, pos)?;
    let mut indices: Vec<Exp> = Vec::new();
    let mut p = after_name;
    proof {
        assert(stream(toks@, p as int, p as int) =~= Seq::<Token>::empty());
    }
    loop
        invariant
            after_name == pos + 1,
            after_name <= p <= toks.len(),
            stream(toks@, after_name as int, p as int) == index_list_tokens(indices@),
            stream(toks@, pos as int, after_name as int) == seq![Token::Ident(ident)],
            lval_end(toks@, pos as int) == bracket_rest(toks@, p as int),
        decreases toks.len() - p,
    {
        match peek(toks, p) {
            Some(Token::LBracket) => {
                let (index, index_end) = parse_exp(toks, p + 1)?;
                let end = expect(toks, index_end, &Token::RBracket)?;
                let ghost before = indices@;
                indices.push(index);
                proof {
                    assert(indices@.drop_last() =~= before);
                }
                p = end;
            },
            _ => {
                return Ok((LVal { ident, indices }, p));
            },
        }
    }
}

fn parse_const_exp(toks: &[(Token, Span)], pos: usize) -> (r: Result<
    (ConstExp, usize),
    SyntaxError,
>)
    requires
        pos <= toks.len(),
    ensures
        reads(toks@, pos as int, r, |e: ConstExp| const_exp_tokens(e), exp_end(toks@, pos as int)),
{
    let (inner, end) = parse_exp(toks, pos)?;
    Ok((ConstExp::Exp(Box::new(inner)), end))
}

/// Reads the dimensions after a name: constant expressions, each in square
/// brackets, as many as there are.
fn parse_dims(toks: &[(Token, Span)], pos: usize) -> (r: Result<
    (Vec<ConstExp>, usize),
    SyntaxError,
>)
    requires
        pos <= toks.len(),
    ensures
        scans(toks@, r, bracket_rest(toks@, pos as int)),
        match r {
            Ok((dims, end)) => pos <= end <= toks.len() && stream(toks@, pos as int, end as int)
                == dim_list_tokens(dims@),
            Err(e) => error_in(e, toks@),
        },
{
    let mut dims: Vec<ConstExp> = Vec::new();
    let mut p = pos;
    proof {
        assert(stream(toks@, pos as int, pos as int) =~= Seq::<Token>::empty());
    }
    loop
        invariant
            pos <= p <= toks.len(),
            stream(toks@, pos as int, p as int) == dim_list_tokens(dims@),
            bracket_rest(toks@, pos as int) == bracket_rest(toks@, p as int),
        decreases toks.len() - p,
    {
        match peek(toks, p) {
            Some(Token::LBracket) => {
                let (dim, dim_end) = parse_const_exp(toks, p + 1)?;
                let end = expect(toks, dim_end, &Token::RBracket)?;
                let ghost before = dims@;
                dims.push(dim);
                proof {
                    assert(dims@.drop_last() =~= before);
                }
                p = end;
            },
            _ => {
                return Ok((dims, p));
            },
        }
    }
}

fn parse_const_init(toks: &[(Token, Span)], pos: usize) -> (r: Result<
    (ConstInitVal, usize),
    SyntaxError,
>)
    requires
        pos <= toks.len(),
    ensures
        reads(
            toks@,
            pos as int,
            r,
            |v: ConstInitVal| const_init_tokens(v),
            init_end(toks@, pos as int),
        ),
    decreases toks.len() - pos,
{
    match peek(toks, pos) {
        Some(Token::LBrace) => {
            let mut items: Vec<ConstInitVal> = Vec::new();
            match peek(toks, pos + 1) {
                Some(Token::RBrace) => {
                    proof {
                        assert(stream(toks@, pos + 1, pos + 1) =~= Seq::<Token>::empty());
                    }
                    return Ok((ConstInitVal::Array(items), pos + 2));
                },
                _ => {},
            }
            let (first, first_end) = parse_const_init(toks, pos + 1)?;
            items.push(first);
            let mut p = first_end;
            loop
                invariant
                    pos + 1 < p <= toks.len(),
                    items@.len() >= 1,
                    stream(toks@, pos as int, pos + 1) == seq![Token::LBrace],
                    stream(toks@, pos + 1, p as int) == const_init_list_tokens(items@),
                    init_end(toks@, pos as int) == then_mark(
                        toks@,
                        list_rest(toks@, p as int, Piece::Init),
                        Token::RBrace,
                    ),
                decreases toks.len() - p,
            {
                proof {
                    lemma_pieces(toks@, p + 1);
                }
                match peek(toks, p) {
                    Some(Token::Comma) => {
                        let (next, end) = parse_const_init(toks, p + 1)?;
                        let ghost before = items@;
                        items.push(next);
                        proof {
                            assert(items@.drop_last() =~= before);
                        }
                        p = end;
                    },
                    _ => {
                        let end = expect(toks, p, &Token::RBrace)?;
                        return Ok((ConstInitVal::Array(items), end));
                    },
                }
            }
        },
        _ => {
            let (e, end) = parse_const_exp(toks, pos)?;
            Ok((ConstInitVal::Exp(Box::new(e)), end))
        },
    }
}

fn parse_init(toks: &[(Token, Span)], pos: usize) -> (r: Result<(InitVal, usize), SyntaxError>)
    requires
        pos <= toks.len(),
    ensures
        reads(toks@, pos as int, r, |v: InitVal| init_tokens(v), init_end(toks@, pos as int)),
    decreases toks.len() - pos,
{
    match peek(toks, pos) {
        Some(Token::LBrace) => {
            let mut items: Vec<InitVal> = Vec::new();
            match peek(toks, pos + 1) {
                Some(Token::RBrace) => {
                    proof {
                        assert(stream(toks@, pos + 1, pos + 1) =~= Seq::<Token>::empty());
                    }
                    return Ok((InitVal::Array(items), pos + 2));
                },
                _ => {},
            }
            let (first, first_end) = parse_init(toks, pos + 1)?;
            items.push(first);
            let mut p = first_end;
            loop
                invariant
                    pos + 1 < p <= toks.len(),
                    items@.len() >= 1,
                    stream(toks@, pos as int, pos + 1) == seq![Token::LBrace],
                    stream(toks@, pos + 1, p as int) == init_list_tokens(items@),
                    init_end(toks@, pos as int) == then_mark(
                        toks@,
                        list_rest(toks@, p as int, Piece::Init),
                        Token::RBrace,
                    ),
                decreases toks.len() - p,
            {
                proof {
                    lemma_pieces(toks@, p + 1);
                }
                match peek(toks, p) {
                    Some(Token::Comma) => {
                        let (next, end) = parse_init(toks, p + 1)?;
                        let ghost before = items@;
                        items.push(next);
                        proof {
                            assert(items@.drop_last() =~= before);
                        }
                        p = end;
                    },
                    _ => {
                        let end = expect(toks, p, &Token::RBrace)?;
                        return Ok((InitVal::Array(items), end));
                    },
                }
            }
        },
        _ => {
            let (e, end) = parse_exp(toks, pos)?;
            Ok((InitVal::Exp(Box::new(e)), end))
        },
    }
}

fn parse_const_def(toks: &[(Token, Span)], pos: usize) -> (r: Result<
    (ConstDef, usize),
    SyntaxError,
>)
    requires
        pos <= toks.len(),
    ensures
        reads(
            toks@,
            pos as int,
            r,
            |d: ConstDef| const_def_tokens(d),
            const_def_end(toks@, pos as int),
        ),
{
    let (ident, after_name) = expect_ident(toks, pos)?;
    let (dimensions, after_dims) = parse_dims(toks, after_name)?;
    let after_assign = expect(toks, after_dims, &Token::Assign)?;
    let (init_val, end) = parse_const_init(toks, after_assign)?;
    Ok((ConstDef { ident, dimensions, init_val }, end))
}

fn parse_var_def(toks: &[(Token, Span)], pos: usize) -> (r: Result<(VarDef, usize), SyntaxError>)
    requires
        pos <= toks.len(),
    ensures
        reads(toks@, pos as int, r, |d: VarDef| var_def_tokens(d), var_def_end(toks@, pos as int)),
{
    let (ident, after_name) = expect_ident(toks, pos)?;
    let (dimensions, after_dims) = parse_dims(toks, after_name)?;
    match peek(toks, after_dims) {
        Some(Token::Assign) => {
            let (init, end) = parse_init(toks, after_dims + 1)?;
            Ok((VarDef::Init(ident, dimensions, init), end))
        },
        _ => Ok((VarDef::Uninit(ident, dimensions), after_dims)),
    }
}

fn parse_const_decl(toks: &[(Token, Span)], pos: usize) -> (r: Result<
    (ConstDecl, usize),
    SyntaxError,
>)
    requires
        pos <= toks.len(),
    ensures
        reads(
            toks@,
            pos as int,
            r,
            |c: ConstDecl| decl_tokens(Decl::ConstDecl(Box::new(c))),
            const_decl_end(toks@, pos as int),
        ),
        r matches Ok((c, _)) ==> c.const_defs@.len() >= 1,
{
    let after_const = expect(toks, pos, &Token::Const)?;
    let after_type = expect(toks, after_const, &Token::Int)?;
    proof {
        lemma_pieces(toks@, after_type as int);
    }
    let (first, first_end) = parse_const_def(toks, after_type)?;
    let mut const_defs: Vec<ConstDef> = Vec::new();
    const_defs.push(first);
    let mut p = first_end;
    loop
        invariant
            after_type == pos + 2,
            after_type < p <= toks.len(),
            const_defs@.len() >= 1,
            stream(toks@, pos as int, pos + 2) == seq![Token::Const] + seq![Token::Int],
            stream(toks@, after_type as int, p as int) == const_def_list_tokens(const_defs@),
            const_decl_end(toks@, pos as int) == then_mark(
                toks@,
                list_rest(toks@, p as int, Piece::ConstDef),
                Token::SemiColon,
            ),
        decreases toks.len() - p,
    {
        proof {
            lemma_pieces(toks@, p + 1);
        }
        match peek(toks, p) {
            Some(Token::Comma) => {
                let (next, end) = parse_const_def(toks, p + 1)?;
                let ghost before = const_defs@;
                const_defs.push(next);
                proof {
                    assert(const_defs@.drop_last() =~= before);
                }
                p = end;
            },
            _ => {
                let end = expect(toks, p, &Token::SemiColon)?;
                return Ok((ConstDecl { btype: BType::Int, const_defs }, end));
            },
        }
    }
}

fn parse_var_decl(toks: &[(Token, Span)], pos: usize) -> (r: Result<
    (VarDecl, usize),
    SyntaxError,
>)
    requires
        pos <= toks.len(),
    ensures
        reads(
            toks@,
            pos as int,
            r,
            |v: VarDecl| decl_tokens(Decl::VarDecl(Box::new(v))),
            var_decl_end(toks@, pos as int),
        ),
        r matches Ok((v, _)) ==> v.var_defs@.len() >= 1,
{
    let after_type = expect(toks, pos, &Token::Int)?;
    proof {
        lemma_pieces(toks@, after_type as int);
    }
    let (first, first_end) = parse_var_def(toks, after_type)?;
    let mut var_defs: Vec<VarDef> = Vec::new();
    var_defs.push(first);
    let mut p = first_end;
    loop
        invariant
            after_type == pos + 1,
            after_type < p <= toks.len(),
            var_defs@.len() >= 1,
            stream(toks@, pos as int, pos + 1) == seq![Token::Int],
            stream(toks@, after_type as int, p as int) == var_def_list_tokens(var_defs@),
            var_decl_end(toks@, pos as int) == then_mark(
                toks@,
                list_rest(toks@, p as int, Piece::VarDef),
                Token::SemiColon,
            ),
        decreases toks.len() - p,
    {
        proof {
            lemma_pieces(toks@, p + 1);
        }
        match peek(toks, p) {
            Some(Token::Comma) => {
                let (next, end) = parse_var_def(toks, p + 1)?;
                let ghost before = var_defs@;
                var_defs.push(next);
                proof {
                    assert(var_defs@.drop_last() =~= before);
                }
                p = end;
            },
            _ => {
                let end = expect(toks, p, &Token::SemiColon)?;
                return Ok((VarDecl { btype: BType::Int, var_defs }, end));
            },
        }
    }
}

fn parse_decl(toks: &[(Token, Span)], pos: usize) -> (r: Result<(Decl, usize), SyntaxError>)
    requires
        pos <= toks.len(),
    ensures
        reads(toks@, pos as int, r, |d: Decl| decl_tokens(d), decl_end(toks@, pos as int)),
        r matches Ok((d, _)) ==> decl_listed(d),
{
    match peek(toks, pos) {
        Some(Token::Const) => {
            let (c, end) = parse_const_decl(toks, pos)?;
            Ok((Decl::ConstDecl(Box::new(c)), end))
        },
        _ => {
            let (v, end) = parse_var_decl(toks, pos)?;
            Ok((Decl::VarDecl(Box::new(v)), end))
        },
    }
}

/// Whether the statement that ends at `end` is one that a following `else`
/// could still join: then no `else` follows.
pub open spec fn else_taken(toks: Seq<(Token, Span)>, s: Stmt, end: int) -> bool {
    !stmt_closed(s) ==> !(end < toks.len() && toks[end].0 == Token::Else)
}

/// Reads an expression statement.
fn parse_exp_stmt(toks: &[(Token, Span)], pos: usize) -> (r: Result<(Stmt, usize), SyntaxError>)
    requires
        pos <= toks.len(),
    ensures
        reads(toks@, pos as int, r, |s: Stmt| stmt_tokens(s), exp_stmt_end(toks@, pos as int)),
        r matches Ok((s, end)) ==> stmt_nested(s) && stmt_closed(s),
{
    let (e, after_exp) = parse_exp(toks, pos)?;
    let end = expect(toks, after_exp, &Token::SemiColon)?;
    Ok((Stmt::Exp(Some(e)), end))
}

/// Reads `return;` or `return` with a value.
fn parse_return(toks: &[(Token, Span)], pos: usize) -> (r: Result<(Stmt, usize), SyntaxError>)
    requires
        pos <= toks.len(),
    ensures
        reads(toks@, pos as int, r, |s: Stmt| stmt_tokens(s), return_end(toks@, pos as int)),
        r matches Ok((s, end)) ==> stmt_nested(s) && stmt_closed(s),
{
    let after_word = expect(toks, pos, &Token::Return)?;
    match peek(toks, after_word) {
        Some(Token::SemiColon) => {
            proof {
                assert(stream(toks@, after_word as int, after_word as int) =~= Seq::<
                    Token,
                >::empty());
            }
            Ok((Stmt::Return(None), after_word + 1))
        },
        _ => {
            let (e, after_exp) = parse_exp(toks, after_word)?;
            let end = expect(toks, after_exp, &Token::SemiColon)?;
            Ok((Stmt::Return(Some(e)), end))
        },
    }
}

/// Reads an assignment, or else an expression statement: what starts with
/// a name is an assignment where `=` follows its left side.
fn parse_assign_or_exp(toks: &[(Token, Span)], pos: usize) -> (r: Result<
    (Stmt, usize),
    SyntaxError,
>)
    requires
        pos <= toks.len(),
    ensures
        reads(
            toks@,
            pos as int,
            r,
            |s: Stmt| stmt_tokens(s),
            assign_or_exp_end(toks@, pos as int),
        ),
        r matches Ok((s, end)) ==> stmt_nested(s) && stmt_closed(s),
{
    match parse_lval(toks, pos) {
        Ok((lval, after_lval)) => {
            match peek(toks, after_lval) {
                Some(Token::Assign) => {
                    let (e, after_exp) = parse_exp(toks, after_lval + 1)?;
                    let end = expect(toks, after_exp, &Token::SemiColon)?;
                    return Ok((Stmt::Assign(lval, e), end));
                },
                _ => {},
            }
        },
        Err(_) => {},
    }
    parse_exp_stmt(toks, pos)
}

/// Reads the head of an `if` or a `while`: the keyword and the condition in
/// parentheses.
fn parse_head(toks: &[(Token, Span)], pos: usize, word: &Token) -> (r: Result<
    (Exp, usize),
    SyntaxError,
>)
    requires
        pos <= toks.len(),
        word.is_mark(),
    ensures
        reads(
            toks@,
            pos as int,
            r,
            |c: Exp| seq![*word] + seq![Token::LParen] + exp_tokens(c) + seq![Token::RParen],
            head_end(toks@, pos as int, *word),
        ),
{
    let after_word = expect(toks, pos, word)?;
    let after_open = expect(toks, after_word, &Token::LParen)?;
    let (cond, after_cond) = parse_exp(toks, after_open)?;
    let end = expect(toks, after_cond, &Token::RParen)?;
    Ok((cond, end))
}

/// Reads an `if` with its branches. An `else` that follows the first branch
/// belongs to this `if`, unless an `if` inside that branch has taken it.
fn parse_if(toks: &[(Token, Span)], pos: usize) -> (r: Result<(Stmt, usize), SyntaxError>)
    requires
        pos <= toks.len(),
        at(toks@, pos as int) == Some(Token::If),
    ensures
        reads(toks@, pos as int, r, |s: Stmt| stmt_tokens(s), stmt_end(toks@, pos as int)),
        r matches Ok((s, end)) ==> stmt_nested(s) && else_taken(toks@, s, end as int),
    decreases toks.len() - pos, 1int,
{
    let (cond, after_head) = parse_head(toks, pos, &Token::If)?;
    let (then, then_end) = parse_stmt(toks, after_head)?;
    match peek(toks, then_end) {
        Some(Token::Else) => {
            let (other, end) = parse_stmt(toks, then_end + 1)?;
            proof {
                let head = stream(toks@, pos as int, after_head as int);
                let tail = stream(toks@, then_end as int, end as int);
                assert(stmt_closed(then));
                assert(tail == else_tokens(Some(Box::new(other))));
                assert(stream(toks@, pos as int, then_end as int) == head + stmt_tokens(then));
                assert(stream(toks@, pos as int, end as int) == head + stmt_tokens(then) + tail);
            }
            Ok((Stmt::If(cond, Box::new(then), Some(Box::new(other))), end))
        },
        _ => {
            proof {
                let head = stream(toks@, pos as int, after_head as int);
                let tail = stream(toks@, then_end as int, then_end as int);
                assert(tail =~= Seq::<Token>::empty());
                assert(tail == else_tokens(None));
                assert(stream(toks@, pos as int, then_end as int) == head + stmt_tokens(then));
                assert(stream(toks@, pos as int, then_end as int) == head + stmt_tokens(then)
                    + tail);
            }
            Ok((Stmt::If(cond, Box::new(then), None), then_end))
        },
    }
}

fn parse_while(toks: &[(Token, Span)], pos: usize) -> (r: Result<(Stmt, usize), SyntaxError>)
    requires
        pos <= toks.len(),
        at(toks@, pos as int) == Some(Token::While),
    ensures
        reads(toks@, pos as int, r, |s: Stmt| stmt_tokens(s), stmt_end(toks@, pos as int)),
        r matches Ok((s, end)) ==> stmt_nested(s) && else_taken(toks@, s, end as int),
    decreases toks.len() - pos, 1int,
{
    let (cond, after_head) = parse_head(toks, pos, &Token::While)?;
    let (body, end) = parse_stmt(toks, after_head)?;
    Ok((Stmt::While(cond, Box::new(body)), end))
}

/// Reads `break;` or `continue;`.
fn parse_jump(toks: &[(Token, Span)], pos: usize) -> (r: Result<(Stmt, usize), SyntaxError>)
    requires
        pos <= toks.len(),
        at(toks@, pos as int) == Some(Token::Break) || at(toks@, pos as int) == Some(
            Token::Continue,
        ),
    ensures
        reads(toks@, pos as int, r, |s: Stmt| stmt_tokens(s), stmt_end(toks@, pos as int)),
        r matches Ok((s, end)) ==> stmt_nested(s) && stmt_closed(s),
{
    match peek(toks, pos) {
        Some(Token::Break) => {
            let end = expect(toks, pos + 1, &Token::SemiColon)?;
            Ok((Stmt::Break, end))
        },
        _ => {
            let end = expect(toks, pos + 1, &Token::SemiColon)?;
            Ok((Stmt::Continue, end))
        },
    }
}

fn parse_stmt(toks: &[(Token, Span)], pos: usize) -> (r: Result<(Stmt, usize), SyntaxError>)
    requires
        pos <= toks.len(),
    ensures
        reads(toks@, pos as int, r, |s: Stmt| stmt_tokens(s), stmt_end(toks@, pos as int)),
        r matches Ok((s, end)) ==> stmt_nested(s) && else_taken(toks@, s, end as int),
    decreases toks.len() - pos, 2int,
{
    match peek(toks, pos) {
        Some(Token::SemiColon) => {
            proof {
                assert(stream(toks@, pos as int, pos as int) =~= Seq::<Token>::empty());
            }
            Ok((Stmt::Exp(None), pos + 1))
        },
        Some(Token::LBrace) => {
            let (block, end) = parse_block(toks, pos)?;
            Ok((Stmt::Block(block), end))
        },
        Some(Token::If) => parse_if(toks, pos),
        Some(Token::While) => parse_while(toks, pos),
        Some(Token::Break) | Some(Token::Continue) => parse_jump(toks, pos),
        Some(Token::Return) => parse_return(toks, pos),
        Some(Token::Ident(_)) => parse_assign_or_exp(toks, pos),
        _ => parse_exp_stmt(toks, pos),
    }
}

fn parse_item(toks: &[(Token, Span)], pos: usize) -> (r: Result<(BlockItem, usize), SyntaxError>)
    requires
        pos <= toks.len(),
    ensures
        reads(toks@, pos as int, r, |item: BlockItem| item_tokens(item), item_end(toks@, pos as int)),
        r matches Ok((item, _)) ==> item_nested(item),
    decreases toks.len() - pos, 3int,
{
    match peek(toks, pos) {
        Some(Token::Const) | Some(Token::Int) => {
            let (decl, end) = parse_decl(toks, pos)?;
            Ok((BlockItem::Decl(Box::new(decl)), end))
        },
        _ => {
            let (stmt, end) = parse_stmt(toks, pos)?;
            Ok((BlockItem::Stmt(Box::new(stmt)), end))
        },
    }
}

fn parse_block(toks: &[(Token, Span)], pos: usize) -> (r: Result<(Block, usize), SyntaxError>)
    requires
        pos <= toks.len(),
    ensures
        reads(toks@, pos as int, r, |b: Block| block_tokens(b), block_end(toks@, pos as int)),
        r matches Ok((b, _)) ==> block_nested(b),
    decreases toks.len() - pos, 1int,
{
    let after_open = expect(toks, pos, &Token::LBrace)?;
    let mut items: Vec<BlockItem> = Vec::new();
    let mut p = after_open;
    proof {
        assert(stream(toks@, p as int, p as int) =~= Seq::<Token>::empty());
    }
    loop
        invariant
            after_open == pos + 1,
            after_open <= p <= toks.len(),
            stream(toks@, pos as int, after_open as int) == seq![Token::LBrace],
            stream(toks@, after_open as int, p as int) == item_list_tokens(items@),
            block_end(toks@, pos as int) == items_rest(toks@, p as int),
            forall|i: int| 0 <= i < items@.len() ==> item_nested(#[trigger] items@[i]),
        decreases toks.len() - p,
    {
        match peek(toks, p) {
            Some(Token::RBrace) => {
                return Ok((Block { items }, p + 1));
            },
            None => {
                return Err(unexpected(toks, p));
            },
            _ => {},
        }
        let ghost before = items@;
        let (item, end) = parse_item(toks, p)?;
        items.push(item);
        proof {
            assert(items@.drop_last() =~= before);
        }
        p = end;
    }
}

fn parse_param(toks: &[(Token, Span)], pos: usize) -> (r: Result<
    (FuncFParam, usize),
    SyntaxError,
>)
    requires
        pos <= toks.len(),
    ensures
        reads(
            toks@,
            pos as int,
            r,
            |p: FuncFParam| param_tokens(p),
            param_end(toks@, pos as int),
        ),
        r matches Ok((p, _)) ==> param_shaped(p),
{
    let after_type = expect(toks, pos, &Token::Int)?;
    let (ident, after_name) = expect_ident(toks, after_type)?;
    match peek(toks, after_name) {
        Some(Token::LBracket) => {
            let after_close = expect(toks, after_name + 1, &Token::RBracket)?;
            let (dimensions, end) = parse_dims(toks, after_close)?;
            Ok((FuncFParam { btype: BType::Int, ident, is_array: true, dimensions }, end))
        },
        _ => Ok(
            (
                FuncFParam { btype: BType::Int, ident, is_array: false, dimensions: Vec::new() },
                after_name,
            ),
        ),
    }
}

/// Reads the parameters of a function: with commas between them, up to the
/// closing parenthesis, which it leaves.
fn parse_params(toks: &[(Token, Span)], pos: usize) -> (r: Result<
    (Vec<FuncFParam>, usize),
    SyntaxError,
>)
    requires
        pos <= toks.len(),
    ensures
        scans(toks@, r, params_end(toks@, pos as int)),
        match r {
            Ok((params, end)) => {
                &&& pos <= end <= toks.len()
                &&& stream(toks@, pos as int, end as int) == param_list_tokens(params@)
                &&& forall|i: int| 0 <= i < params@.len() ==> param_shaped(#[trigger] params@[i])
            },
            Err(e) => error_in(e, toks@),
        },
{
    let mut params: Vec<FuncFParam> = Vec::new();
    match peek(toks, pos) {
        Some(Token::RParen) => {
            proof {
                assert(stream(toks@, pos as int, pos as int) =~= Seq::<Token>::empty());
            }
            return Ok((params, pos));
        },
        _ => {},
    }
    let (first, first_end) = parse_param(toks, pos)?;
    params.push(first);
    let mut p = first_end;
    loop
        invariant
            pos < p <= toks.len(),
            params@.len() >= 1,
            stream(toks@, pos as int, p as int) == param_list_tokens(params@),
            params_end(toks@, pos as int) == list_rest(toks@, p as int, Piece::Param),
            forall|i: int| 0 <= i < params@.len() ==> param_shaped(#[trigger] params@[i]),
        decreases toks.len() - p,
    {
        proof {
            lemma_pieces(toks@, p + 1);
        }
        match peek(toks, p) {
            Some(Token::Comma) => {
                let (next, end) = parse_param(toks, p + 1)?;
                let ghost before = params@;
                params.push(next);
                proof {
                    assert(params@.drop_last() =~= before);
                }
                p = end;
            },
            _ => {
                return Ok((params, p));
            },
        }
    }
}

fn parse_func_def(toks: &[(Token, Span)], pos: usize) -> (r: Result<
    (FuncDef, usize),
    SyntaxError,
>)
    requires
        pos <= toks.len(),
    ensures
        reads(toks@, pos as int, r, |f: FuncDef| func_def_tokens(f), func_end(toks@, pos as int)),
        r matches Ok((f, _)) ==> unit_item_canonical(DeclOrFuncDef::FuncDef(Box::new(f))),
{
    let func_type = match peek(toks, pos) {
        Some(Token::Void) => FuncType::Void,
        Some(Token::Int) => FuncType::Int,
        _ => {
            return Err(unexpected(toks, pos));
        },
    };
    let (ident, after_name) = expect_ident(toks, pos + 1)?;
    let after_open = expect(toks, after_name, &Token::LParen)?;
    let (params, after_params) = parse_params(toks, after_open)?;
    let after_close = expect(toks, after_params, &Token::RParen)?;
    let (block, end) = parse_block(toks, after_close)?;
    Ok((FuncDef { func_type, ident, params, block }, end))
}

/// Reads one item of the top level. What starts with `void`, or with `int`,
/// a name and an opening parenthesis, is a function; the rest is a
/// declaration.
fn parse_unit_item(toks: &[(Token, Span)], pos: usize) -> (r: Result<
    (DeclOrFuncDef, usize),
    SyntaxError,
>)
    requires
        pos <= toks.len(),
    ensures
        reads(
            toks@,
            pos as int,
            r,
            |item: DeclOrFuncDef| unit_item_tokens(item),
            unit_item_end(toks@, pos as int),
        ),
        r matches Ok((item, _)) ==> unit_item_canonical(item),
{
    let is_func = match peek(toks, pos) {
        Some(Token::Void) => true,
        Some(Token::Int) => match peek(toks, pos + 1) {
            Some(Token::Ident(_)) => match peek(toks, pos + 2) {
                Some(Token::LParen) => true,
                _ => false,
            },
            _ => false,
        },
        _ => false,
    };
    if is_func {
        let (f, end) = parse_func_def(toks, pos)?;
        Ok((DeclOrFuncDef::FuncDef(Box::new(f)), end))
    } else {
        let (d, end) = parse_decl(toks, pos)?;
        Ok((DeclOrFuncDef::Decl(Box::new(d)), end))
    }
}

/// Reads a whole program: one top-level item after the other, at least one.
fn parse_program(toks: &[(Token, Span)]) -> (r: Result<CompUnit, SyntaxError>)
    ensures
        match r {
            Ok(unit) => {
                &&& program_end(toks@) == Ok::<int, int>(toks@.len() as int)
                &&& comp_unit_tokens(unit) == kinds(toks@)
                &&& comp_unit_canonical(unit)
            },
            Err(e) => {
                &&& program_end(toks@) is Err
                &&& e == error_at(toks@, program_end(toks@)->Err_0)
                &&& error_in(e, toks@)
            },
        },
{
    let (first, first_end) = parse_unit_item(toks, 0)?;
    let mut unit = CompUnit { prev_unit: None, cur_unit: first };
    let mut p = first_end;
    while p < toks.len()
        invariant
            0 < p <= toks.len(),
            stream(toks@, 0, p as int) == comp_unit_tokens(unit),
            comp_unit_canonical(unit),
            program_end(toks@) == unit_rest(toks@, p as int),
        decreases toks.len() - p,
    {
        let (item, end) = parse_unit_item(toks, p)?;
        unit = CompUnit { prev_unit: Some(Box::new(unit)), cur_unit: item };
        p = end;
    }
    proof {
        assert(stream(toks@, 0, p as int) =~= kinds(toks@));
    }
    Ok(unit)
}

/// Whether `unit` is a tree that is written with the tokens, and the one
/// among such trees that the grammar means.
pub open spec fn written_as(toks: Seq<(Token, Span)>, unit: CompUnit) -> bool {
    comp_unit_tokens(unit) == kinds(toks) && comp_unit_canonical(unit)
}

/// Reads a whole program: one top-level item after the other, at least one.
///
/// It succeeds exactly where the tokens are those that some tree is written
/// with, each `else` of the tree with the nearest `if` and each declaration
/// with at least one name; what comes back is then such a tree. Otherwise
/// the error is the one for the token at which the grammar says that the
/// tokens go wrong: it names that token, or says that the tokens end too
/// early.
pub fn parse(toks: &[(Token, Span)]) -> (r: Result<CompUnit, SyntaxError>)
    ensures
        r is Ok <==> exists|unit: CompUnit| written_as(toks@, unit),
        match r {
            Ok(unit) => written_as(toks@, unit) && program_end(toks@) == Ok::<int, int>(
                toks@.len() as int,
            ),
            Err(e) => {
                &&& program_end(toks@) is Err
                &&& e == error_at(toks@, program_end(toks@)->Err_0)
                &&& error_in(e, toks@)
            },
        },
{
    let r = parse_program(toks);
    proof {
        if r is Ok {
            assert(written_as(toks@, r->Ok_0));
        } else {
            assert forall|unit: CompUnit| !written_as(toks@, unit) by {
                if written_as(toks@, unit) {
                    lemma_written_is_accepted(toks@, unit);
                }
            }
        }
    }
    r
}

} // verus!
