//! Concrete syntax: the tokens that write each tree of the abstract syntax.
//!
//! The precedence of the operators is in the types of the tree, so a tree is
//! written without any parentheses but those that it holds as nodes.

use vstd::prelude::*;
use crate::ast::{
    AddExp, Block, BlockItem, CompUnit, ConstDecl, ConstDef, ConstExp, ConstInitVal, Decl,
    DeclOrFuncDef, EqExp, Exp, FuncDef, FuncFParam, FuncType, InitVal, LAndExp, LOrExp, LVal,
    MulExp, PrimaryExp, RelExp, Stmt, UnaryExp, UnaryOp, VarDecl, VarDef,
};
use crate::token::{Span, Token};

verus! {

/// The token of a unary operator.
pub open spec fn unary_op_token(op: UnaryOp) -> Token {
    match op {
        UnaryOp::Add => Token::Add,
        UnaryOp::Sub => Token::Sub,
        UnaryOp::Not => Token::Not,
    }
}

pub open spec fn exp_tokens(e: Exp) -> Seq<Token>
    decreases e,
{
    match e {
        Exp::LOrExp(inner) => lor_tokens(*inner),
    }
}

pub open spec fn lor_tokens(e: LOrExp) -> Seq<Token>
    decreases e,
{
    match e {
        LOrExp::LAndExp(inner) => land_tokens(*inner),
        LOrExp::Or(l, r) => lor_tokens(*l) + seq![Token::Or] + land_tokens(*r),
    }
}

pub open spec fn land_tokens(e: LAndExp) -> Seq<Token>
    decreases e,
{
    match e {
        LAndExp::EqExp(inner) => eq_tokens(*inner),
        LAndExp::And(l, r) => land_tokens(*l) + seq![Token::And] + eq_tokens(*r),
    }
}

pub open spec fn eq_tokens(e: EqExp) -> Seq<Token>
    decreases e,
{
    match e {
        EqExp::RelExp(inner) => rel_tokens(*inner),
        EqExp::Eq(l, r) => eq_tokens(*l) + seq![Token::Eq] + rel_tokens(*r),
        EqExp::Neq(l, r) => eq_tokens(*l) + seq![Token::Neq] + rel_tokens(*r),
    }
}

pub open spec fn rel_tokens(e: RelExp) -> Seq<Token>
    decreases e,
{
    match e {
        RelExp::AddExp(inner) => add_tokens(*inner),
        RelExp::Lt(l, r) => rel_tokens(*l) + seq![Token::Lt] + add_tokens(*r),
        RelExp::Gt(l, r) => rel_tokens(*l) + seq![Token::Gt] + add_tokens(*r),
        RelExp::Le(l, r) => rel_tokens(*l) + seq![Token::Le] + add_tokens(*r),
        RelExp::Ge(l, r) => rel_tokens(*l) + seq![Token::Ge] + add_tokens(*r),
    }
}

pub open spec fn add_tokens(e: AddExp) -> Seq<Token>
    decreases e,
{
    match e {
        AddExp::MulExp(inner) => mul_tokens(*inner),
        AddExp::Add(l, r) => add_tokens(*l) + seq![Token::Add] + mul_tokens(*r),
        AddExp::Sub(l, r) => add_tokens(*l) + seq![Token::Sub] + mul_tokens(*r),
    }
}

pub open spec fn mul_tokens(e: MulExp) -> Seq<Token>
    decreases e,
{
    match e {
        MulExp::UnaryExp(inner) => unary_tokens(*inner),
        MulExp::Mul(l, r) => mul_tokens(*l) + seq![Token::Mul] + unary_tokens(*r),
        MulExp::Div(l, r) => mul_tokens(*l) + seq![Token::Div] + unary_tokens(*r),
        MulExp::Mod(l, r) => mul_tokens(*l) + seq![Token::Mod] + unary_tokens(*r),
    }
}

pub open spec fn unary_tokens(e: UnaryExp) -> Seq<Token>
    decreases e,
{
    match e {
        UnaryExp::PrimaryExp(inner) => primary_tokens(*inner),
        UnaryExp::Call(name, args) => seq![Token::Ident(name)] + seq![Token::LParen] + exp_list_tokens(
            args@,
        ) + seq![Token::RParen],
        UnaryExp::UnaryOp(op, inner) => seq![unary_op_token(op)] + unary_tokens(*inner),
    }
}

pub open spec fn primary_tokens(e: PrimaryExp) -> Seq<Token>
    decreases e,
{
    match e {
        PrimaryExp::Paren(inner) => seq![Token::LParen] + exp_tokens(*inner) + seq![Token::RParen],
        PrimaryExp::LVal(lval) => lval_tokens(lval),
        PrimaryExp::Number(n) => seq![Token::IntConst(n)],
    }
}

pub open spec fn lval_tokens(lval: LVal) -> Seq<Token>
    decreases lval,
{
    seq![Token::Ident(lval.ident)] + index_list_tokens(lval.indices@)
}

/// Expressions with a comma between each two.
pub open spec fn exp_list_tokens(es: Seq<Exp>) -> Seq<Token>
    decreases es,
{
    if es.len() == 0 {
        Seq::empty()
    } else if es.len() == 1 {
        exp_tokens(es[0])
    } else {
        exp_list_tokens(es.drop_last()) + seq![Token::Comma] + exp_tokens(es.last())
    }
}

/// Expressions, each in square brackets.
pub open spec fn index_list_tokens(es: Seq<Exp>) -> Seq<Token>
    decreases es,
{
    if es.len() == 0 {
        Seq::empty()
    } else {
        index_list_tokens(es.drop_last()) + seq![Token::LBracket] + exp_tokens(es.last())
            + seq![Token::RBracket]
    }
}

pub open spec fn const_exp_tokens(e: ConstExp) -> Seq<Token>
    decreases e,
{
    match e {
        ConstExp::Exp(inner) => exp_tokens(*inner),
    }
}

/// Constant expressions, each in square brackets.
pub open spec fn dim_list_tokens(es: Seq<ConstExp>) -> Seq<Token>
    decreases es,
{
    if es.len() == 0 {
        Seq::empty()
    } else {
        dim_list_tokens(es.drop_last()) + seq![Token::LBracket] + const_exp_tokens(es.last())
            + seq![Token::RBracket]
    }
}

pub open spec fn const_init_tokens(v: ConstInitVal) -> Seq<Token>
    decreases v,
{
    match v {
        ConstInitVal::Exp(e) => const_exp_tokens(*e),
        ConstInitVal::Array(items) => seq![Token::LBrace] + const_init_list_tokens(items@)
            + seq![Token::RBrace],
    }
}

/// Constant initializers with a comma between each two.
pub open spec fn const_init_list_tokens(vs: Seq<ConstInitVal>) -> Seq<Token>
    decreases vs,
{
    if vs.len() == 0 {
        Seq::empty()
    } else if vs.len() == 1 {
        const_init_tokens(vs[0])
    } else {
        const_init_list_tokens(vs.drop_last()) + seq![Token::Comma] + const_init_tokens(vs.last())
    }
}

pub open spec fn init_tokens(v: InitVal) -> Seq<Token>
    decreases v,
{
    match v {
        InitVal::Exp(e) => exp_tokens(*e),
        InitVal::Array(items) => seq![Token::LBrace] + init_list_tokens(items@)
            + seq![Token::RBrace],
    }
}

/// Initializers with a comma between each two.
pub open spec fn init_list_tokens(vs: Seq<InitVal>) -> Seq<Token>
    decreases vs,
{
    if vs.len() == 0 {
        Seq::empty()
    } else if vs.len() == 1 {
        init_tokens(vs[0])
    } else {
        init_list_tokens(vs.drop_last()) + seq![Token::Comma] + init_tokens(vs.last())
    }
}

pub open spec fn const_def_tokens(d: ConstDef) -> Seq<Token> {
    seq![Token::Ident(d.ident)] + dim_list_tokens(d.dimensions@) + seq![Token::Assign]
        + const_init_tokens(d.init_val)
}

/// Constant definitions with a comma between each two.
pub open spec fn const_def_list_tokens(ds: Seq<ConstDef>) -> Seq<Token>
    decreases ds.len(),
{
    if ds.len() == 0 {
        Seq::empty()
    } else if ds.len() == 1 {
        const_def_tokens(ds[0])
    } else {
        const_def_list_tokens(ds.drop_last()) + seq![Token::Comma] + const_def_tokens(ds.last())
    }
}

pub open spec fn var_def_tokens(d: VarDef) -> Seq<Token> {
    match d {
        VarDef::Uninit(name, dims) => seq![Token::Ident(name)] + dim_list_tokens(dims@),
        VarDef::Init(name, dims, init) => seq![Token::Ident(name)] + dim_list_tokens(dims@)
            + seq![Token::Assign] + init_tokens(init),
    }
}

/// Variable definitions with a comma between each two.
pub open spec fn var_def_list_tokens(ds: Seq<VarDef>) -> Seq<Token>
    decreases ds.len(),
{
    if ds.len() == 0 {
        Seq::empty()
    } else if ds.len() == 1 {
        var_def_tokens(ds[0])
    } else {
        var_def_list_tokens(ds.drop_last()) + seq![Token::Comma] + var_def_tokens(ds.last())
    }
}

pub open spec fn decl_tokens(d: Decl) -> Seq<Token> {
    match d {
        Decl::ConstDecl(c) => seq![Token::Const] + seq![Token::Int] + const_def_list_tokens(
            c.const_defs@,
        ) + seq![Token::SemiColon],
        Decl::VarDecl(v) => seq![Token::Int] + var_def_list_tokens(v.var_defs@)
            + seq![Token::SemiColon],
    }
}

pub open spec fn stmt_tokens(s: Stmt) -> Seq<Token>
    decreases s,
{
    match s {
        Stmt::Assign(lval, e) => lval_tokens(lval) + seq![Token::Assign] + exp_tokens(e)
            + seq![Token::SemiColon],
        Stmt::Exp(e) => opt_exp_tokens(e) + seq![Token::SemiColon],
        Stmt::Block(b) => block_tokens(b),
        Stmt::If(c, t, e) => seq![Token::If] + seq![Token::LParen] + exp_tokens(c)
            + seq![Token::RParen] + stmt_tokens(*t) + else_tokens(e),
        Stmt::While(c, body) => seq![Token::While] + seq![Token::LParen] + exp_tokens(c)
            + seq![Token::RParen] + stmt_tokens(*body),
        Stmt::Break => seq![Token::Break] + seq![Token::SemiColon],
        Stmt::Continue => seq![Token::Continue] + seq![Token::SemiColon],
        Stmt::Return(e) => seq![Token::Return] + opt_exp_tokens(e) + seq![Token::SemiColon],
    }
}

/// An expression that may be left out.
pub open spec fn opt_exp_tokens(e: Option<Exp>) -> Seq<Token> {
    match e {
        Some(e) => exp_tokens(e),
        None => Seq::empty(),
    }
}

/// The `else` branch of an `if`, where it has one.
pub open spec fn else_tokens(e: Option<Box<Stmt>>) -> Seq<Token>
    decreases e,
{
    match e {
        Some(s) => seq![Token::Else] + stmt_tokens(*s),
        None => Seq::empty(),
    }
}

pub open spec fn block_tokens(b: Block) -> Seq<Token>
    decreases b,
{
    seq![Token::LBrace] + item_list_tokens(b.items@) + seq![Token::RBrace]
}

pub open spec fn item_tokens(item: BlockItem) -> Seq<Token>
    decreases item,
{
    match item {
        BlockItem::Decl(d) => decl_tokens(*d),
        BlockItem::Stmt(s) => stmt_tokens(*s),
    }
}

/// Block items one after the other.
pub open spec fn item_list_tokens(items: Seq<BlockItem>) -> Seq<Token>
    decreases items,
{
    if items.len() == 0 {
        Seq::empty()
    } else {
        item_list_tokens(items.drop_last()) + item_tokens(items.last())
    }
}

/// A parameter; an array parameter has `[]` before its listed dimensions.
pub open spec fn param_tokens(p: FuncFParam) -> Seq<Token> {
    if p.is_array {
        seq![Token::Int] + seq![Token::Ident(p.ident)] + seq![Token::LBracket] + seq![Token::RBracket]
            + dim_list_tokens(p.dimensions@)
    } else {
        seq![Token::Int] + seq![Token::Ident(p.ident)]
    }
}

/// Parameters with a comma between each two.
pub open spec fn param_list_tokens(ps: Seq<FuncFParam>) -> Seq<Token>
    decreases ps.len(),
{
    if ps.len() == 0 {
        Seq::empty()
    } else if ps.len() == 1 {
        param_tokens(ps[0])
    } else {
        param_list_tokens(ps.drop_last()) + seq![Token::Comma] + param_tokens(ps.last())
    }
}

pub open spec fn func_type_token(t: FuncType) -> Token {
    match t {
        FuncType::Void => Token::Void,
        FuncType::Int => Token::Int,
    }
}

pub open spec fn func_def_tokens(f: FuncDef) -> Seq<Token> {
    seq![func_type_token(f.func_type)] + seq![Token::Ident(f.ident)] + seq![Token::LParen] + param_list_tokens(
        f.params@,
    ) + seq![Token::RParen] + block_tokens(f.block)
}

pub open spec fn unit_item_tokens(item: DeclOrFuncDef) -> Seq<Token> {
    match item {
        DeclOrFuncDef::Decl(d) => decl_tokens(*d),
        DeclOrFuncDef::FuncDef(f) => func_def_tokens(*f),
    }
}

pub open spec fn comp_unit_tokens(u: CompUnit) -> Seq<Token>
    decreases u,
{
    match u.prev_unit {
        Some(prev) => comp_unit_tokens(*prev) + unit_item_tokens(u.cur_unit),
        None => unit_item_tokens(u.cur_unit),
    }
}

/// Whether an `else` that follows `s` cannot belong to an `if` inside `s`.
pub open spec fn stmt_closed(s: Stmt) -> bool
    decreases s,
{
    match s {
        Stmt::If(_, _, None) => false,
        Stmt::If(_, _, Some(e)) => stmt_closed(*e),
        Stmt::While(_, body) => stmt_closed(*body),
        _ => true,
    }
}

/// Whether every `else` in `s` belongs to the nearest `if` before it that
/// has none yet.
pub open spec fn stmt_nested(s: Stmt) -> bool
    decreases s,
{
    match s {
        Stmt::Block(b) => block_nested(b),
        Stmt::If(_, t, None) => stmt_nested(*t),
        Stmt::If(_, t, Some(e)) => stmt_closed(*t) && stmt_nested(*t) && stmt_nested(*e),
        Stmt::While(_, body) => stmt_nested(*body),
        _ => true,
    }
}

pub open spec fn block_nested(b: Block) -> bool
    decreases b,
{
    forall|i: int| 0 <= i < b.items@.len() ==> item_nested(#[trigger] b.items@[i])
}

/// Whether a declaration defines at least one name.
pub open spec fn decl_listed(d: Decl) -> bool {
    match d {
        Decl::ConstDecl(c) => c.const_defs@.len() >= 1,
        Decl::VarDecl(v) => v.var_defs@.len() >= 1,
    }
}

/// Whether an item of a block is as the grammar means it: a declaration of
/// at least one name, or a statement with its `else`s where they belong.
pub open spec fn item_nested(item: BlockItem) -> bool
    decreases item,
{
    match item {
        BlockItem::Decl(d) => decl_listed(*d),
        BlockItem::Stmt(s) => stmt_nested(*s),
    }
}

/// Whether a parameter lists dimensions only where it is an array.
pub open spec fn param_shaped(p: FuncFParam) -> bool {
    !p.is_array ==> p.dimensions@.len() == 0
}

pub open spec fn unit_item_canonical(item: DeclOrFuncDef) -> bool {
    match item {
        DeclOrFuncDef::Decl(d) => decl_listed(*d),
        DeclOrFuncDef::FuncDef(f) => block_nested(f.block) && forall|i: int|
            0 <= i < f.params@.len() ==> param_shaped(#[trigger] f.params@[i]),
    }
}

/// Whether `u` is the one tree among those written with the same tokens
/// that the grammar means: each `else` with the nearest `if`, at least one
/// name in each declaration, and no dimensions on a scalar parameter.
pub open spec fn comp_unit_canonical(u: CompUnit) -> bool
    decreases u,
{
    unit_item_canonical(u.cur_unit) && match u.prev_unit {
        Some(prev) => comp_unit_canonical(*prev),
        None => true,
    }
}

/// The tokens without their spans.
pub open spec fn kinds(toks: Seq<(Token, Span)>) -> Seq<Token> {
    Seq::new(toks.len(), |i: int| toks[i].0)
}

/// The tokens from `from` up to `to`, without their spans.
pub open spec fn stream(toks: Seq<(Token, Span)>, from: int, to: int) -> Seq<Token> {
    kinds(toks).subrange(from, to)
}

/// Two adjoining stretches of tokens make up the stretch over both.
pub broadcast proof fn lemma_stream_join(toks: Seq<(Token, Span)>, a: int, b: int, c: int)
    requires
        0 <= a <= b <= c <= toks.len(),
    ensures
        #[trigger] (stream(toks, a, b) + stream(toks, b, c)) == stream(toks, a, c),
{
    assert(stream(toks, a, b) + stream(toks, b, c) =~= stream(toks, a, c));
}

} // verus!
