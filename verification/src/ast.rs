//! The abstract syntax tree. Every node owns its children; the expression
//! types form a ladder, one type per level of precedence.

use vstd::prelude::*;

verus! {

/// An identifier as written in the source text.
pub type IDENT = String;

/// A compilation unit: its last item, after the items before it.
#[derive(Debug, PartialEq, Eq)]
pub struct CompUnit {
    pub prev_unit: Option<Box<CompUnit>>,
    pub cur_unit: DeclOrFuncDef,
}

#[derive(Debug, PartialEq, Eq)]
pub enum DeclOrFuncDef {
    Decl(Box<Decl>),
    FuncDef(Box<FuncDef>),
}

#[derive(Debug, PartialEq, Eq)]
pub enum Decl {
    ConstDecl(Box<ConstDecl>),
    VarDecl(Box<VarDecl>),
}

#[derive(Debug, PartialEq, Eq)]
pub struct ConstDecl {
    pub btype: BType,
    pub const_defs: Vec<ConstDef>,
}

#[derive(Debug, Clone, Copy, PartialEq, Eq)]
pub enum BType {
    Int,
}

#[derive(Debug, PartialEq, Eq)]
pub struct ConstDef {
    pub ident: IDENT,
    pub dimensions: Vec<ConstExp>,
    pub init_val: ConstInitVal,
}

#[derive(Debug, PartialEq, Eq)]
pub enum ConstInitVal {
    Exp(Box<ConstExp>),
    Array(Vec<ConstInitVal>),
}

#[derive(Debug, PartialEq, Eq)]
pub struct VarDecl {
    pub btype: BType,
    pub var_defs: Vec<VarDef>,
}

#[derive(Debug, PartialEq, Eq)]
pub enum VarDef {
    Uninit(IDENT, Vec<ConstExp>),
    Init(IDENT, Vec<ConstExp>, InitVal),
}

#[derive(Debug, PartialEq, Eq)]
pub enum InitVal {
    Exp(Box<Exp>),
    Array(Vec<InitVal>),
}

#[derive(Debug, PartialEq, Eq)]
pub struct FuncDef {
    pub func_type: FuncType,
    pub ident: IDENT,
    pub params: Vec<FuncFParam>,
    pub block: Block,
}

#[derive(Debug, Clone, Copy, PartialEq, Eq)]
pub enum FuncType {
    Void,
    Int,
}

/// A parameter. An array parameter leaves its first dimension open and
/// lists the others.
#[derive(Debug, PartialEq, Eq)]
pub struct FuncFParam {
    pub btype: BType,
    pub ident: IDENT,
    pub is_array: bool,
    pub dimensions: Vec<ConstExp>,
}

#[derive(Debug, PartialEq, Eq)]
pub struct Block {
    pub items: Vec<BlockItem>,
}

#[derive(Debug, PartialEq, Eq)]
pub enum BlockItem {
    Decl(Box<Decl>),
    Stmt(Box<Stmt>),
}

#[derive(Debug, PartialEq, Eq)]
pub enum Stmt {
    Assign(LVal, Exp),
    Exp(Option<Exp>),
    Block(Block),
    If(Exp, Box<Stmt>, Option<Box<Stmt>>),
    While(Exp, Box<Stmt>),
    Break,
    Continue,
    Return(Option<Exp>),
}

#[derive(Debug, PartialEq, Eq)]
pub struct LVal {
    pub ident: IDENT,
    pub indices: Vec<Exp>,
}

#[derive(Debug, PartialEq, Eq)]
pub enum Exp {
    LOrExp(Box<LOrExp>),
}

#[derive(Debug, PartialEq, Eq)]
pub enum LOrExp {
    LAndExp(Box<LAndExp>),
    Or(Box<LOrExp>, Box<LAndExp>),
}

#[derive(Debug, PartialEq, Eq)]
pub enum LAndExp {
    EqExp(Box<EqExp>),
    And(Box<LAndExp>, Box<EqExp>),
}

#[derive(Debug, PartialEq, Eq)]
pub enum EqExp {
    RelExp(Box<RelExp>),
    Eq(Box<EqExp>, Box<RelExp>),
    Neq(Box<EqExp>, Box<RelExp>),
}

#[derive(Debug, Clone, Copy, PartialEq, Eq)]
pub enum EqOp {
    Eq,
    Neq,
}

#[derive(Debug, PartialEq, Eq)]
pub enum RelExp {
    AddExp(Box<AddExp>),
    Lt(Box<RelExp>, Box<AddExp>),
    Gt(Box<RelExp>, Box<AddExp>),
    Le(Box<RelExp>, Box<AddExp>),
    Ge(Box<RelExp>, Box<AddExp>),
}

#[derive(Debug, PartialEq, Eq)]
pub enum AddExp {
    MulExp(Box<MulExp>),
    Add(Box<AddExp>, Box<MulExp>),
    Sub(Box<AddExp>, Box<MulExp>),
}

#[derive(Debug, PartialEq, Eq)]
pub enum MulExp {
    UnaryExp(Box<UnaryExp>),
    Mul(Box<MulExp>, Box<UnaryExp>),
    Div(Box<MulExp>, Box<UnaryExp>),
    Mod(Box<MulExp>, Box<UnaryExp>),
}

#[derive(Debug, Clone, Copy, PartialEq, Eq)]
pub enum BinaryOp {
    Add,
    Sub,
}

#[derive(Debug, Clone, Copy, PartialEq, Eq)]
pub enum FactorOp {
    Mul,
    Div,
    Mod,
}

#[derive(Debug, PartialEq, Eq)]
pub enum UnaryExp {
    PrimaryExp(Box<PrimaryExp>),
    Call(IDENT, Vec<Exp>),
    UnaryOp(UnaryOp, Box<UnaryExp>),
}

#[derive(Debug, PartialEq, Eq)]
pub enum PrimaryExp {
    Paren(Box<Exp>),
    LVal(LVal),
    Number(i64),
}

#[derive(Debug, Clone, Copy, PartialEq, Eq)]
pub enum UnaryOp {
    Add,
    Sub,
    Not,
}

#[derive(Debug, Clone, Copy, PartialEq, Eq)]
pub enum RelOp {
    Lt,
    Gt,
    Le,
    Ge,
}

#[derive(Debug, PartialEq, Eq)]
pub enum ConstExp {
    Exp(Box<Exp>),
}

} // verus!
