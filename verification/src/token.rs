//! Tokens of the source language and the errors of lexical analysis.

use vstd::prelude::*;

verus! {

/// A half-open range of byte offsets into the source text.
#[derive(Debug, Clone, Copy, PartialEq, Eq, Structural)]
pub struct Span {
    pub start: usize,
    pub end: usize,
}

/// Why a run of digits is no integer literal.
#[derive(Debug, Clone, Copy, PartialEq, Eq, Structural)]
pub enum IntegerFault {
    /// No digit where at least one is needed.
    Empty,
    /// A byte that is no digit of the literal's radix.
    InvalidDigit,
    /// A value above `i64::MAX`.
    PosOverflow,
}

/// Why a piece of source text is not a token.
#[derive(Debug, Clone, Copy, PartialEq, Eq, Structural)]
pub enum LexicalError {
    /// A numeric literal that is none, with what is wrong with it.
    InvalidInteger(IntegerFault),
    /// A byte that starts no token.
    InvalidToken,
}

impl Default for LexicalError {
    fn default() -> (e: LexicalError)
        ensures
            e == LexicalError::InvalidToken,
    {
        LexicalError::InvalidToken
    }
}

impl From<IntegerFault> for LexicalError {
    /// The lexical error that a faulty integer literal is.
    fn from(fault: IntegerFault) -> (e: LexicalError)
        ensures
            e == LexicalError::InvalidInteger(fault),
    {
        LexicalError::InvalidInteger(fault)
    }
}

impl vstd::std_specs::convert::FromSpecImpl<IntegerFault> for LexicalError {
    open spec fn obeys_from_spec() -> bool {
        true
    }

    open spec fn from_spec(fault: IntegerFault) -> LexicalError {
        LexicalError::InvalidInteger(fault)
    }
}

/// A classified piece of source text.
///
/// `Whitespace`, `SingleLineComment` and `MultipleLinesComment` name what the
/// lexer skips; they never occur in its output.
#[derive(Debug, PartialEq, Eq)]
pub enum Token {
    Whitespace,
    SingleLineComment,
    MultipleLinesComment,
    Ident(String),
    IntConst(i64),
    Const,
    If,
    Else,
    While,
    Break,
    Continue,
    Return,
    Add,
    Sub,
    Mul,
    Div,
    Mod,
    Pow,
    Not,
    BitAnd,
    BitNot,
    BitOr,
    ShiftL,
    ShiftR,
    And,
    Or,
    Eq,
    Neq,
    Le,
    Ge,
    Lt,
    Gt,
    Assign,
    LParen,
    RParen,
    LBrace,
    RBrace,
    LBracket,
    RBracket,
    Comma,
    SemiColon,
    Colon,
    DoubleColon,
    Dot,
    Concat,
    Dots,
    Int,
    Void,
}

impl Clone for Token {
    fn clone(&self) -> (t: Token)
        ensures
            t == *self,
    {
        match self {
            Token::Ident(name) => Token::Ident(name.clone()),
            Token::IntConst(v) => Token::IntConst(*v),
            Token::Whitespace => Token::Whitespace,
            Token::SingleLineComment => Token::SingleLineComment,
            Token::MultipleLinesComment => Token::MultipleLinesComment,
            Token::Const => Token::Const,
            Token::If => Token::If,
            Token::Else => Token::Else,
            Token::While => Token::While,
            Token::Break => Token::Break,
            Token::Continue => Token::Continue,
            Token::Return => Token::Return,
            Token::Add => Token::Add,
            Token::Sub => Token::Sub,
            Token::Mul => Token::Mul,
            Token::Div => Token::Div,
            Token::Mod => Token::Mod,
            Token::Pow => Token::Pow,
            Token::Not => Token::Not,
            Token::BitAnd => Token::BitAnd,
            Token::BitNot => Token::BitNot,
            Token::BitOr => Token::BitOr,
            Token::ShiftL => Token::ShiftL,
            Token::ShiftR => Token::ShiftR,
            Token::And => Token::And,
            Token::Or => Token::Or,
            Token::Eq => Token::Eq,
            Token::Neq => Token::Neq,
            Token::Le => Token::Le,
            Token::Ge => Token::Ge,
            Token::Lt => Token::Lt,
            Token::Gt => Token::Gt,
            Token::Assign => Token::Assign,
            Token::LParen => Token::LParen,
            Token::RParen => Token::RParen,
            Token::LBrace => Token::LBrace,
            Token::RBrace => Token::RBrace,
            Token::LBracket => Token::LBracket,
            Token::RBracket => Token::RBracket,
            Token::Comma => Token::Comma,
            Token::SemiColon => Token::SemiColon,
            Token::Colon => Token::Colon,
            Token::DoubleColon => Token::DoubleColon,
            Token::Dot => Token::Dot,
            Token::Concat => Token::Concat,
            Token::Dots => Token::Dots,
            Token::Int => Token::Int,
            Token::Void => Token::Void,
        }
    }
}

impl Token {
    /// Whether the token is a keyword, an operator or a punctuation mark:
    /// one that is always written the same way.
    pub open spec fn is_mark(self) -> bool {
        !(self is Ident) && !(self is IntConst)
    }

    /// Whether `want` is a mark and the token is that mark.
    pub fn same_mark(&self, want: &Token) -> (same: bool)
        ensures
            same == (want.is_mark() && *self == *want),
    {
        match (self, want) {
            (Token::Whitespace, Token::Whitespace) => true,
            (Token::SingleLineComment, Token::SingleLineComment) => true,
            (Token::MultipleLinesComment, Token::MultipleLinesComment) => true,
            (Token::Const, Token::Const) => true,
            (Token::If, Token::If) => true,
            (Token::Else, Token::Else) => true,
            (Token::While, Token::While) => true,
            (Token::Break, Token::Break) => true,
            (Token::Continue, Token::Continue) => true,
            (Token::Return, Token::Return) => true,
            (Token::Add, Token::Add) => true,
            (Token::Sub, Token::Sub) => true,
            (Token::Mul, Token::Mul) => true,
            (Token::Div, Token::Div) => true,
            (Token::Mod, Token::Mod) => true,
            (Token::Pow, Token::Pow) => true,
            (Token::Not, Token::Not) => true,
            (Token::BitAnd, Token::BitAnd) => true,
            (Token::BitNot, Token::BitNot) => true,
            (Token::BitOr, Token::BitOr) => true,
            (Token::ShiftL, Token::ShiftL) => true,
            (Token::ShiftR, Token::ShiftR) => true,
            (Token::And, Token::And) => true,
            (Token::Or, Token::Or) => true,
            (Token::Eq, Token::Eq) => true,
            (Token::Neq, Token::Neq) => true,
            (Token::Le, Token::Le) => true,
            (Token::Ge, Token::Ge) => true,
            (Token::Lt, Token::Lt) => true,
            (Token::Gt, Token::Gt) => true,
            (Token::Assign, Token::Assign) => true,
            (Token::LParen, Token::LParen) => true,
            (Token::RParen, Token::RParen) => true,
            (Token::LBrace, Token::LBrace) => true,
            (Token::RBrace, Token::RBrace) => true,
            (Token::LBracket, Token::LBracket) => true,
            (Token::RBracket, Token::RBracket) => true,
            (Token::Comma, Token::Comma) => true,
            (Token::SemiColon, Token::SemiColon) => true,
            (Token::Colon, Token::Colon) => true,
            (Token::DoubleColon, Token::DoubleColon) => true,
            (Token::Dot, Token::Dot) => true,
            (Token::Concat, Token::Concat) => true,
            (Token::Dots, Token::Dots) => true,
            (Token::Int, Token::Int) => true,
            (Token::Void, Token::Void) => true,
            _ => false,
        }
    }
}

} // verus!
