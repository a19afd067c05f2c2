//! The grammar, as the places where its constructs end. Each function says
//! where the construct that starts at a place of the token sequence ends,
//! or at which token the sequence stops being one: the first token that
//! cannot stand where it does, or the end of the sequence.
//!
//! A binary operator takes as many operands of the next tighter level as
//! follow it, so it associates to the left. An `else` belongs to the nearest
//! `if` before it that has none. What starts with a name is an assignment
//! where `=` follows the name and its indices, and an expression otherwise.

use vstd::prelude::*;
use crate::parser::SyntaxError;
use crate::token::{Span, Token};

verus! {

/// Where a construct ends, or the place of the offending token.
pub type Scan = Result<int, int>;

/// The token at `p`, if there is one.
pub open spec fn at(toks: Seq<(Token, Span)>, p: int) -> Option<Token> {
    if 0 <= p < toks.len() {
        Some(toks[p].0)
    } else {
        None
    }
}

/// How many tokens are left from `p` on; one more than all before the
/// first.
pub open spec fn left(toks: Seq<(Token, Span)>, p: int) -> int {
    if p < 0 {
        toks.len() as int + 1
    } else if p < toks.len() {
        toks.len() - p
    } else {
        0
    }
}

/// The error for an offending token at `p`, or for the end of the sequence.
pub open spec fn error_at(toks: Seq<(Token, Span)>, p: int) -> SyntaxError {
    if 0 <= p < toks.len() {
        SyntaxError::UnexpectedToken { found: toks[p].0, span: toks[p].1 }
    } else {
        SyntaxError::UnexpectedEnd
    }
}

/// The mark `want` has to stand at `p`.
pub open spec fn mark_end(toks: Seq<(Token, Span)>, p: int, want: Token) -> Scan {
    if at(toks, p) == Some(want) {
        Ok(p + 1)
    } else {
        Err(p)
    }
}

/// After a construct that ends as `before` says, the mark `want`.
pub open spec fn then_mark(toks: Seq<(Token, Span)>, before: Scan, want: Token) -> Scan {
    match before {
        Err(e) => Err(e),
        Ok(p) => mark_end(toks, p, want),
    }
}

/// A name has to stand at `p`.
pub open spec fn name_end(toks: Seq<(Token, Span)>, p: int) -> Scan {
    if at(toks, p) matches Some(Token::Ident(_)) {
        Ok(p + 1)
    } else {
        Err(p)
    }
}

/// Whether `t` is a binary operator of the level: 1 for `* / %`, 2 for
/// `+ -`, 3 for `< > <= >=`, 4 for `== !=`, 5 for `&&`, 6 for `||`.
pub open spec fn is_operator(level: int, t: Token) -> bool {
    if level == 1 {
        t == Token::Mul || t == Token::Div || t == Token::Mod
    } else if level == 2 {
        t == Token::Add || t == Token::Sub
    } else if level == 3 {
        t == Token::Lt || t == Token::Gt || t == Token::Le || t == Token::Ge
    } else if level == 4 {
        t == Token::Eq || t == Token::Neq
    } else if level == 5 {
        t == Token::And
    } else if level == 6 {
        t == Token::Or
    } else {
        false
    }
}

/// Whether a binary operator of the level stands at `p`.
pub open spec fn operator_at(toks: Seq<(Token, Span)>, p: int, level: int) -> bool {
    match at(toks, p) {
        Some(t) => is_operator(level, t),
        None => false,
    }
}

/// What a list is made of.
pub enum Piece {
    /// An expression, as an argument of a call.
    Exp,
    /// An initializer, as an item of an initializer list.
    Init,
    /// The definition of a constant.
    ConstDef,
    /// The definition of a variable.
    VarDef,
    /// A parameter.
    Param,
}

/// An expression: a binary expression of the loosest level.
pub open spec fn exp_end(toks: Seq<(Token, Span)>, pos: int) -> Scan
    decreases left(toks, pos), 40int,
{
    binary_end(toks, pos, 6)
}

/// A binary expression of a level: a unary expression at level 0, else an
/// operand of the next tighter level and what follows it.
pub open spec fn binary_end(toks: Seq<(Token, Span)>, pos: int, level: int) -> Scan
    decreases left(toks, pos), (if level > 0 {
            21 + 2 * level
        } else {
            21
        }),
{
    if level <= 0 {
        unary_end(toks, pos)
    } else {
        match binary_end(toks, pos, level - 1) {
            Err(e) => Err(e),
            Ok(p) => if p > pos {
                binary_rest(toks, p, level)
            } else {
                Err(p)
            },
        }
    }
}

/// What follows an operand of a binary expression: as long as an operator
/// of the level stands there, another operand.
pub open spec fn binary_rest(toks: Seq<(Token, Span)>, p: int, level: int) -> Scan
    decreases left(toks, p), 1int,
{
    if 1 <= level <= 6 && operator_at(toks, p, level) {
        match binary_end(toks, p + 1, level - 1) {
            Err(e) => Err(e),
            Ok(q) => if q > p {
                binary_rest(toks, q, level)
            } else {
                Err(q)
            },
        }
    } else {
        Ok(p)
    }
}

/// A unary expression: a sign or `!` before a unary expression, a call, or
/// a primary expression.
pub open spec fn unary_end(toks: Seq<(Token, Span)>, pos: int) -> Scan
    decreases left(toks, pos), 15int,
{
    match at(toks, pos) {
        Some(Token::Add) | Some(Token::Sub) | Some(Token::Not) => unary_end(toks, pos + 1),
        Some(Token::Ident(_)) => if at(toks, pos + 1) == Some(Token::LParen) {
            match args_end(toks, pos + 2) {
                Err(e) => Err(e),
                Ok(p) => mark_end(toks, p, Token::RParen),
            }
        } else {
            primary_end(toks, pos)
        },
        _ => primary_end(toks, pos),
    }
}

/// The arguments of a call, up to the closing parenthesis.
pub open spec fn args_end(toks: Seq<(Token, Span)>, pos: int) -> Scan
    decreases left(toks, pos), 50int,
{
    if at(toks, pos) == Some(Token::RParen) {
        Ok(pos)
    } else {
        match exp_end(toks, pos) {
            Err(e) => Err(e),
            Ok(p) => if p > pos {
                list_rest(toks, p, Piece::Exp)
            } else {
                Err(p)
            },
        }
    }
}

/// A primary expression: an expression in parentheses, a number, or a name
/// with its indices.
pub open spec fn primary_end(toks: Seq<(Token, Span)>, pos: int) -> Scan
    decreases left(toks, pos), 14int,
{
    match at(toks, pos) {
        Some(Token::LParen) => match exp_end(toks, pos + 1) {
            Err(e) => Err(e),
            Ok(p) => mark_end(toks, p, Token::RParen),
        },
        Some(Token::IntConst(_)) => Ok(pos + 1),
        Some(Token::Ident(_)) => lval_end(toks, pos),
        _ => Err(pos),
    }
}

/// A name with its indices.
pub open spec fn lval_end(toks: Seq<(Token, Span)>, pos: int) -> Scan
    decreases left(toks, pos), 13int,
{
    match name_end(toks, pos) {
        Err(e) => Err(e),
        Ok(p) => bracket_rest(toks, p),
    }
}

/// As long as `[` stands there, an expression in square brackets.
pub open spec fn bracket_rest(toks: Seq<(Token, Span)>, p: int) -> Scan
    decreases left(toks, p), 1int,
{
    if at(toks, p) == Some(Token::LBracket) {
        match exp_end(toks, p + 1) {
            Err(e) => Err(e),
            Ok(q) => match mark_end(toks, q, Token::RBracket) {
                Err(e) => Err(e),
                Ok(r) => if r > p {
                    bracket_rest(toks, r)
                } else {
                    Err(r)
                },
            },
        }
    } else {
        Ok(p)
    }
}

/// An initializer: a list of initializers in braces, or an expression.
pub open spec fn init_end(toks: Seq<(Token, Span)>, pos: int) -> Scan
    decreases left(toks, pos), 55int,
{
    if at(toks, pos) == Some(Token::LBrace) {
        if at(toks, pos + 1) == Some(Token::RBrace) {
            Ok(pos + 2)
        } else {
            match init_end(toks, pos + 1) {
                Err(e) => Err(e),
                Ok(p) => if p > pos {
                    match list_rest(toks, p, Piece::Init) {
                        Err(e) => Err(e),
                        Ok(q) => mark_end(toks, q, Token::RBrace),
                    }
                } else {
                    Err(p)
                },
            }
        }
    } else {
        exp_end(toks, pos)
    }
}

/// The definition of a constant: a name, dimensions, `=`, an initializer.
pub open spec fn const_def_end(toks: Seq<(Token, Span)>, pos: int) -> Scan
    decreases left(toks, pos), 60int,
{
    match name_end(toks, pos) {
        Err(e) => Err(e),
        Ok(p) => match bracket_rest(toks, p) {
            Err(e) => Err(e),
            Ok(q) => match mark_end(toks, q, Token::Assign) {
                Err(e) => Err(e),
                Ok(r) => if r > pos {
                    init_end(toks, r)
                } else {
                    Err(r)
                },
            },
        },
    }
}

/// The definition of a variable: a name, dimensions, and an initializer
/// where `=` follows.
pub open spec fn var_def_end(toks: Seq<(Token, Span)>, pos: int) -> Scan
    decreases left(toks, pos), 60int,
{
    match name_end(toks, pos) {
        Err(e) => Err(e),
        Ok(p) => match bracket_rest(toks, p) {
            Err(e) => Err(e),
            Ok(q) => if at(toks, q) == Some(Token::Assign) {
                if q >= pos {
                    init_end(toks, q + 1)
                } else {
                    Err(q)
                }
            } else {
                Ok(q)
            },
        },
    }
}

/// A parameter: `int`, a name, and for an array `[]` and the dimensions
/// after the first.
pub open spec fn param_end(toks: Seq<(Token, Span)>, pos: int) -> Scan
    decreases left(toks, pos), 60int,
{
    match mark_end(toks, pos, Token::Int) {
        Err(e) => Err(e),
        Ok(p) => match name_end(toks, p) {
            Err(e) => Err(e),
            Ok(q) => if at(toks, q) == Some(Token::LBracket) {
                match mark_end(toks, q + 1, Token::RBracket) {
                    Err(e) => Err(e),
                    Ok(r) => if r > pos {
                        bracket_rest(toks, r)
                    } else {
                        Err(r)
                    },
                }
            } else {
                Ok(q)
            },
        },
    }
}

/// One piece of a list.
pub open spec fn piece_end(toks: Seq<(Token, Span)>, pos: int, piece: Piece) -> Scan
    decreases left(toks, pos), 65int,
{
    match piece {
        Piece::Exp => exp_end(toks, pos),
        Piece::Init => init_end(toks, pos),
        Piece::ConstDef => const_def_end(toks, pos),
        Piece::VarDef => var_def_end(toks, pos),
        Piece::Param => param_end(toks, pos),
    }
}

/// What follows a piece of a list: as long as a comma stands there,
/// another piece.
pub open spec fn list_rest(toks: Seq<(Token, Span)>, p: int, piece: Piece) -> Scan
    decreases left(toks, p), 1int,
{
    if at(toks, p) == Some(Token::Comma) {
        match piece_end(toks, p + 1, piece) {
            Err(e) => Err(e),
            Ok(q) => if q > p {
                list_rest(toks, q, piece)
            } else {
                Err(q)
            },
        }
    } else {
        Ok(p)
    }
}

/// A list of one piece or more, and the semicolon after it.
pub open spec fn defs_end(toks: Seq<(Token, Span)>, pos: int, piece: Piece) -> Scan {
    match piece_end(toks, pos, piece) {
        Err(e) => Err(e),
        Ok(p) => match list_rest(toks, p, piece) {
            Err(e) => Err(e),
            Ok(q) => mark_end(toks, q, Token::SemiColon),
        },
    }
}

/// A declaration of constants: `const int` and their definitions.
pub open spec fn const_decl_end(toks: Seq<(Token, Span)>, pos: int) -> Scan {
    match mark_end(toks, pos, Token::Const) {
        Err(e) => Err(e),
        Ok(p) => match mark_end(toks, p, Token::Int) {
            Err(e) => Err(e),
            Ok(q) => defs_end(toks, q, Piece::ConstDef),
        },
    }
}

/// A declaration of variables: `int` and their definitions.
pub open spec fn var_decl_end(toks: Seq<(Token, Span)>, pos: int) -> Scan {
    match mark_end(toks, pos, Token::Int) {
        Err(e) => Err(e),
        Ok(p) => defs_end(toks, p, Piece::VarDef),
    }
}

/// A declaration: of constants where `const` stands, else of variables.
pub open spec fn decl_end(toks: Seq<(Token, Span)>, pos: int) -> Scan {
    if at(toks, pos) == Some(Token::Const) {
        const_decl_end(toks, pos)
    } else {
        var_decl_end(toks, pos)
    }
}

/// An expression and the semicolon after it.
pub open spec fn exp_stmt_end(toks: Seq<(Token, Span)>, pos: int) -> Scan {
    match exp_end(toks, pos) {
        Err(e) => Err(e),
        Ok(p) => mark_end(toks, p, Token::SemiColon),
    }
}

/// An assignment where `=` follows a name with its indices, and an
/// expression statement otherwise.
pub open spec fn assign_or_exp_end(toks: Seq<(Token, Span)>, pos: int) -> Scan {
    match lval_end(toks, pos) {
        Ok(p) => if at(toks, p) == Some(Token::Assign) {
            exp_stmt_end(toks, p + 1)
        } else {
            exp_stmt_end(toks, pos)
        },
        Err(_) => exp_stmt_end(toks, pos),
    }
}

/// The head of an `if` or a `while`: the keyword and the condition in
/// parentheses.
pub open spec fn head_end(toks: Seq<(Token, Span)>, pos: int, word: Token) -> Scan {
    match mark_end(toks, pos, word) {
        Err(e) => Err(e),
        Ok(p) => match mark_end(toks, p, Token::LParen) {
            Err(e) => Err(e),
            Ok(q) => match exp_end(toks, q) {
                Err(e) => Err(e),
                Ok(r) => mark_end(toks, r, Token::RParen),
            },
        },
    }
}

/// `return;` or `return` with a value.
pub open spec fn return_end(toks: Seq<(Token, Span)>, pos: int) -> Scan {
    match mark_end(toks, pos, Token::Return) {
        Err(e) => Err(e),
        Ok(p) => if at(toks, p) == Some(Token::SemiColon) {
            Ok(p + 1)
        } else {
            exp_stmt_end(toks, p)
        },
    }
}

/// A statement.
pub open spec fn stmt_end(toks: Seq<(Token, Span)>, pos: int) -> Scan
    decreases left(toks, pos), 2int,
{
    match at(toks, pos) {
        Some(Token::SemiColon) => Ok(pos + 1),
        Some(Token::LBrace) => block_end(toks, pos),
        Some(Token::If) => match head_end(toks, pos, Token::If) {
            Err(e) => Err(e),
            Ok(p) => if p > pos {
                match stmt_end(toks, p) {
                    Err(e) => Err(e),
                    Ok(q) => if at(toks, q) == Some(Token::Else) {
                        if q > pos {
                            stmt_end(toks, q + 1)
                        } else {
                            Err(q)
                        }
                    } else {
                        Ok(q)
                    },
                }
            } else {
                Err(p)
            },
        },
        Some(Token::While) => match head_end(toks, pos, Token::While) {
            Err(e) => Err(e),
            Ok(p) => if p > pos {
                stmt_end(toks, p)
            } else {
                Err(p)
            },
        },
        Some(Token::Break) | Some(Token::Continue) => mark_end(toks, pos + 1, Token::SemiColon),
        Some(Token::Return) => return_end(toks, pos),
        Some(Token::Ident(_)) => assign_or_exp_end(toks, pos),
        _ => exp_stmt_end(toks, pos),
    }
}

/// A block: its items in braces.
pub open spec fn block_end(toks: Seq<(Token, Span)>, pos: int) -> Scan
    decreases left(toks, pos), 1int,
{
    match mark_end(toks, pos, Token::LBrace) {
        Err(e) => Err(e),
        Ok(p) => items_rest(toks, p),
    }
}

/// An item of a block: a declaration where `const` or `int` stands, and a
/// statement otherwise.
pub open spec fn item_end(toks: Seq<(Token, Span)>, pos: int) -> Scan
    decreases left(toks, pos), 3int,
{
    if at(toks, pos) == Some(Token::Const) || at(toks, pos) == Some(Token::Int) {
        decl_end(toks, pos)
    } else {
        stmt_end(toks, pos)
    }
}

/// The items of a block from `p` on, up to the closing brace.
pub open spec fn items_rest(toks: Seq<(Token, Span)>, p: int) -> Scan
    decreases left(toks, p), 4int,
{
    if at(toks, p) == Some(Token::RBrace) {
        Ok(p + 1)
    } else if at(toks, p) is None {
        Err(p)
    } else {
        match item_end(toks, p) {
            Err(e) => Err(e),
            Ok(q) => if q > p {
                items_rest(toks, q)
            } else {
                Err(q)
            },
        }
    }
}

/// The parameters of a function, up to the closing parenthesis.
pub open spec fn params_end(toks: Seq<(Token, Span)>, pos: int) -> Scan {
    if at(toks, pos) == Some(Token::RParen) {
        Ok(pos)
    } else {
        match param_end(toks, pos) {
            Err(e) => Err(e),
            Ok(p) => list_rest(toks, p, Piece::Param),
        }
    }
}

/// A function: `void` or `int`, a name, the parameters in parentheses, and
/// a block.
pub open spec fn func_end(toks: Seq<(Token, Span)>, pos: int) -> Scan {
    if at(toks, pos) == Some(Token::Void) || at(toks, pos) == Some(Token::Int) {
        match name_end(toks, pos + 1) {
            Err(e) => Err(e),
            Ok(p) => match mark_end(toks, p, Token::LParen) {
                Err(e) => Err(e),
                Ok(q) => match params_end(toks, q) {
                    Err(e) => Err(e),
                    Ok(r) => match mark_end(toks, r, Token::RParen) {
                        Err(e) => Err(e),
                        Ok(s) => block_end(toks, s),
                    },
                },
            },
        }
    } else {
        Err(pos)
    }
}

/// Whether a function starts at `pos`: with `void`, or with `int`, a name
/// and an opening parenthesis.
pub open spec fn starts_func(toks: Seq<(Token, Span)>, pos: int) -> bool {
    at(toks, pos) == Some(Token::Void) || (at(toks, pos) == Some(Token::Int) && (at(
        toks,
        pos + 1,
    ) matches Some(Token::Ident(_))) && at(toks, pos + 2) == Some(Token::LParen))
}

/// An item of the top level: a function or a declaration.
pub open spec fn unit_item_end(toks: Seq<(Token, Span)>, pos: int) -> Scan {
    if starts_func(toks, pos) {
        func_end(toks, pos)
    } else {
        decl_end(toks, pos)
    }
}

/// The items of the top level from `p` on, up to the end of the tokens.
pub open spec fn unit_rest(toks: Seq<(Token, Span)>, p: int) -> Scan
    decreases left(toks, p),
{
    if p < 0 || p >= toks.len() {
        Ok(p)
    } else {
        match unit_item_end(toks, p) {
            Err(e) => Err(e),
            Ok(q) => if q > p {
                unit_rest(toks, q)
            } else {
                Err(q)
            },
        }
    }
}

/// A program: one item of the top level or more, up to the end of the
/// tokens.
pub open spec fn program_end(toks: Seq<(Token, Span)>) -> Scan {
    match unit_item_end(toks, 0) {
        Err(e) => Err(e),
        Ok(p) => unit_rest(toks, p),
    }
}

/// A binary expression of level 0 is a unary expression.
pub proof fn lemma_level_zero(toks: Seq<(Token, Span)>, pos: int)
    ensures
        binary_end(toks, pos, 0) == unary_end(toks, pos),
{
}

/// A piece of a list is what its kind says.
pub proof fn lemma_pieces(toks: Seq<(Token, Span)>, pos: int)
    ensures
        piece_end(toks, pos, Piece::Exp) == exp_end(toks, pos),
        piece_end(toks, pos, Piece::Init) == init_end(toks, pos),
        piece_end(toks, pos, Piece::ConstDef) == const_def_end(toks, pos),
        piece_end(toks, pos, Piece::VarDef) == var_def_end(toks, pos),
        piece_end(toks, pos, Piece::Param) == param_end(toks, pos),
{
}

} // verus!
