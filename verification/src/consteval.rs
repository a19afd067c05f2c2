//! Constant expressions: what an expression is worth at compile time.
//!
//! Arithmetic wraps around in 64 bits; division and remainder truncate
//! toward zero. `&&` and `||` leave their right side alone where the left
//! side decides.

use vstd::prelude::*;
use crate::ast::{
    AddExp, EqExp, Exp, LAndExp, LOrExp, LVal, MulExp, PrimaryExp, RelExp, UnaryExp, UnaryOp,
};
use crate::error::SemanticError;
use crate::ir::BinOp;
use crate::scope::{lookup, Binding, Scopes, Sym, SymbolTable};

verus! {

/// One for true, zero for false.
#[verifier::allow_in_spec]
pub fn truth(b: bool) -> i64
    returns
        (if b {
            1i64
        } else {
            0i64
        }),
{
    if b {
        1
    } else {
        0
    }
}

/// The product, wrapped around in 64 bits.
#[verifier::opaque]
pub open spec fn product(a: i64, b: i64) -> i64 {
    a.wrapping_mul(b)
}

/// The quotient, truncated toward zero; the one quotient that does not fit
/// wraps around to the dividend. Fails on a zero divisor.
#[verifier::opaque]
pub open spec fn quotient(a: i64, b: i64) -> Result<i64, SemanticError> {
    if b == 0 {
        Err(SemanticError::DivisionByZero)
    } else {
        match a.checked_div(b) {
            Some(q) => Ok(q),
            None => Ok(a),
        }
    }
}

/// The remainder of the division that truncates toward zero; zero where
/// the quotient does not fit. Fails on a zero divisor.
#[verifier::opaque]
pub open spec fn remainder(a: i64, b: i64) -> Result<i64, SemanticError> {
    if b == 0 {
        Err(SemanticError::DivisionByZero)
    } else {
        match a.checked_rem(b) {
            Some(r) => Ok(r),
            None => Ok(0i64),
        }
    }
}

fn multiply(a: i64, b: i64) -> (r: i64)
    ensures
        r == product(a, b),
{
    reveal(product);
    a.wrapping_mul(b)
}

fn divide(a: i64, b: i64) -> (r: Result<i64, SemanticError>)
    ensures
        r == quotient(a, b),
{
    reveal(quotient);
    if b == 0 {
        Err(SemanticError::DivisionByZero)
    } else {
        match a.checked_div(b) {
            Some(q) => Ok(q),
            None => Ok(a),
        }
    }
}

fn modulo(a: i64, b: i64) -> (r: Result<i64, SemanticError>)
    ensures
        r == remainder(a, b),
{
    reveal(remainder);
    if b == 0 {
        Err(SemanticError::DivisionByZero)
    } else {
        match a.checked_rem(b) {
            Some(r) => Ok(r),
            None => Ok(0),
        }
    }
}

/// What an expression is worth at compile time: what its one form, the
/// logical or, is worth.
pub closed spec fn const_exp(e: Exp, env: Scopes<Sym>) -> Result<i64, SemanticError>
    decreases e,
{
    match e {
        Exp::LOrExp(inner) => const_lor(*inner, env),
    }
}

/// An expression is worth what the logical or that it consists of is worth.
pub proof fn lemma_const_exp(e: Exp, env: Scopes<Sym>)
    ensures
        const_exp(e, env) == match e {
            Exp::LOrExp(inner) => const_lor(*inner, env),
        },
{
}

pub open spec fn const_lor(e: LOrExp, env: Scopes<Sym>) -> Result<i64, SemanticError>
    decreases e,
{
    match e {
        LOrExp::LAndExp(inner) => const_land(*inner, env),
        LOrExp::Or(l, r) => match const_lor(*l, env) {
            Err(err) => Err(err),
            Ok(a) => if a != 0 {
                Ok(1)
            } else {
                match const_land(*r, env) {
                    Err(err) => Err(err),
                    Ok(b) => Ok(truth(b != 0)),
                }
            },
        },
    }
}

pub open spec fn const_land(e: LAndExp, env: Scopes<Sym>) -> Result<i64, SemanticError>
    decreases e,
{
    match e {
        LAndExp::EqExp(inner) => const_eq(*inner, env),
        LAndExp::And(l, r) => match const_land(*l, env) {
            Err(err) => Err(err),
            Ok(a) => if a == 0 {
                Ok(0)
            } else {
                match const_eq(*r, env) {
                    Err(err) => Err(err),
                    Ok(b) => Ok(truth(b != 0)),
                }
            },
        },
    }
}

/// What a binary operation makes of two numbers.
pub open spec fn apply(op: BinOp, a: i64, b: i64) -> Result<i64, SemanticError> {
    match op {
        BinOp::Add => Ok(a.wrapping_add(b)),
        BinOp::Sub => Ok(a.wrapping_sub(b)),
        BinOp::Mul => Ok(product(a, b)),
        BinOp::Div => quotient(a, b),
        BinOp::Mod => remainder(a, b),
        BinOp::Eq => Ok(truth(a == b)),
        BinOp::Ne => Ok(truth(a != b)),
        BinOp::Lt => Ok(truth(a < b)),
        BinOp::Gt => Ok(truth(a > b)),
        BinOp::Le => Ok(truth(a <= b)),
        BinOp::Ge => Ok(truth(a >= b)),
    }
}

/// What a binary operation makes of two numbers.
pub fn eval_binary(op: BinOp, a: i64, b: i64) -> (r: Result<i64, SemanticError>)
    ensures
        r == apply(op, a, b),
{
    match op {
        BinOp::Add => Ok(a.wrapping_add(b)),
        BinOp::Sub => Ok(a.wrapping_sub(b)),
        BinOp::Mul => Ok(multiply(a, b)),
        BinOp::Div => divide(a, b),
        BinOp::Mod => modulo(a, b),
        BinOp::Eq => Ok(truth(a == b)),
        BinOp::Ne => Ok(truth(a != b)),
        BinOp::Lt => Ok(truth(a < b)),
        BinOp::Gt => Ok(truth(a > b)),
        BinOp::Le => Ok(truth(a <= b)),
        BinOp::Ge => Ok(truth(a >= b)),
    }
}

/// The outcome of a binary operation on the outcomes of its operands, the
/// left one first.
pub open spec fn both(
    op: BinOp,
    l: Result<i64, SemanticError>,
    r: Result<i64, SemanticError>,
) -> Result<i64, SemanticError> {
    match l {
        Err(err) => Err(err),
        Ok(a) => match r {
            Err(err) => Err(err),
            Ok(b) => apply(op, a, b),
        },
    }
}

pub open spec fn const_eq(e: EqExp, env: Scopes<Sym>) -> Result<i64, SemanticError>
    decreases e,
{
    match e {
        EqExp::RelExp(inner) => const_rel(*inner, env),
        EqExp::Eq(l, r) => both(BinOp::Eq, const_eq(*l, env), const_rel(*r, env)),
        EqExp::Neq(l, r) => both(BinOp::Ne, const_eq(*l, env), const_rel(*r, env)),
    }
}

pub open spec fn const_rel(e: RelExp, env: Scopes<Sym>) -> Result<i64, SemanticError>
    decreases e,
{
    match e {
        RelExp::AddExp(inner) => const_add(*inner, env),
        RelExp::Lt(l, r) => both(BinOp::Lt, const_rel(*l, env), const_add(*r, env)),
        RelExp::Gt(l, r) => both(BinOp::Gt, const_rel(*l, env), const_add(*r, env)),
        RelExp::Le(l, r) => both(BinOp::Le, const_rel(*l, env), const_add(*r, env)),
        RelExp::Ge(l, r) => both(BinOp::Ge, const_rel(*l, env), const_add(*r, env)),
    }
}

pub open spec fn const_add(e: AddExp, env: Scopes<Sym>) -> Result<i64, SemanticError>
    decreases e,
{
    match e {
        AddExp::MulExp(inner) => const_mul(*inner, env),
        AddExp::Add(l, r) => both(BinOp::Add, const_add(*l, env), const_mul(*r, env)),
        AddExp::Sub(l, r) => both(BinOp::Sub, const_add(*l, env), const_mul(*r, env)),
    }
}

pub open spec fn const_mul(e: MulExp, env: Scopes<Sym>) -> Result<i64, SemanticError>
    decreases e,
{
    match e {
        MulExp::UnaryExp(inner) => const_unary(*inner, env),
        MulExp::Mul(l, r) => both(BinOp::Mul, const_mul(*l, env), const_unary(*r, env)),
        MulExp::Div(l, r) => both(BinOp::Div, const_mul(*l, env), const_unary(*r, env)),
        MulExp::Mod(l, r) => both(BinOp::Mod, const_mul(*l, env), const_unary(*r, env)),
    }
}

pub open spec fn const_unary(e: UnaryExp, env: Scopes<Sym>) -> Result<i64, SemanticError>
    decreases e,
{
    match e {
        UnaryExp::PrimaryExp(inner) => const_primary(*inner, env),
        UnaryExp::Call(_, _) => Err(SemanticError::NotConstant),
        UnaryExp::UnaryOp(op, inner) => match const_unary(*inner, env) {
            Err(err) => Err(err),
            Ok(v) => match op {
                UnaryOp::Add => Ok(v),
                UnaryOp::Sub => Ok(0i64.wrapping_sub(v)),
                UnaryOp::Not => Ok(truth(v == 0)),
            },
        },
    }
}

pub open spec fn const_primary(e: PrimaryExp, env: Scopes<Sym>) -> Result<i64, SemanticError>
    decreases e,
{
    match e {
        PrimaryExp::Paren(inner) => const_exp(*inner, env),
        PrimaryExp::LVal(lval) => const_lval(lval, env),
        PrimaryExp::Number(n) => Ok(n),
    }
}

/// What a name, with or without indices, is worth: a constant without
/// indices is its value; a constant array with one index for each dimension,
/// all constant and in range, is the element there. Anything else that is
/// declared is not constant.
pub open spec fn const_lval(lval: LVal, env: Scopes<Sym>) -> Result<i64, SemanticError>
    decreases lval,
{
    match lookup(env, lval.ident@) {
        None => Err(SemanticError::UndefinedIdentifier),
        Some(Sym::Const(v)) => if lval.indices@.len() == 0 {
            Ok(v)
        } else {
            Err(SemanticError::NotConstant)
        },
        Some(Sym::ConstArray(dims, values)) => if lval.indices@.len() != dims.len() {
            Err(SemanticError::NotConstant)
        } else {
            match const_offset(lval.indices@, dims, env) {
                Err(err) => Err(err),
                Ok(at) => if at < values.len() {
                    Ok(values[at as int])
                } else {
                    Err(SemanticError::NotConstant)
                },
            }
        },
        Some(_) => Err(SemanticError::NotConstant),
    }
}

/// The place after one more index: `before` places of `dim` elements each,
/// and `i` more. An index outside its dimension, or a place beyond 64 bits,
/// is not constant.
#[verifier::opaque]
pub open spec fn offset_step(before: i64, i: i64, dim: i64) -> Result<i64, SemanticError> {
    if 0 <= i < dim && before * dim + i <= i64::MAX {
        Ok((before * dim + i) as i64)
    } else {
        Err(SemanticError::NotConstant)
    }
}

/// Where in row-major order the element with the given constant indices
/// lies, counting only the dimensions that are indexed.
pub open spec fn const_offset(indices: Seq<Exp>, dims: Seq<i64>, env: Scopes<Sym>) -> Result<
    i64,
    SemanticError,
>
    decreases indices,
{
    if indices.len() == 0 || indices.len() > dims.len() {
        Ok(0)
    } else {
        match const_offset(indices.drop_last(), dims, env) {
            Err(err) => Err(err),
            Ok(before) => match const_exp(indices.last(), env) {
                Err(err) => Err(err),
                Ok(i) => offset_step(before, i, dims[indices.len() - 1]),
            },
        }
    }
}

/// Folds a constant expression to its value. Fails with `NotConstant` where
/// the expression calls a function or names anything but a constant, with
/// `UndefinedIdentifier` where it names nothing, and with `DivisionByZero`
/// where it divides by zero; of several failures, the leftmost.
pub fn eval_const(e: &Exp, table: &SymbolTable) -> (r: Result<i64, SemanticError>)
    requires
        table.wf(),
    ensures
        r == const_exp(*e, table.env()),
    decreases e, 0int,
{
    match e {
        Exp::LOrExp(inner) => eval_lor(inner, table),
    }
}

fn eval_lor(e: &LOrExp, table: &SymbolTable) -> (r: Result<i64, SemanticError>)
    requires
        table.wf(),
    ensures
        r == const_lor(*e, table.env()),
    decreases e, 0int,
{
    match e {
        LOrExp::LAndExp(inner) => eval_land(inner, table),
        LOrExp::Or(l, r) => {
            let a = eval_lor(l, table)?;
            if a != 0 {
                Ok(1)
            } else {
                let b = eval_land(r, table)?;
                Ok(truth(b != 0))
            }
        },
    }
}

fn eval_land(e: &LAndExp, table: &SymbolTable) -> (r: Result<i64, SemanticError>)
    requires
        table.wf(),
    ensures
        r == const_land(*e, table.env()),
    decreases e, 0int,
{
    match e {
        LAndExp::EqExp(inner) => eval_eq(inner, table),
        LAndExp::And(l, r) => {
            let a = eval_land(l, table)?;
            if a == 0 {
                Ok(0)
            } else {
                let b = eval_eq(r, table)?;
                Ok(truth(b != 0))
            }
        },
    }
}

fn eval_eq(e: &EqExp, table: &SymbolTable) -> (r: Result<i64, SemanticError>)
    requires
        table.wf(),
    ensures
        r == const_eq(*e, table.env()),
    decreases e, 0int,
{
    match e {
        EqExp::RelExp(inner) => eval_rel(inner, table),
        EqExp::Eq(l, r) => {
            let a = eval_eq(l, table)?;
            let b = eval_rel(r, table)?;
            Ok(truth(a == b))
        },
        EqExp::Neq(l, r) => {
            let a = eval_eq(l, table)?;
            let b = eval_rel(r, table)?;
            Ok(truth(a != b))
        },
    }
}

fn eval_rel(e: &RelExp, table: &SymbolTable) -> (r: Result<i64, SemanticError>)
    requires
        table.wf(),
    ensures
        r == const_rel(*e, table.env()),
    decreases e, 0int,
{
    match e {
        RelExp::AddExp(inner) => eval_add(inner, table),
        RelExp::Lt(l, r) => {
            let a = eval_rel(l, table)?;
            let b = eval_add(r, table)?;
            Ok(truth(a < b))
        },
        RelExp::Gt(l, r) => {
            let a = eval_rel(l, table)?;
            let b = eval_add(r, table)?;
            Ok(truth(a > b))
        },
        RelExp::Le(l, r) => {
            let a = eval_rel(l, table)?;
            let b = eval_add(r, table)?;
            Ok(truth(a <= b))
        },
        RelExp::Ge(l, r) => {
            let a = eval_rel(l, table)?;
            let b = eval_add(r, table)?;
            Ok(truth(a >= b))
        },
    }
}

fn eval_add(e: &AddExp, table: &SymbolTable) -> (r: Result<i64, SemanticError>)
    requires
        table.wf(),
    ensures
        r == const_add(*e, table.env()),
    decreases e, 0int,
{
    match e {
        AddExp::MulExp(inner) => eval_mul(inner, table),
        AddExp::Add(l, r) => {
            let a = eval_add(l, table)?;
            let b = eval_mul(r, table)?;
            Ok(a.wrapping_add(b))
        },
        AddExp::Sub(l, r) => {
            let a = eval_add(l, table)?;
            let b = eval_mul(r, table)?;
            Ok(a.wrapping_sub(b))
        },
    }
}

fn eval_mul(e: &MulExp, table: &SymbolTable) -> (r: Result<i64, SemanticError>)
    requires
        table.wf(),
    ensures
        r == const_mul(*e, table.env()),
    decreases e, 0int,
{
    match e {
        MulExp::UnaryExp(inner) => eval_unary(inner, table),
        MulExp::Mul(l, r) => {
            let a = eval_mul(l, table)?;
            let b = eval_unary(r, table)?;
            Ok(multiply(a, b))
        },
        MulExp::Div(l, r) => {
            let a = eval_mul(l, table)?;
            let b = eval_unary(r, table)?;
            divide(a, b)
        },
        MulExp::Mod(l, r) => {
            let a = eval_mul(l, table)?;
            let b = eval_unary(r, table)?;
            modulo(a, b)
        },
    }
}

fn eval_unary(e: &UnaryExp, table: &SymbolTable) -> (r: Result<i64, SemanticError>)
    requires
        table.wf(),
    ensures
        r == const_unary(*e, table.env()),
    decreases e, 0int,
{
    match e {
        UnaryExp::PrimaryExp(inner) => eval_primary(inner, table),
        UnaryExp::Call(_, _) => Err(SemanticError::NotConstant),
        UnaryExp::UnaryOp(op, inner) => {
            let v = eval_unary(inner, table)?;
            match op {
                UnaryOp::Add => Ok(v),
                UnaryOp::Sub => Ok(0i64.wrapping_sub(v)),
                UnaryOp::Not => Ok(truth(v == 0)),
            }
        },
    }
}

fn eval_primary(e: &PrimaryExp, table: &SymbolTable) -> (r: Result<i64, SemanticError>)
    requires
        table.wf(),
    ensures
        r == const_primary(*e, table.env()),
    decreases e, 0int,
{
    match e {
        PrimaryExp::Paren(inner) => eval_const(inner, table),
        PrimaryExp::LVal(lval) => eval_lval(lval, table),
        PrimaryExp::Number(n) => Ok(*n),
    }
}

fn eval_lval(lval: &LVal, table: &SymbolTable) -> (r: Result<i64, SemanticError>)
    requires
        table.wf(),
    ensures
        r == const_lval(*lval, table.env()),
    decreases lval, 1int,
{
    match table.resolve(&lval.ident)? {
        Binding::Const(v) => {
            if lval.indices.len() == 0 {
                Ok(*v)
            } else {
                Err(SemanticError::NotConstant)
            }
        },
        Binding::ConstArray(dims, values, _) => {
            if lval.indices.len() != dims.len() {
                return Err(SemanticError::NotConstant);
            }
            let at = eval_offset(&lval.indices, dims, table)?;
            if (at as u64) < (values.len() as u64) {
                Ok(values[at as usize])
            } else {
                Err(SemanticError::NotConstant)
            }
        },
        _ => Err(SemanticError::NotConstant),
    }
}

/// The place after one more index.
fn step_offset(before: i64, i: i64, dim: i64) -> (r: Result<i64, SemanticError>)
    requires
        before >= 0,
    ensures
        r == offset_step(before, i, dim),
        r matches Ok(at) ==> at >= 0,
{
    reveal(offset_step);
    if 0 <= i && i < dim {
        match before.checked_mul(dim) {
            Some(scaled) => {
                proof {
                    assert(before * dim >= 0) by (nonlinear_arith)
                        requires
                            before >= 0,
                            dim >= 0,
                    ;
                }
                match scaled.checked_add(i) {
                    Some(at) => Ok(at),
                    None => Err(SemanticError::NotConstant),
                }
            },
            None => {
                proof {
                    assert(before * dim >= 0) by (nonlinear_arith)
                        requires
                            before >= 0,
                            dim >= 0,
                    ;
                }
                Err(SemanticError::NotConstant)
            },
        }
    } else {
        Err(SemanticError::NotConstant)
    }
}

fn eval_offset(indices: &Vec<Exp>, dims: &Vec<i64>, table: &SymbolTable) -> (r: Result<
    i64,
    SemanticError,
>)
    requires
        table.wf(),
        indices@.len() <= dims@.len(),
    ensures
        r == const_offset(indices@, dims@, table.env()),
        r matches Ok(at) ==> at >= 0,
    decreases indices, 0int,
{
    let ghost env = table.env();
    let mut at: i64 = 0;
    let mut k: usize = 0;
    while k < indices.len()
        invariant
            table.wf(),
            env == table.env(),
            k <= indices@.len() <= dims@.len(),
            at >= 0,
            const_offset(indices@.subrange(0, k as int), dims@, env) == Ok::<i64, SemanticError>(
                at,
            ),
        decreases indices@.len() - k,
    {
        let ghost upto = indices@.subrange(0, k + 1);
        proof {
            assert(upto.drop_last() =~= indices@.subrange(0, k as int));
            assert(upto.last() == indices@[k as int]);
        }
        let value = eval_const(&indices[k], table);
        let stepped = match value {
            Ok(i) => step_offset(at, i, dims[k]),
            Err(err) => Err(err),
        };
        proof {
            assert(const_offset(upto, dims@, env) == stepped);
        }
        match stepped {
            Ok(next) => {
                at = next;
            },
            Err(err) => {
                proof {
                    lemma_offset_error(indices@, dims@, env, k + 1);
                }
                return Err(err);
            },
        }
        k = k + 1;
    }
    proof {
        assert(indices@.subrange(0, k as int) =~= indices@);
    }
    Ok(at)
}

/// Where the offset of the first `n` indices fails, that of all of them
/// fails the same way.
proof fn lemma_offset_error(indices: Seq<Exp>, dims: Seq<i64>, env: Scopes<Sym>, n: int)
    requires
        0 <= n <= indices.len() <= dims.len(),
        const_offset(indices.subrange(0, n), dims, env) is Err,
    ensures
        const_offset(indices, dims, env) == const_offset(indices.subrange(0, n), dims, env),
    decreases indices.len() - n,
{
    if n == indices.len() {
        assert(indices.subrange(0, n) =~= indices);
    } else {
        assert(indices.drop_last().subrange(0, n) =~= indices.subrange(0, n));
        lemma_offset_error(indices.drop_last(), dims, env, n);
    }
}

} // verus!
