//! Lowering: from the syntax tree to the intermediate representation, with
//! the static rules checked on the way. A program is lowered if and only if
//! the rules accept it; otherwise the first thing wrong with it is reported.

use vstd::prelude::*;
use crate::ast::{
    AddExp, EqExp, Exp, LAndExp, LOrExp, MulExp, PrimaryExp, RelExp, UnaryExp, UnaryOp,
};
use crate::builder::FunctionBuilder;
use crate::code::{
    binary_code, code_add, code_eq, code_exp, code_land, code_lor, code_mul, code_primary,
    code_rel, code_unary, folded, lemma_code_exp,
};
use crate::consteval::eval_binary;
use crate::error::SemanticError;
use crate::ir::{BinOp, Inst, Value};
use crate::place::{lower_call, lower_place};
use crate::scope::SymbolTable;
use crate::semantics::{
    kind_add, kind_eq, kind_exp, kind_land, kind_lor, kind_mul, kind_primary, kind_rel, kind_unary,
    lemma_kind_exp, ExpKind,
};

verus! {

/// Whether `after` is a later state of the function that `before` is a
/// state of, with the same blocks waiting.
pub open spec fn grown(before: FunctionBuilder, after: FunctionBuilder) -> bool {
    &&& after.inv()
    &&& after.pending() == before.pending()
    &&& after.len() >= before.len()
}

/// Whether `r` is the outcome of lowering an expression that the rules
/// give the outcome `rule`: a value of the kind that the rules give, or the
/// error that they give.
pub open spec fn lowered(
    before: FunctionBuilder,
    after: FunctionBuilder,
    r: Result<(Value, ExpKind), SemanticError>,
    rule: Result<ExpKind, SemanticError>,
) -> bool {
    match r {
        Ok((_, k)) => grown(before, after) && rule == Ok::<ExpKind, SemanticError>(k),
        Err(e) => rule == Err::<ExpKind, SemanticError>(e),
    }
}

/// The value, where it is a number.
pub fn as_int(operand: (Value, ExpKind)) -> (r: Result<Value, SemanticError>)
    ensures
        r == match operand.1 {
            ExpKind::Int => Ok(operand.0),
            _ => Err::<Value, SemanticError>(SemanticError::TypeMismatch),
        },
{
    match operand.1 {
        ExpKind::Int => Ok(operand.0),
        _ => Err(SemanticError::TypeMismatch),
    }
}

/// Yields the outcome of a binary operation: the constant that it is
/// known to yield, or else the result of an instruction that is appended
/// to the current block.
pub fn emit_binary(op: BinOp, l: Value, r: Value, b: &mut FunctionBuilder) -> (v: Value)
    requires
        old(b).inv(),
    ensures
        grown(*old(b), *final(b)),
        final(b).current() == old(b).current(),
        (final(b).code(), v) == binary_code(old(b).code(), op, l, r),
        match folded(op, l, r) {
            Some(c) => v == Value::Const(c) && final(b)@ == old(b)@,
            None => final(b)@ == old(b)@.update(
                old(b).current(),
                old(b)@[old(b).current()].push(Inst::Binary(op, l, r)),
            ) && v == Value::Temp(
                old(b).current() as usize,
                old(b)@[old(b).current()].len() as usize,
            ),
        },
{
    match (l, r) {
        (Value::Const(x), Value::Const(y)) => match eval_binary(op, x, y) {
            Ok(c) => Value::Const(c),
            Err(_) => b.emit(Inst::Binary(op, l, r)),
        },
        _ => b.emit(Inst::Binary(op, l, r)),
    }
}

pub fn lower_exp(e: &Exp, table: &SymbolTable, b: &mut FunctionBuilder) -> (r: Result<
    (Value, ExpKind),
    SemanticError,
>)
    requires
        table.wf(),
        old(b).inv(),
    ensures
        lowered(*old(b), *final(b), r, kind_exp(*e, table.env())),
        r matches Ok((v, _)) ==> (final(b).code(), v) == code_exp(
            *e,
            table.places(),
            old(b).code(),
        ),
    decreases e, 0int,
{
    proof {
        lemma_kind_exp(*e, table.env());
        lemma_code_exp(*e, table.places(), old(b).code());
    }
    match e {
        Exp::LOrExp(inner) => lower_lor(inner, table, b),
    }
}

/// Lowers a logical or. The result of `l || r` is kept in a cell that
/// first holds one; the right side is lowered in a block of its own, which
/// the branch on the left side reaches only where the left side is zero.
fn lower_lor(e: &LOrExp, table: &SymbolTable, b: &mut FunctionBuilder) -> (r: Result<
    (Value, ExpKind),
    SemanticError,
>)
    requires
        table.wf(),
        old(b).inv(),
    ensures
        lowered(*old(b), *final(b), r, kind_lor(*e, table.env())),
        r matches Ok((v, _)) ==> (final(b).code(), v) == code_lor(
            *e,
            table.places(),
            old(b).code(),
        ),
    decreases e, 0int,
{
    match e {
        LOrExp::LAndExp(inner) => lower_land(inner, table, b),
        LOrExp::Or(l, r) => {
            let left = lower_lor(l, table, b)?;
            let left = as_int(left)?;
            let cell = b.emit(Inst::Alloc(1));
            b.emit(Inst::Store(Value::Const(1), cell));
            let ghost waiting = b.pending();
            let rhs = b.new_block();
            let end = b.new_block();
            b.terminate(Inst::Branch(left, end, rhs), rhs);
            proof {
                assert(b.pending() =~= waiting.insert(end as int));
            }
            let right = lower_land(r, table, b)?;
            let right = as_int(right)?;
            let truth = emit_binary(BinOp::Ne, right, Value::Const(0), b);
            b.emit(Inst::Store(truth, cell));
            b.terminate(Inst::Jump(end), end);
            proof {
                assert(b.pending() =~= waiting);
            }
            let v = b.emit(Inst::Load(cell));
            Ok((v, ExpKind::Int))
        },
    }
}

/// Lowers a logical and. The result of `l && r` is kept in a cell that
/// first holds zero; the right side is lowered in a block of its own, which
/// the branch on the left side reaches only where the left side is not
/// zero.
fn lower_land(e: &LAndExp, table: &SymbolTable, b: &mut FunctionBuilder) -> (r: Result<
    (Value, ExpKind),
    SemanticError,
>)
    requires
        table.wf(),
        old(b).inv(),
    ensures
        lowered(*old(b), *final(b), r, kind_land(*e, table.env())),
        r matches Ok((v, _)) ==> (final(b).code(), v) == code_land(
            *e,
            table.places(),
            old(b).code(),
        ),
    decreases e, 0int,
{
    match e {
        LAndExp::EqExp(inner) => lower_eq(inner, table, b),
        LAndExp::And(l, r) => {
            let left = lower_land(l, table, b)?;
            let left = as_int(left)?;
            let cell = b.emit(Inst::Alloc(1));
            b.emit(Inst::Store(Value::Const(0), cell));
            let ghost waiting = b.pending();
            let rhs = b.new_block();
            let end = b.new_block();
            b.terminate(Inst::Branch(left, rhs, end), rhs);
            proof {
                assert(b.pending() =~= waiting.insert(end as int));
            }
            let right = lower_eq(r, table, b)?;
            let right = as_int(right)?;
            let truth = emit_binary(BinOp::Ne, right, Value::Const(0), b);
            b.emit(Inst::Store(truth, cell));
            b.terminate(Inst::Jump(end), end);
            proof {
                assert(b.pending() =~= waiting);
            }
            let v = b.emit(Inst::Load(cell));
            Ok((v, ExpKind::Int))
        },
    }
}

fn lower_eq(e: &EqExp, table: &SymbolTable, b: &mut FunctionBuilder) -> (r: Result<
    (Value, ExpKind),
    SemanticError,
>)
    requires
        table.wf(),
        old(b).inv(),
    ensures
        lowered(*old(b), *final(b), r, kind_eq(*e, table.env())),
        r matches Ok((v, _)) ==> (final(b).code(), v) == code_eq(
            *e,
            table.places(),
            old(b).code(),
        ),
    decreases e, 0int,
{
    let (op, l, r) = match e {
        EqExp::RelExp(inner) => {
            return lower_rel(inner, table, b);
        },
        EqExp::Eq(l, r) => (BinOp::Eq, l, r),
        EqExp::Neq(l, r) => (BinOp::Ne, l, r),
    };
    let left = lower_eq(l, table, b)?;
    let left = as_int(left)?;
    let right = lower_rel(r, table, b)?;
    let right = as_int(right)?;
    let v = emit_binary(op, left, right, b);
    Ok((v, ExpKind::Int))
}

fn lower_rel(e: &RelExp, table: &SymbolTable, b: &mut FunctionBuilder) -> (r: Result<
    (Value, ExpKind),
    SemanticError,
>)
    requires
        table.wf(),
        old(b).inv(),
    ensures
        lowered(*old(b), *final(b), r, kind_rel(*e, table.env())),
        r matches Ok((v, _)) ==> (final(b).code(), v) == code_rel(
            *e,
            table.places(),
            old(b).code(),
        ),
    decreases e, 0int,
{
    let (op, l, r) = match e {
        RelExp::AddExp(inner) => {
            return lower_add(inner, table, b);
        },
        RelExp::Lt(l, r) => (BinOp::Lt, l, r),
        RelExp::Gt(l, r) => (BinOp::Gt, l, r),
        RelExp::Le(l, r) => (BinOp::Le, l, r),
        RelExp::Ge(l, r) => (BinOp::Ge, l, r),
    };
    let left = lower_rel(l, table, b)?;
    let left = as_int(left)?;
    let right = lower_add(r, table, b)?;
    let right = as_int(right)?;
    let v = emit_binary(op, left, right, b);
    Ok((v, ExpKind::Int))
}

fn lower_add(e: &AddExp, table: &SymbolTable, b: &mut FunctionBuilder) -> (r: Result<
    (Value, ExpKind),
    SemanticError,
>)
    requires
        table.wf(),
        old(b).inv(),
    ensures
        lowered(*old(b), *final(b), r, kind_add(*e, table.env())),
        r matches Ok((v, _)) ==> (final(b).code(), v) == code_add(
            *e,
            table.places(),
            old(b).code(),
        ),
    decreases e, 0int,
{
    let (op, l, r) = match e {
        AddExp::MulExp(inner) => {
            return lower_mul(inner, table, b);
        },
        AddExp::Add(l, r) => (BinOp::Add, l, r),
        AddExp::Sub(l, r) => (BinOp::Sub, l, r),
    };
    let left = lower_add(l, table, b)?;
    let left = as_int(left)?;
    let right = lower_mul(r, table, b)?;
    let right = as_int(right)?;
    let v = emit_binary(op, left, right, b);
    Ok((v, ExpKind::Int))
}

fn lower_mul(e: &MulExp, table: &SymbolTable, b: &mut FunctionBuilder) -> (r: Result<
    (Value, ExpKind),
    SemanticError,
>)
    requires
        table.wf(),
        old(b).inv(),
    ensures
        lowered(*old(b), *final(b), r, kind_mul(*e, table.env())),
        r matches Ok((v, _)) ==> (final(b).code(), v) == code_mul(
            *e,
            table.places(),
            old(b).code(),
        ),
    decreases e, 0int,
{
    let (op, l, r) = match e {
        MulExp::UnaryExp(inner) => {
            return lower_unary(inner, table, b);
        },
        MulExp::Mul(l, r) => (BinOp::Mul, l, r),
        MulExp::Div(l, r) => (BinOp::Div, l, r),
        MulExp::Mod(l, r) => (BinOp::Mod, l, r),
    };
    let left = lower_mul(l, table, b)?;
    let left = as_int(left)?;
    let right = lower_unary(r, table, b)?;
    let right = as_int(right)?;
    let v = emit_binary(op, left, right, b);
    Ok((v, ExpKind::Int))
}

fn lower_unary(e: &UnaryExp, table: &SymbolTable, b: &mut FunctionBuilder) -> (r: Result<
    (Value, ExpKind),
    SemanticError,
>)
    requires
        table.wf(),
        old(b).inv(),
    ensures
        lowered(*old(b), *final(b), r, kind_unary(*e, table.env())),
        r matches Ok((v, _)) ==> (final(b).code(), v) == code_unary(
            *e,
            table.places(),
            old(b).code(),
        ),
    decreases e, 0int,
{
    match e {
        UnaryExp::PrimaryExp(inner) => lower_primary(inner, table, b),
        UnaryExp::Call(name, args) => lower_call(name, args, table, b),
        UnaryExp::UnaryOp(op, inner) => {
            let operand = lower_unary(inner, table, b)?;
            let operand = as_int(operand)?;
            let v = match op {
                UnaryOp::Add => operand,
                UnaryOp::Sub => emit_binary(BinOp::Sub, Value::Const(0), operand, b),
                UnaryOp::Not => emit_binary(BinOp::Eq, operand, Value::Const(0), b),
            };
            Ok((v, ExpKind::Int))
        },
    }
}

fn lower_primary(e: &PrimaryExp, table: &SymbolTable, b: &mut FunctionBuilder) -> (r: Result<
    (Value, ExpKind),
    SemanticError,
>)
    requires
        table.wf(),
        old(b).inv(),
    ensures
        lowered(*old(b), *final(b), r, kind_primary(*e, table.env())),
        r matches Ok((v, _)) ==> (final(b).code(), v) == code_primary(
            *e,
            table.places(),
            old(b).code(),
        ),
    decreases e, 0int,
{
    match e {
        PrimaryExp::Paren(inner) => lower_exp(inner, table, b),
        PrimaryExp::LVal(lval) => {
            let place = lower_place(lval, table, b)?;
            if place.cell {
                let v = b.emit(Inst::Load(place.value));
                Ok((v, ExpKind::Int))
            } else {
                Ok((place.value, place.kind))
            }
        },
        PrimaryExp::Number(n) => Ok((Value::Const(*n), ExpKind::Int)),
    }
}

} // verus!
