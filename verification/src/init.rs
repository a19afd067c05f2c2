//! Initializers: the cells that an initializer gives to a number or to an
//! array, read as constants for constants and globals, and stored one by
//! one for local variables.

use vstd::prelude::*;
use crate::ast::{ConstInitVal, InitVal};
use crate::builder::FunctionBuilder;
use crate::consteval::eval_const;
use crate::error::SemanticError;
use crate::ir::{Inst, Value};
use crate::code_stmt::{code_fill, code_fill_list, constants_stored, stored, zeroed};
use crate::lower::{as_int, grown, lower_exp};
use crate::scope::SymbolTable;
use crate::semantics::{
    cells, const_fill, const_fill_list, global_fill, global_fill_list, local_fill, local_fill_list,
    padded, MAX_CELLS,
};
use crate::shape::{eval_const_exp, Shape};

verus! {

/// Appends zeros until there are `target` cells.
pub fn pad_zeros(out: &mut Vec<i64>, target: u128)
    ensures
        final(out)@ == padded(old(out)@, target as int),
{
    while (out.len() as u128) < target
        invariant
            padded(out@, target as int) == padded(old(out)@, target as int),
        decreases target - out@.len(),
    {
        let ghost before = out@;
        out.push(0);
        proof {
            assert(padded(out@, target as int) =~= padded(before, target as int));
        }
    }
}

/// Whether an initializer list of so many items is too long for the
/// dimension at `level`.
fn too_long(items: usize, shape: &Shape, level: usize) -> (long: bool)
    requires
        shape.wf(),
        level < shape.dims@.len(),
    ensures
        long == (items > shape.dims@[level as int]),
{
    (items as u64) > (shape.dims[level] as u64)
}

/// Appends the cells that a constant initializer gives to the part of the
/// array that is reached after `level` indices.
pub fn fill_const(
    init: &ConstInitVal,
    shape: &Shape,
    level: usize,
    table: &SymbolTable,
    out: &mut Vec<i64>,
) -> (r: Result<(), SemanticError>)
    requires
        table.wf(),
        shape.wf(),
        level <= shape.dims@.len(),
    ensures
        const_fill(
            old(out)@,
            *init,
            shape.dims@.subrange(level as int, shape.dims@.len() as int),
            table.env(),
        ) == match r {
            Ok(()) => Ok(final(out)@),
            Err(e) => Err::<Seq<i64>, SemanticError>(e),
        },
    decreases init, 1int,
{
    let n = shape.dims.len();
    let ghost part = shape.dims@.subrange(level as int, n as int);
    match init {
        ConstInitVal::Exp(c) => {
            if level < n {
                return Err(SemanticError::TypeMismatch);
            }
            let v = eval_const_exp(c, table)?;
            out.push(v);
            Ok(())
        },
        ConstInitVal::Array(items) => {
            if level >= n {
                return Err(SemanticError::TypeMismatch);
            }
            proof {
                assert(part[0] == shape.dims@[level as int]);
                assert(part.drop_first() =~= shape.dims@.subrange(level + 1, n as int));
            }
            if too_long(items.len(), shape, level) {
                return Err(SemanticError::TypeMismatch);
            }
            let target = out.len() as u128 + shape.cells_from(level) as u128;
            fill_const_list(items, shape, level + 1, table, out)?;
            pad_zeros(out, target);
            Ok(())
        },
    }
}

fn fill_const_list(
    items: &Vec<ConstInitVal>,
    shape: &Shape,
    level: usize,
    table: &SymbolTable,
    out: &mut Vec<i64>,
) -> (r: Result<(), SemanticError>)
    requires
        table.wf(),
        shape.wf(),
        level <= shape.dims@.len(),
    ensures
        const_fill_list(
            old(out)@,
            items@,
            shape.dims@.subrange(level as int, shape.dims@.len() as int),
            table.env(),
        ) == match r {
            Ok(()) => Ok(final(out)@),
            Err(e) => Err::<Seq<i64>, SemanticError>(e),
        },
    decreases items, 0int,
{
    let ghost part = shape.dims@.subrange(level as int, shape.dims@.len() as int);
    let ghost all = const_fill_list(old(out)@, items@, part, table.env());
    let mut k: usize = 0;
    proof {
        assert(items@.subrange(0, items@.len() as int) =~= items@);
    }
    while k < items.len()
        invariant
            table.wf(),
            shape.wf(),
            level <= shape.dims@.len(),
            k <= items@.len(),
            part == shape.dims@.subrange(level as int, shape.dims@.len() as int),
            all == const_fill_list(old(out)@, items@, part, table.env()),
            all == const_fill_list(
                out@,
                items@.subrange(k as int, items@.len() as int),
                part,
                table.env(),
            ),
        decreases items@.len() - k,
    {
        proof {
            let rest = items@.subrange(k as int, items@.len() as int);
            assert(rest[0] == items@[k as int]);
            assert(rest.drop_first() =~= items@.subrange(k + 1, items@.len() as int));
        }
        fill_const(&items[k], shape, level, table, out)?;
        k = k + 1;
    }
    Ok(())
}

/// Appends the cells that the initializer of a global variable gives to
/// the part of the array that is reached after `level` indices.
pub fn fill_global(
    init: &InitVal,
    shape: &Shape,
    level: usize,
    table: &SymbolTable,
    out: &mut Vec<i64>,
) -> (r: Result<(), SemanticError>)
    requires
        table.wf(),
        shape.wf(),
        level <= shape.dims@.len(),
    ensures
        global_fill(
            old(out)@,
            *init,
            shape.dims@.subrange(level as int, shape.dims@.len() as int),
            table.env(),
        ) == match r {
            Ok(()) => Ok(final(out)@),
            Err(e) => Err::<Seq<i64>, SemanticError>(e),
        },
    decreases init, 1int,
{
    let n = shape.dims.len();
    let ghost part = shape.dims@.subrange(level as int, n as int);
    match init {
        InitVal::Exp(e) => {
            if level < n {
                return Err(SemanticError::TypeMismatch);
            }
            let v = eval_const(e, table)?;
            out.push(v);
            Ok(())
        },
        InitVal::Array(items) => {
            if level >= n {
                return Err(SemanticError::TypeMismatch);
            }
            proof {
                assert(part[0] == shape.dims@[level as int]);
                assert(part.drop_first() =~= shape.dims@.subrange(level + 1, n as int));
            }
            if too_long(items.len(), shape, level) {
                return Err(SemanticError::TypeMismatch);
            }
            let target = out.len() as u128 + shape.cells_from(level) as u128;
            fill_global_list(items, shape, level + 1, table, out)?;
            pad_zeros(out, target);
            Ok(())
        },
    }
}

fn fill_global_list(
    items: &Vec<InitVal>,
    shape: &Shape,
    level: usize,
    table: &SymbolTable,
    out: &mut Vec<i64>,
) -> (r: Result<(), SemanticError>)
    requires
        table.wf(),
        shape.wf(),
        level <= shape.dims@.len(),
    ensures
        global_fill_list(
            old(out)@,
            items@,
            shape.dims@.subrange(level as int, shape.dims@.len() as int),
            table.env(),
        ) == match r {
            Ok(()) => Ok(final(out)@),
            Err(e) => Err::<Seq<i64>, SemanticError>(e),
        },
    decreases items, 0int,
{
    let ghost part = shape.dims@.subrange(level as int, shape.dims@.len() as int);
    let ghost all = global_fill_list(old(out)@, items@, part, table.env());
    let mut k: usize = 0;
    proof {
        assert(items@.subrange(0, items@.len() as int) =~= items@);
    }
    while k < items.len()
        invariant
            table.wf(),
            shape.wf(),
            level <= shape.dims@.len(),
            k <= items@.len(),
            part == shape.dims@.subrange(level as int, shape.dims@.len() as int),
            all == global_fill_list(old(out)@, items@, part, table.env()),
            all == global_fill_list(
                out@,
                items@.subrange(k as int, items@.len() as int),
                part,
                table.env(),
            ),
        decreases items@.len() - k,
    {
        proof {
            let rest = items@.subrange(k as int, items@.len() as int);
            assert(rest[0] == items@[k as int]);
            assert(rest.drop_first() =~= items@.subrange(k + 1, items@.len() as int));
        }
        fill_global(&items[k], shape, level, table, out)?;
        k = k + 1;
    }
    Ok(())
}

/// Stores `v` in the cell that lies `at` cells after `slot`: appends the
/// address of the cell and the store to it to the current block.
fn store_cell(slot: Value, at: i64, v: Value, b: &mut FunctionBuilder)
    requires
        old(b).inv(),
    ensures
        grown(*old(b), *final(b)),
        final(b).code() == stored(old(b).code(), slot, at, v),
{
    let addr = b.emit(Inst::Offset(slot, Value::Const(at), 1));
    b.emit(Inst::Store(v, addr));
}

/// Stores zero in the cells from `from` up to `to` after `slot`: appends,
/// for one cell after the other, the address of the cell and the store of
/// zero to it to the current block.
fn zero_cells(slot: Value, from: i64, to: i64, b: &mut FunctionBuilder)
    requires
        old(b).inv(),
    ensures
        grown(*old(b), *final(b)),
        final(b).code() == zeroed(old(b).code(), slot, from, to),
{
    let mut at = from;
    while at < to
        invariant
            grown(*old(b), *b),
            from <= at,
            at <= to || at == from,
            b.code() == zeroed(old(b).code(), slot, from, at),
        decreases to - at,
    {
        store_cell(slot, at, Value::Const(0), b);
        at = at + 1;
    }
}

/// Stores the constants in the cells after `slot`, one cell after the
/// other.
pub fn store_constants(slot: Value, values: &Vec<i64>, b: &mut FunctionBuilder)
    requires
        old(b).inv(),
        values@.len() <= MAX_CELLS,
    ensures
        grown(*old(b), *final(b)),
        final(b).code() == constants_stored(old(b).code(), slot, values@, values@.len() as int),
{
    let mut k: usize = 0;
    while k < values.len()
        invariant
            grown(*old(b), *b),
            k <= values@.len() <= MAX_CELLS,
            b.code() == constants_stored(old(b).code(), slot, values@, k as int),
        decreases values@.len() - k,
    {
        store_cell(slot, k as i64, Value::Const(values[k]), b);
        k = k + 1;
    }
}

/// Stores what the initializer of a local variable gives to the part of
/// the array that is reached after `level` indices and starts `at` cells
/// after `slot`; the cells that no item reaches get zero.
pub fn fill_local(
    init: &InitVal,
    shape: &Shape,
    level: usize,
    at: i64,
    slot: Value,
    table: &SymbolTable,
    b: &mut FunctionBuilder,
) -> (r: Result<(), SemanticError>)
    requires
        table.wf(),
        shape.wf(),
        level <= shape.dims@.len(),
        old(b).inv(),
        0 <= at,
        at + cells(shape.dims@.subrange(level as int, shape.dims@.len() as int)) <= MAX_CELLS,
    ensures
        local_fill(
            *init,
            shape.dims@.subrange(level as int, shape.dims@.len() as int),
            table.env(),
        ) == match r {
            Ok(()) => Ok(()),
            Err(e) => Err::<(), SemanticError>(e),
        },
        r is Ok ==> grown(*old(b), *final(b)) && final(b).code() == code_fill(
            *init,
            shape.dims@.subrange(level as int, shape.dims@.len() as int),
            at as int,
            slot,
            table.places(),
            old(b).code(),
        ),
    decreases init, 1int,
{
    let n = shape.dims.len();
    let ghost part = shape.dims@.subrange(level as int, n as int);
    match init {
        InitVal::Exp(e) => {
            if level < n {
                return Err(SemanticError::TypeMismatch);
            }
            let v = lower_exp(e, table, b)?;
            let v = as_int(v)?;
            store_cell(slot, at, v, b);
            Ok(())
        },
        InitVal::Array(items) => {
            if level >= n {
                return Err(SemanticError::TypeMismatch);
            }
            proof {
                assert(part[0] == shape.dims@[level as int]);
                assert(part.drop_first() =~= shape.dims@.subrange(level + 1, n as int));
            }
            if too_long(items.len(), shape, level) {
                return Err(SemanticError::TypeMismatch);
            }
            let want = shape.cells_from(level);
            let step = shape.cells_from(level + 1);
            proof {
                let count = items@.len() as int;
                let dim = shape.dims@[level as int] as int;
                assert(want == dim * step);
                assert(count * step <= dim * step) by (nonlinear_arith)
                    requires
                        0 <= count <= dim,
                        0 <= step,
                ;
            }
            let end = fill_local_list(items, shape, level + 1, at, step, slot, table, b)?;
            zero_cells(slot, end, at + want, b);
            Ok(())
        },
    }
}

/// Stores what the items of an initializer list give, each to its part of
/// `step` cells, and returns where the last part ends.
fn fill_local_list(
    items: &Vec<InitVal>,
    shape: &Shape,
    level: usize,
    at: i64,
    step: i64,
    slot: Value,
    table: &SymbolTable,
    b: &mut FunctionBuilder,
) -> (r: Result<i64, SemanticError>)
    requires
        table.wf(),
        shape.wf(),
        level <= shape.dims@.len(),
        old(b).inv(),
        0 <= at,
        step == cells(shape.dims@.subrange(level as int, shape.dims@.len() as int)),
        0 <= step,
        at + items@.len() * step <= MAX_CELLS,
    ensures
        local_fill_list(
            items@,
            shape.dims@.subrange(level as int, shape.dims@.len() as int),
            table.env(),
        ) == match r {
            Ok(_) => Ok(()),
            Err(e) => Err::<(), SemanticError>(e),
        },
        r matches Ok(end) ==> grown(*old(b), *final(b)) && end == at + items@.len() * step
            && final(b).code() == code_fill_list(
            items@,
            shape.dims@.subrange(level as int, shape.dims@.len() as int),
            at as int,
            slot,
            table.places(),
            old(b).code(),
        ),
    decreases items, 0int,
{
    let ghost part = shape.dims@.subrange(level as int, shape.dims@.len() as int);
    let ghost all = local_fill_list(items@, part, table.env());
    let ghost whole = code_fill_list(items@, part, at as int, slot, table.places(), b.code());
    let mut k: usize = 0;
    let mut pos: i64 = at;
    proof {
        assert(items@.subrange(0, items@.len() as int) =~= items@);
        assert(0 * step == 0) by (nonlinear_arith);
    }
    while k < items.len()
        invariant
            table.wf(),
            shape.wf(),
            level <= shape.dims@.len(),
            k <= items@.len(),
            part == shape.dims@.subrange(level as int, shape.dims@.len() as int),
            step == cells(part),
            0 <= step,
            0 <= at,
            at + items@.len() * step <= MAX_CELLS,
            pos == at + k * step,
            grown(*old(b), *b),
            all == local_fill_list(items@, part, table.env()),
            all == local_fill_list(
                items@.subrange(k as int, items@.len() as int),
                part,
                table.env(),
            ),
            whole == code_fill_list(items@, part, at as int, slot, table.places(), old(b).code()),
            whole == code_fill_list(
                items@.subrange(k as int, items@.len() as int),
                part,
                pos as int,
                slot,
                table.places(),
                b.code(),
            ),
        decreases items@.len() - k,
    {
        proof {
            let rest = items@.subrange(k as int, items@.len() as int);
            assert(rest[0] == items@[k as int]);
            assert(rest.drop_first() =~= items@.subrange(k + 1, items@.len() as int));
            let count = items@.len() as int;
            assert(k * step >= 0 && (k + 1) * step == k * step + step && (k + 1) * step <= count
                * step) by (nonlinear_arith)
                requires
                    0 <= k < count,
                    0 <= step,
            ;
        }
        fill_local(&items[k], shape, level, pos, slot, table, b)?;
        pos = pos + step;
        k = k + 1;
    }
    Ok(pos)
}

} // verus!
