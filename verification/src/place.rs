//! Lowering of what reaches into the symbol table: names with indices, and
//! calls.

use vstd::prelude::*;
use crate::ast::{Exp, FuncType, LVal};
use crate::builder::FunctionBuilder;
use crate::code::{code_args, code_call, code_indices, code_place};
use crate::error::SemanticError;
use crate::ir::{Inst, Value};
use crate::lower::{as_int, grown, lower_exp, lowered};
use crate::scope::{lookup, shapes_view, Binding, ParamShape, Scopes, Sym, SymbolTable};
use crate::semantics::{kind_args, kind_call, kind_indices, kind_lval, ExpKind};

verus! {

/// What a name with indices comes to: a value that is known, or an address
/// in memory, with the kind of what lies there, whether it is the address
/// of one cell, and whether it may be assigned to.
pub struct Place {
    pub value: Value,
    pub kind: ExpKind,
    pub cell: bool,
    pub writable: bool,
}

/// Whether a name stands for something that can be assigned to.
pub open spec fn writable(env: Scopes<Sym>, name: Seq<char>) -> bool {
    lookup(env, name) matches Some(sym) && (sym is Var || sym is Ptr)
}

/// Finds the place that a name with indices comes to: from where the name
/// is stored, one step for each index, as wide as the part of the array
/// that the index counts.
pub fn lower_place(lval: &LVal, table: &SymbolTable, b: &mut FunctionBuilder) -> (r: Result<
    Place,
    SemanticError,
>)
    requires
        table.wf(),
        old(b).inv(),
    ensures
        match r {
            Ok(place) => grown(*old(b), *final(b)) && kind_lval(*lval, table.env()) == Ok::<
                ExpKind,
                SemanticError,
            >(place.kind) && place.writable == writable(table.env(), lval.ident@)
                && (place.cell ==> place.kind == ExpKind::Int) && (final(b).code(), place.value, place.cell)
                == code_place(*lval, table.places(), old(b).code()),
            Err(e) => kind_lval(*lval, table.env()) == Err::<ExpKind, SemanticError>(e),
        },
    decreases lval, 1int,
{
    let given = lval.indices.len();
    let (layout, rests_on_pointer, complete, can_write) = match table.resolve(&lval.ident)? {
        Binding::Func(_, _) => {
            return Err(SemanticError::TypeMismatch);
        },
        Binding::Const(v) => {
            if given > 0 {
                return Err(SemanticError::TypeMismatch);
            }
            return Ok(
                Place { value: Value::Const(*v), kind: ExpKind::Int, cell: false, writable: false },
            );
        },
        Binding::ConstArray(dims, _, layout) => {
            if given > dims.len() {
                return Err(SemanticError::TypeMismatch);
            }
            (layout, false, given == dims.len(), false)
        },
        Binding::Var(dims, layout) => {
            if given > dims.len() {
                return Err(SemanticError::TypeMismatch);
            }
            (layout, false, given == dims.len(), true)
        },
        Binding::Ptr(dims, layout) => {
            if given > 0 && given - 1 > dims.len() {
                return Err(SemanticError::TypeMismatch);
            }
            (layout, true, given > 0 && given - 1 == dims.len(), true)
        },
    };
    let base = if rests_on_pointer {
        b.emit(Inst::Load(layout.slot))
    } else {
        layout.slot
    };
    let value = lower_indices(&lval.indices, &layout.strides, base, table, b)?;
    let kind = if complete {
        ExpKind::Int
    } else {
        ExpKind::Array
    };
    Ok(Place { value, kind, cell: complete, writable: can_write })
}

/// Steps from `base` along the indices, each a number: each index is
/// lowered and then steps by its stride.
fn lower_indices(
    indices: &Vec<Exp>,
    strides: &Vec<i64>,
    base: Value,
    table: &SymbolTable,
    b: &mut FunctionBuilder,
) -> (r: Result<Value, SemanticError>)
    requires
        table.wf(),
        old(b).inv(),
    ensures
        match r {
            Ok(at) => grown(*old(b), *final(b)) && kind_indices(indices@, table.env()) == Ok::<
                (),
                SemanticError,
            >(()) && (final(b).code(), at) == code_indices(
                indices@,
                strides@,
                0,
                base,
                table.places(),
                old(b).code(),
            ),
            Err(e) => kind_indices(indices@, table.env()) == Err::<(), SemanticError>(e),
        },
    decreases indices, 0int,
{
    let ghost whole = code_indices(indices@, strides@, 0, base, table.places(), b.code());
    let mut at = base;
    let mut k: usize = 0;
    proof {
        assert(indices@.subrange(0, indices@.len() as int) =~= indices@);
    }
    while k < indices.len()
        invariant
            table.wf(),
            k <= indices@.len(),
            grown(*old(b), *b),
            kind_indices(indices@, table.env()) == kind_indices(
                indices@.subrange(k as int, indices@.len() as int),
                table.env(),
            ),
            whole == code_indices(indices@, strides@, 0, base, table.places(), old(b).code()),
            whole == code_indices(
                indices@.subrange(k as int, indices@.len() as int),
                strides@,
                k as int,
                at,
                table.places(),
                b.code(),
            ),
        decreases indices@.len() - k,
    {
        proof {
            let rest = indices@.subrange(k as int, indices@.len() as int);
            assert(rest[0] == indices@[k as int]);
            assert(rest.drop_first() =~= indices@.subrange(k + 1, indices@.len() as int));
        }
        let index = lower_exp(&indices[k], table, b)?;
        let index = as_int(index)?;
        let stride = if k < strides.len() {
            strides[k]
        } else {
            1
        };
        at = b.emit(Inst::Offset(at, index, stride));
        k = k + 1;
    }
    Ok(at)
}

pub fn lower_call(name: &String, args: &Vec<Exp>, table: &SymbolTable, b: &mut FunctionBuilder) -> (r:
    Result<(Value, ExpKind), SemanticError>)
    requires
        table.wf(),
        old(b).inv(),
    ensures
        lowered(*old(b), *final(b), r, kind_call(name@, args@, table.env())),
        r matches Ok((v, _)) ==> (final(b).code(), v) == code_call(
            *name,
            args@,
            table.places(),
            old(b).code(),
        ),
    decreases args, 1int,
{
    match table.resolve(name) {
        Ok(Binding::Func(ret, params)) => {
            if args.len() != params.len() {
                return Err(SemanticError::ArgumentCountMismatch);
            }
            lower_args(args, params, table, b)?;
            let v = b.emit(Inst::Call(name.clone(), args.len()));
            let kind = match ret {
                FuncType::Int => ExpKind::Int,
                FuncType::Void => ExpKind::Void,
            };
            Ok((v, kind))
        },
        _ => Err(SemanticError::UndefinedFunction),
    }
}

/// Lowers the arguments of a call and hands each over, in order.
fn lower_args(
    args: &Vec<Exp>,
    params: &Vec<ParamShape>,
    table: &SymbolTable,
    b: &mut FunctionBuilder,
) -> (r: Result<(), SemanticError>)
    requires
        table.wf(),
        old(b).inv(),
        args@.len() == params@.len(),
    ensures
        match r {
            Ok(()) => grown(*old(b), *final(b)) && kind_args(
                args@,
                shapes_view(params@),
                table.env(),
            ) == Ok::<(), SemanticError>(()) && final(b).code() == code_args(
                args@,
                table.places(),
                old(b).code(),
            ),
            Err(e) => kind_args(args@, shapes_view(params@), table.env()) == Err::<
                (),
                SemanticError,
            >(e),
        },
    decreases args, 0int,
{
    let ghost shapes = shapes_view(params@);
    let ghost whole = code_args(args@, table.places(), b.code());
    let mut k: usize = 0;
    proof {
        assert(args@.subrange(0, args@.len() as int) =~= args@);
        assert(shapes.subrange(0, shapes.len() as int) =~= shapes);
    }
    while k < args.len()
        invariant
            table.wf(),
            k <= args@.len(),
            args@.len() == params@.len(),
            shapes == shapes_view(params@),
            grown(*old(b), *b),
            kind_args(args@, shapes, table.env()) == kind_args(
                args@.subrange(k as int, args@.len() as int),
                shapes.subrange(k as int, shapes.len() as int),
                table.env(),
            ),
            whole == code_args(args@, table.places(), old(b).code()),
            whole == code_args(
                args@.subrange(k as int, args@.len() as int),
                table.places(),
                b.code(),
            ),
        decreases args@.len() - k,
    {
        proof {
            let rest = args@.subrange(k as int, args@.len() as int);
            let rest_shapes = shapes.subrange(k as int, shapes.len() as int);
            assert(rest[0] == args@[k as int]);
            assert(rest_shapes[0] == params@[k as int]@);
            assert(rest.drop_first() =~= args@.subrange(k + 1, args@.len() as int));
            assert(rest_shapes.drop_first() =~= shapes.subrange(k + 1, shapes.len() as int));
        }
        let (value, kind) = lower_exp(&args[k], table, b)?;
        let fitting = if params[k].is_array {
            match kind {
                ExpKind::Array => true,
                _ => false,
            }
        } else {
            match kind {
                ExpKind::Int => true,
                _ => false,
            }
        };
        if !fitting {
            return Err(SemanticError::TypeMismatch);
        }
        b.emit(Inst::Arg(value));
        k = k + 1;
    }
    Ok(())
}

} // verus!
