//! Declarations: constants and variables, inside a function and at the top
//! level. A constant number takes no memory; a constant array and a global
//! variable become globals of the module; a local variable gets cells of
//! its function.

use vstd::prelude::*;
use crate::ast::{ConstDef, ConstExp, Decl, InitVal, VarDef};
use crate::builder::FunctionBuilder;
use crate::error::SemanticError;
use crate::code_stmt::{
    code_local_const, code_local_consts, code_local_decl, code_local_var, code_local_vars,
    strides_seq,
};
use crate::init::{fill_const, fill_global, fill_local, pad_zeros, store_constants};
use crate::code_unit::{
    code_global_const, code_global_consts, code_global_decl, code_global_var, code_global_vars,
    globals_view, GlobalView,
};
use crate::ir::{Global, Inst, Value};
use crate::lower::grown;
use crate::scope::{
    lemma_declared_keeps_outer, outer_kept, Binding, Layout, Scopes, Sym, SymbolTable,
};
use crate::semantics::{
    lemma_const_fill_len,
    check_const_def, check_const_defs, check_decl, check_var_def, check_var_defs, var_dims,
    var_name,
};
use crate::shape::{copy_numbers, eval_shape};

verus! {

/// Defines a constant: checks its name, reads its dimensions and its
/// initializer, and declares it.
pub fn lower_const_def(d: &ConstDef, table: &mut SymbolTable, globals: &mut Vec<Global>) -> (r:
    Result<(), SemanticError>)
    requires
        old(table).wf(),
    ensures
        check_const_def(*d, old(table).env()) == match r {
            Ok(()) => Ok(final(table).env()),
            Err(e) => Err::<Scopes<Sym>, SemanticError>(e),
        },
        r is Ok ==> final(table).wf(),
        r is Ok ==> (final(table).places(), globals_view(final(globals)@)) == code_global_const(
            *d,
            old(table).places(),
            globals_view(old(globals)@),
        ),
{
    if table.declares(&d.ident) {
        return Err(SemanticError::DuplicateDeclaration);
    }
    let shape = eval_shape(&d.dimensions, table)?;
    let mut values: Vec<i64> = Vec::new();
    proof {
        table.lemma_places();
        assert(shape.dims@.subrange(0, shape.dims@.len() as int) =~= shape.dims@);
        assert(shape.strides@ =~= strides_seq(shape.dims@));
    }
    fill_const(&d.init_val, &shape, 0, table, &mut values)?;
    let ghost before = globals@;
    let binding = if shape.dims.len() == 0 {
        Binding::Const(values[0])
    } else {
        let slot = Value::Global(globals.len());
        globals.push(Global { name: d.ident.clone(), init: copy_numbers(&values) });
        proof {
            assert(globals_view(globals@) =~= globals_view(before).push(
                GlobalView { name: d.ident@, init: values@ },
            ));
        }
        Binding::ConstArray(shape.dims, values, Layout { slot, strides: shape.strides })
    };
    table.declare(d.ident.clone(), binding)
}

pub fn lower_const_defs(ds: &Vec<ConstDef>, table: &mut SymbolTable, globals: &mut Vec<Global>)
    -> (r: Result<(), SemanticError>)
    requires
        old(table).wf(),
    ensures
        check_const_defs(ds@, old(table).env()) == match r {
            Ok(()) => Ok(final(table).env()),
            Err(e) => Err::<Scopes<Sym>, SemanticError>(e),
        },
        r is Ok ==> final(table).wf(),
        r is Ok ==> (final(table).places(), globals_view(final(globals)@)) == code_global_consts(
            ds@,
            old(table).places(),
            globals_view(old(globals)@),
        ),
{
    let ghost all = check_const_defs(ds@, old(table).env());
    let ghost whole = code_global_consts(ds@, table.places(), globals_view(globals@));
    let mut k: usize = 0;
    proof {
        assert(ds@.subrange(0, ds@.len() as int) =~= ds@);
    }
    while k < ds.len()
        invariant
            table.wf(),
            k <= ds@.len(),
            all == check_const_defs(ds@, old(table).env()),
            all == check_const_defs(ds@.subrange(k as int, ds@.len() as int), table.env()),
            whole == code_global_consts(ds@, old(table).places(), globals_view(old(globals)@)),
            whole == code_global_consts(
                ds@.subrange(k as int, ds@.len() as int),
                table.places(),
                globals_view(globals@),
            ),
        decreases ds@.len() - k,
    {
        proof {
            let rest = ds@.subrange(k as int, ds@.len() as int);
            assert(rest[0] == ds@[k as int]);
            assert(rest.drop_first() =~= ds@.subrange(k + 1, ds@.len() as int));
        }
        lower_const_def(&ds[k], table, globals)?;
        k = k + 1;
    }
    Ok(())
}

/// The name, the dimension expressions and the initializer of a variable
/// definition.
fn var_parts(d: &VarDef) -> (parts: (&String, &Vec<ConstExp>, Option<&InitVal>))
    ensures
        parts.0@ == var_name(*d),
        parts.1@ == var_dims(*d),
        match parts.2 {
            Some(init) => *d matches VarDef::Init(_, _, i) && i == *init,
            None => *d is Uninit,
        },
{
    match d {
        VarDef::Uninit(name, dims) => (name, dims, None),
        VarDef::Init(name, dims, init) => (name, dims, Some(init)),
    }
}

/// Defines a global variable: checks its name, reads its dimensions and
/// its initializer, which has to be constant, and declares it. Without an
/// initializer its cells are zero.
pub fn lower_global_var(d: &VarDef, table: &mut SymbolTable, globals: &mut Vec<Global>) -> (r:
    Result<(), SemanticError>)
    requires
        old(table).wf(),
    ensures
        check_var_def(*d, old(table).env(), true) == match r {
            Ok(()) => Ok(final(table).env()),
            Err(e) => Err::<Scopes<Sym>, SemanticError>(e),
        },
        r is Ok ==> final(table).wf(),
        r is Ok ==> (final(table).places(), globals_view(final(globals)@)) == code_global_var(
            *d,
            old(table).places(),
            globals_view(old(globals)@),
        ),
{
    let (name, dims, init) = var_parts(d);
    if table.declares(name) {
        return Err(SemanticError::DuplicateDeclaration);
    }
    let shape = eval_shape(dims, table)?;
    let mut values: Vec<i64> = Vec::new();
    proof {
        table.lemma_places();
        assert(shape.dims@.subrange(0, shape.dims@.len() as int) =~= shape.dims@);
        assert(shape.strides@ =~= strides_seq(shape.dims@));
    }
    match init {
        Some(init) => {
            fill_global(init, &shape, 0, table, &mut values)?;
        },
        None => {
            pad_zeros(&mut values, shape.cells as u128);
        },
    }
    let slot = Value::Global(globals.len());
    let ghost before = globals@;
    let ghost cells = values@;
    globals.push(Global { name: name.clone(), init: values });
    proof {
        assert(globals_view(globals@) =~= globals_view(before).push(
            GlobalView { name: name@, init: cells },
        ));
    }
    table.declare(name.clone(), Binding::Var(shape.dims, Layout { slot, strides: shape.strides }))
}

pub fn lower_global_vars(ds: &Vec<VarDef>, table: &mut SymbolTable, globals: &mut Vec<Global>)
    -> (r: Result<(), SemanticError>)
    requires
        old(table).wf(),
    ensures
        check_var_defs(ds@, old(table).env(), true) == match r {
            Ok(()) => Ok(final(table).env()),
            Err(e) => Err::<Scopes<Sym>, SemanticError>(e),
        },
        r is Ok ==> final(table).wf(),
        r is Ok ==> (final(table).places(), globals_view(final(globals)@)) == code_global_vars(
            ds@,
            old(table).places(),
            globals_view(old(globals)@),
        ),
{
    let ghost all = check_var_defs(ds@, old(table).env(), true);
    let ghost whole = code_global_vars(ds@, table.places(), globals_view(globals@));
    let mut k: usize = 0;
    proof {
        assert(ds@.subrange(0, ds@.len() as int) =~= ds@);
    }
    while k < ds.len()
        invariant
            table.wf(),
            k <= ds@.len(),
            all == check_var_defs(ds@, old(table).env(), true),
            all == check_var_defs(ds@.subrange(k as int, ds@.len() as int), table.env(), true),
            whole == code_global_vars(ds@, old(table).places(), globals_view(old(globals)@)),
            whole == code_global_vars(
                ds@.subrange(k as int, ds@.len() as int),
                table.places(),
                globals_view(globals@),
            ),
        decreases ds@.len() - k,
    {
        proof {
            let rest = ds@.subrange(k as int, ds@.len() as int);
            assert(rest[0] == ds@[k as int]);
            assert(rest.drop_first() =~= ds@.subrange(k + 1, ds@.len() as int));
        }
        lower_global_var(&ds[k], table, globals)?;
        k = k + 1;
    }
    Ok(())
}

/// Defines a local variable: checks its name, reads its dimensions,
/// reserves its cells, stores what its initializer gives, and declares it.
pub fn lower_local_var(d: &VarDef, table: &mut SymbolTable, b: &mut FunctionBuilder) -> (r: Result<
    (),
    SemanticError,
>)
    requires
        old(table).wf(),
        old(b).inv(),
    ensures
        check_var_def(*d, old(table).env(), false) == match r {
            Ok(()) => Ok(final(table).env()),
            Err(e) => Err::<Scopes<Sym>, SemanticError>(e),
        },
        r is Ok ==> final(table).wf() && grown(*old(b), *final(b)) && outer_kept(
            old(table).places(),
            final(table).places(),
        ) && (final(b).code(), final(table).places()) == code_local_var(
            *d,
            old(table).places(),
            old(b).code(),
        ),
{
    let (name, dims, init) = var_parts(d);
    if table.declares(name) {
        return Err(SemanticError::DuplicateDeclaration);
    }
    let shape = eval_shape(dims, table)?;
    proof {
        table.lemma_places();
        table.lemma_depth();
        assert(shape.dims@.subrange(0, shape.dims@.len() as int) =~= shape.dims@);
        assert(shape.strides@ =~= strides_seq(shape.dims@));
    }
    let slot = b.emit(Inst::Alloc(shape.cells));
    match init {
        Some(init) => {
            fill_local(init, &shape, 0, 0, slot, table, b)?;
        },
        None => {},
    }
    let binding = Binding::Var(shape.dims, Layout { slot, strides: shape.strides });
    proof {
        lemma_declared_keeps_outer(table.places(), name@, binding.placed());
    }
    table.declare(name.clone(), binding)
}

pub fn lower_local_vars(ds: &Vec<VarDef>, table: &mut SymbolTable, b: &mut FunctionBuilder) -> (r:
    Result<(), SemanticError>)
    requires
        old(table).wf(),
        old(b).inv(),
    ensures
        check_var_defs(ds@, old(table).env(), false) == match r {
            Ok(()) => Ok(final(table).env()),
            Err(e) => Err::<Scopes<Sym>, SemanticError>(e),
        },
        r is Ok ==> final(table).wf() && grown(*old(b), *final(b)) && outer_kept(
            old(table).places(),
            final(table).places(),
        ) && (final(b).code(), final(table).places()) == code_local_vars(
            ds@,
            old(table).places(),
            old(b).code(),
        ),
{
    let ghost all = check_var_defs(ds@, old(table).env(), false);
    let ghost whole = code_local_vars(ds@, table.places(), b.code());
    let mut k: usize = 0;
    proof {
        assert(ds@.subrange(0, ds@.len() as int) =~= ds@);
    }
    while k < ds.len()
        invariant
            table.wf(),
            k <= ds@.len(),
            grown(*old(b), *b),
            outer_kept(old(table).places(), table.places()),
            all == check_var_defs(ds@, old(table).env(), false),
            all == check_var_defs(ds@.subrange(k as int, ds@.len() as int), table.env(), false),
            whole == code_local_vars(ds@, old(table).places(), old(b).code()),
            whole == code_local_vars(
                ds@.subrange(k as int, ds@.len() as int),
                table.places(),
                b.code(),
            ),
        decreases ds@.len() - k,
    {
        proof {
            let rest = ds@.subrange(k as int, ds@.len() as int);
            assert(rest[0] == ds@[k as int]);
            assert(rest.drop_first() =~= ds@.subrange(k + 1, ds@.len() as int));
        }
        lower_local_var(&ds[k], table, b)?;
        k = k + 1;
    }
    Ok(())
}

/// Defines a local constant: checks its name, reads its dimensions and
/// its initializer, and declares it. A number takes no memory; an array
/// gets cells of the function, which take its elements.
pub fn lower_local_const(d: &ConstDef, table: &mut SymbolTable, b: &mut FunctionBuilder) -> (r:
    Result<(), SemanticError>)
    requires
        old(table).wf(),
        old(b).inv(),
    ensures
        check_const_def(*d, old(table).env()) == match r {
            Ok(()) => Ok(final(table).env()),
            Err(e) => Err::<Scopes<Sym>, SemanticError>(e),
        },
        r is Ok ==> final(table).wf() && grown(*old(b), *final(b)) && outer_kept(
            old(table).places(),
            final(table).places(),
        ) && (final(b).code(), final(table).places()) == code_local_const(
            *d,
            old(table).places(),
            old(b).code(),
        ),
{
    if table.declares(&d.ident) {
        return Err(SemanticError::DuplicateDeclaration);
    }
    let shape = eval_shape(&d.dimensions, table)?;
    let mut values: Vec<i64> = Vec::new();
    proof {
        table.lemma_places();
        table.lemma_depth();
        assert(shape.dims@.subrange(0, shape.dims@.len() as int) =~= shape.dims@);
        assert(shape.strides@ =~= strides_seq(shape.dims@));
    }
    fill_const(&d.init_val, &shape, 0, table, &mut values)?;
    proof {
        lemma_const_fill_len(Seq::empty(), d.init_val, shape.dims@, table.env());
    }
    let binding = if shape.dims.len() == 0 {
        Binding::Const(values[0])
    } else {
        let slot = b.emit(Inst::Alloc(shape.cells));
        store_constants(slot, &values, b);
        Binding::ConstArray(shape.dims, values, Layout { slot, strides: shape.strides })
    };
    proof {
        lemma_declared_keeps_outer(table.places(), d.ident@, binding.placed());
    }
    table.declare(d.ident.clone(), binding)
}

pub fn lower_local_consts(ds: &Vec<ConstDef>, table: &mut SymbolTable, b: &mut FunctionBuilder)
    -> (r: Result<(), SemanticError>)
    requires
        old(table).wf(),
        old(b).inv(),
    ensures
        check_const_defs(ds@, old(table).env()) == match r {
            Ok(()) => Ok(final(table).env()),
            Err(e) => Err::<Scopes<Sym>, SemanticError>(e),
        },
        r is Ok ==> final(table).wf() && grown(*old(b), *final(b)) && outer_kept(
            old(table).places(),
            final(table).places(),
        ) && (final(b).code(), final(table).places()) == code_local_consts(
            ds@,
            old(table).places(),
            old(b).code(),
        ),
{
    let ghost all = check_const_defs(ds@, old(table).env());
    let ghost whole = code_local_consts(ds@, table.places(), b.code());
    let mut k: usize = 0;
    proof {
        assert(ds@.subrange(0, ds@.len() as int) =~= ds@);
    }
    while k < ds.len()
        invariant
            table.wf(),
            k <= ds@.len(),
            grown(*old(b), *b),
            outer_kept(old(table).places(), table.places()),
            all == check_const_defs(ds@, old(table).env()),
            all == check_const_defs(ds@.subrange(k as int, ds@.len() as int), table.env()),
            whole == code_local_consts(ds@, old(table).places(), old(b).code()),
            whole == code_local_consts(
                ds@.subrange(k as int, ds@.len() as int),
                table.places(),
                b.code(),
            ),
        decreases ds@.len() - k,
    {
        proof {
            let rest = ds@.subrange(k as int, ds@.len() as int);
            assert(rest[0] == ds@[k as int]);
            assert(rest.drop_first() =~= ds@.subrange(k + 1, ds@.len() as int));
        }
        lower_local_const(&ds[k], table, b)?;
        k = k + 1;
    }
    Ok(())
}

/// Lowers a declaration inside a function.
pub fn lower_local_decl(d: &Decl, table: &mut SymbolTable, b: &mut FunctionBuilder) -> (r: Result<
    (),
    SemanticError,
>)
    requires
        old(table).wf(),
        old(b).inv(),
    ensures
        check_decl(*d, old(table).env(), false) == match r {
            Ok(()) => Ok(final(table).env()),
            Err(e) => Err::<Scopes<Sym>, SemanticError>(e),
        },
        r is Ok ==> final(table).wf() && grown(*old(b), *final(b)) && outer_kept(
            old(table).places(),
            final(table).places(),
        ) && (final(b).code(), final(table).places()) == code_local_decl(
            *d,
            old(table).places(),
            old(b).code(),
        ),
{
    match d {
        Decl::ConstDecl(c) => lower_local_consts(&c.const_defs, table, b),
        Decl::VarDecl(v) => lower_local_vars(&v.var_defs, table, b),
    }
}

/// Lowers a declaration at the top level.
pub fn lower_global_decl(d: &Decl, table: &mut SymbolTable, globals: &mut Vec<Global>) -> (r:
    Result<(), SemanticError>)
    requires
        old(table).wf(),
    ensures
        check_decl(*d, old(table).env(), true) == match r {
            Ok(()) => Ok(final(table).env()),
            Err(e) => Err::<Scopes<Sym>, SemanticError>(e),
        },
        r is Ok ==> final(table).wf(),
        r is Ok ==> (final(table).places(), globals_view(final(globals)@)) == code_global_decl(
            *d,
            old(table).places(),
            globals_view(old(globals)@),
        ),
{
    match d {
        Decl::ConstDecl(c) => lower_const_defs(&c.const_defs, table, globals),
        Decl::VarDecl(v) => lower_global_vars(&v.var_defs, table, globals),
    }
}

} // verus!
