//! Lowering of functions and of whole compilation units.

use vstd::prelude::*;
use crate::ast::{BlockItem, CompUnit, DeclOrFuncDef, FuncDef, FuncFParam, FuncType, Stmt};
use crate::builder::{Code, FunctionBuilder};
use crate::code_unit::{
    code_func, code_params, code_program, code_unit, func_placed, function_view, functions_view,
    globals_view, last_return, module_view, nothing_lowered, param_placed, signature_of,
    FunctionView, GlobalView, Lowered, ModuleView, Signature,
};
use crate::code_stmt::strides_seq;
use crate::decl::lower_global_decl;
use crate::error::SemanticError;
use crate::ir::{blocks_well_formed, module_well_formed, Function, Global, Inst, Module, Value};
use crate::loops::LoopStack;
use crate::lower::grown;
use crate::scope::{
    declared, entered, lemma_declared_keeps_outer, outer_kept, shapes_view, Binding, Layout,
    ParamShape, ParamSym, Scopes, Sym, SymbolTable,
};
use crate::semantics::{
    check_func, check_program, check_unit, declare_params, lemma_declared_outer, param_shape,
    param_sym, param_syms, shapes_after,
};
use crate::shape::{copy_numbers, eval_shape};
use crate::stmt::lower_block;

verus! {

/// The signatures of the functions of a module, in order.
pub open spec fn signatures(functions: Seq<Function>) -> Seq<Signature> {
    Seq::new(
        functions.len(),
        |i: int|
            Signature {
                name: functions[i].name@,
                ret: functions[i].ret,
                params: functions[i].params as nat,
            },
    )
}

/// The signatures of the functions that a compilation unit defines before
/// its last item.
pub open spec fn defined_before(u: CompUnit) -> Seq<Signature>
    decreases u, 0int,
{
    match u.prev_unit {
        Some(prev) => defined_functions(*prev),
        None => Seq::empty(),
    }
}

/// The signatures of the functions that a compilation unit defines, in the
/// order of the source text.
pub open spec fn defined_functions(u: CompUnit) -> Seq<Signature>
    decreases u, 1int,
{
    let before = defined_before(u);
    match u.cur_unit {
        DeclOrFuncDef::Decl(_) => before,
        DeclOrFuncDef::FuncDef(f) => before.push(signature_of(*f)),
    }
}

/// How a parameter is reached in the body: an array parameter by the
/// strides of its indices, the first as wide as all listed dimensions
/// together.
pub struct ParamLayout {
    pub shape: ParamShape,
    pub strides: Vec<i64>,
}

/// Reads the shape of one parameter.
fn read_param(p: &FuncFParam, table: &SymbolTable) -> (r: Result<
    (ParamShape, ParamLayout),
    SemanticError,
>)
    requires
        table.wf(),
    ensures
        match r {
            Ok((shape, layout)) => param_shape(*p, table.env()) == Ok::<ParamSym, SemanticError>(
                shape@,
            ) && layout.shape@ == shape@ && layout.strides@ == param_placed(
                shape@,
                Value::Const(0),
            ).strides,
            Err(e) => param_shape(*p, table.env()) == Err::<ParamSym, SemanticError>(e),
        },
{
    if p.is_array {
        let shape = eval_shape(&p.dimensions, table)?;
        let mut strides: Vec<i64> = Vec::new();
        strides.push(shape.cells);
        let mut k: usize = 0;
        while k < shape.strides.len()
            invariant
                k <= shape.strides@.len(),
                strides@ == seq![shape.cells] + shape.strides@.subrange(0, k as int),
            decreases shape.strides@.len() - k,
        {
            strides.push(shape.strides[k]);
            proof {
                assert(strides@ =~= seq![shape.cells] + shape.strides@.subrange(0, k + 1));
            }
            k = k + 1;
        }
        proof {
            assert(shape.strides@.subrange(0, k as int) =~= shape.strides@);
            assert(shape.strides@ =~= strides_seq(shape.dims@));
        }
        let dims = copy_numbers(&shape.dims);
        Ok(
            (
                ParamShape { is_array: true, dims },
                ParamLayout { shape: ParamShape { is_array: true, dims: shape.dims }, strides },
            ),
        )
    } else {
        Ok(
            (
                ParamShape { is_array: false, dims: Vec::new() },
                ParamLayout {
                    shape: ParamShape { is_array: false, dims: Vec::new() },
                    strides: Vec::new(),
                },
            ),
        )
    }
}

/// Reads the shapes of the parameters.
fn read_params(ps: &Vec<FuncFParam>, table: &SymbolTable) -> (r: Result<
    (Vec<ParamShape>, Vec<ParamLayout>),
    SemanticError,
>)
    requires
        table.wf(),
    ensures
        match r {
            Ok((shapes, layouts)) => {
                &&& param_syms(ps@, table.env()) == Ok::<Seq<ParamSym>, SemanticError>(
                    shapes_view(shapes@),
                )
                &&& shapes@.len() == ps@.len()
                &&& layouts@.len() == ps@.len()
                &&& forall|i: int|
                    0 <= i < ps@.len() ==> (#[trigger] layouts@[i]).shape@ == shapes@[i]@
                        && layouts@[i].strides@ == param_placed(
                        shapes@[i]@,
                        Value::Const(0),
                    ).strides
            },
            Err(e) => param_syms(ps@, table.env()) == Err::<Seq<ParamSym>, SemanticError>(e),
        },
{
    let mut shapes: Vec<ParamShape> = Vec::new();
    let mut layouts: Vec<ParamLayout> = Vec::new();
    let mut k: usize = 0;
    proof {
        assert(ps@.subrange(0, ps@.len() as int) =~= ps@);
        assert(shapes_view(shapes@) =~= Seq::<ParamSym>::empty());
    }
    while k < ps.len()
        invariant
            table.wf(),
            k <= ps@.len(),
            shapes@.len() == k,
            layouts@.len() == k,
            forall|i: int|
                0 <= i < k ==> (#[trigger] layouts@[i]).shape@ == shapes@[i]@
                    && layouts@[i].strides@ == param_placed(shapes@[i]@, Value::Const(0)).strides,
            param_syms(ps@, table.env()) == shapes_after(
                shapes_view(shapes@),
                ps@.subrange(k as int, ps@.len() as int),
                table.env(),
            ),
        decreases ps@.len() - k,
    {
        proof {
            let rest = ps@.subrange(k as int, ps@.len() as int);
            assert(rest[0] == ps@[k as int]);
            assert(rest.drop_first() =~= ps@.subrange(k + 1, ps@.len() as int));
        }
        let ghost before = shapes@;
        let (shape, layout) = read_param(&ps[k], table)?;
        shapes.push(shape);
        layouts.push(layout);
        proof {
            assert(shapes_view(shapes@) =~= shapes_view(before).push(shape@));
        }
        k = k + 1;
    }
    Ok((shapes, layouts))
}

/// Gives each parameter a cell, stores the argument there, and declares
/// the parameter in the innermost scope.
fn declare_all(
    ps: &Vec<FuncFParam>,
    layouts: &Vec<ParamLayout>,
    Ghost(shapes): Ghost<Seq<ParamSym>>,
    table: &mut SymbolTable,
    b: &mut FunctionBuilder,
) -> (r: Result<(), SemanticError>)
    requires
        old(table).wf(),
        old(b).inv(),
        layouts@.len() == ps@.len(),
        shapes.len() == ps@.len(),
        forall|i: int|
            0 <= i < ps@.len() ==> (#[trigger] layouts@[i]).shape@ == shapes[i]
                && layouts@[i].strides@ == param_placed(shapes[i], Value::Const(0)).strides,
    ensures
        declare_params(ps@, shapes, old(table).env()) == match r {
            Ok(()) => Ok(final(table).env()),
            Err(e) => Err::<Scopes<Sym>, SemanticError>(e),
        },
        r is Ok ==> final(table).wf() && grown(*old(b), *final(b)) && outer_kept(
            old(table).places(),
            final(table).places(),
        ) && (final(b).code(), final(table).places()) == code_params(
            ps@,
            shapes,
            0,
            old(table).places(),
            old(b).code(),
        ),
{
    let ghost all = declare_params(ps@, shapes, old(table).env());
    let ghost whole = code_params(ps@, shapes, 0, table.places(), b.code());
    let mut k: usize = 0;
    proof {
        assert(ps@.subrange(0, ps@.len() as int) =~= ps@);
        assert(shapes.subrange(0, shapes.len() as int) =~= shapes);
    }
    while k < ps.len()
        invariant
            table.wf(),
            k <= ps@.len(),
            layouts@.len() == ps@.len(),
            shapes.len() == ps@.len(),
            forall|i: int|
                0 <= i < ps@.len() ==> (#[trigger] layouts@[i]).shape@ == shapes[i]
                    && layouts@[i].strides@ == param_placed(shapes[i], Value::Const(0)).strides,
            grown(*old(b), *b),
            outer_kept(old(table).places(), table.places()),
            all == declare_params(ps@, shapes, old(table).env()),
            all == declare_params(
                ps@.subrange(k as int, ps@.len() as int),
                shapes.subrange(k as int, shapes.len() as int),
                table.env(),
            ),
            whole == code_params(ps@, shapes, 0, old(table).places(), old(b).code()),
            whole == code_params(
                ps@.subrange(k as int, ps@.len() as int),
                shapes.subrange(k as int, shapes.len() as int),
                k as int,
                table.places(),
                b.code(),
            ),
        decreases ps@.len() - k,
    {
        proof {
            let rest = ps@.subrange(k as int, ps@.len() as int);
            let rest_shapes = shapes.subrange(k as int, shapes.len() as int);
            assert(rest[0] == ps@[k as int]);
            assert(rest_shapes[0] == shapes[k as int]);
            assert(rest.drop_first() =~= ps@.subrange(k + 1, ps@.len() as int));
            assert(rest_shapes.drop_first() =~= shapes.subrange(k + 1, shapes.len() as int));
            table.lemma_depth();
        }
        let slot = b.emit(Inst::Alloc(1));
        b.emit(Inst::Store(Value::Param(k), slot));
        let layout = &layouts[k];
        let binding = if layout.shape.is_array {
            Binding::Ptr(
                copy_numbers(&layout.shape.dims),
                Layout { slot, strides: copy_numbers(&layout.strides) },
            )
        } else {
            Binding::Var(Vec::new(), Layout { slot, strides: Vec::new() })
        };
        proof {
            assert(layout.shape@ == shapes[k as int]);
            assert(binding@ == param_sym(shapes[k as int]));
            assert(binding.placed() == param_placed(shapes[k as int], slot));
            if declared(table.places(), ps@[k as int].ident@, binding.placed()) is Ok {
                lemma_declared_keeps_outer(
                    table.places(),
                    ps@[k as int].ident@,
                    binding.placed(),
                );
            }
        }
        table.declare(ps[k].ident.clone(), binding)?;
        k = k + 1;
    }
    Ok(())
}

/// Lowers a function: declares it, so that its body can call it; declares
/// its parameters in a scope of their own; lowers its body; and ends the
/// block that the body leaves open with a return, of zero where the
/// function returns a number.
pub fn lower_func(f: &FuncDef, table: &mut SymbolTable, functions: &mut Vec<Function>) -> (r: Result<
    (),
    SemanticError,
>)
    requires
        old(table).wf(),
        forall|i: int|
            0 <= i < old(functions)@.len() ==> blocks_well_formed(
                (#[trigger] old(functions)@[i]).blocks@,
            ),
    ensures
        check_func(*f, old(table).env()) == match r {
            Ok(()) => Ok(final(table).env()),
            Err(e) => Err::<Scopes<Sym>, SemanticError>(e),
        },
        r is Ok ==> final(table).wf() && forall|i: int|
            0 <= i < final(functions)@.len() ==> blocks_well_formed(
                (#[trigger] final(functions)@[i]).blocks@,
            ),
        r is Ok ==> signatures(final(functions)@) == signatures(old(functions)@).push(
            signature_of(*f),
        ),
        r is Ok ==> final(table).places() == code_func(*f, old(table).places()).0
            && functions_view(final(functions)@) == functions_view(old(functions)@).push(
            FunctionView {
                signature: signature_of(*f),
                blocks: code_func(*f, old(table).places()).1,
            },
        ),
{
    if table.declares(&f.ident) {
        return Err(SemanticError::DuplicateDeclaration);
    }
    let (shapes, layouts) = read_params(&f.params, table)?;
    let ghost syms = shapes_view(shapes@);
    proof {
        table.lemma_depth();
        table.lemma_places();
    }
    let binding = Binding::Func(f.func_type, shapes);
    proof {
        assert(binding.placed() == func_placed(*f, syms));
    }
    table.declare(f.ident.clone(), binding)?;
    let ghost with_func = table.env();
    let ghost with_func_places = table.places();
    proof {
        table.lemma_depth();
    }
    table.enter_scope();
    let mut b = FunctionBuilder::new();
    let mut loops = LoopStack::new();
    let ghost start = b.code();
    proof {
        assert(start == Code { blocks: seq![Seq::<Inst>::empty()], cur: 0 });
    }
    declare_all(&f.params, &layouts, Ghost(syms), table, &mut b)?;
    let ghost inside = table.env();
    proof {
        lemma_params_outer(f.params@, syms, entered(with_func));
        assert(entered(with_func).drop_last() =~= with_func);
        assert(entered(with_func_places).drop_last() =~= with_func_places);
    }
    lower_block(&f.block, table, &mut b, &mut loops, f.func_type)?;
    table.exit_scope();
    proof {
        assert(table.env() == with_func);
        assert(table.places() == with_func_places);
        b.lemma_inv();
    }
    let last = match f.func_type {
        FuncType::Int => Inst::Return(Some(Value::Const(0))),
        FuncType::Void => Inst::Return(None),
    };
    let ghost body = b.code();
    let blocks = b.finish(last);
    let ghost before = functions@;
    let made = Function { name: f.ident.clone(), ret: f.func_type, params: f.params.len(), blocks };
    proof {
        assert(function_view(made).blocks =~= body.blocks.update(
            body.cur,
            body.blocks[body.cur].push(last_return(f.func_type)),
        ));
        assert(function_view(made) == FunctionView {
            signature: signature_of(*f),
            blocks: code_func(*f, old(table).places()).1,
        });
    }
    functions.push(made);
    proof {
        assert forall|i: int| 0 <= i < functions@.len() implies blocks_well_formed(
            (#[trigger] functions@[i]).blocks@,
        ) by {
            if i < before.len() {
                assert(functions@[i] == before[i]);
            }
        }
        assert(signatures(functions@) =~= signatures(before).push(signature_of(*f)));
        assert(functions_view(functions@) =~= functions_view(before).push(function_view(made)));
    }
    Ok(())
}

/// Declaring parameters changes the innermost scope only.
pub proof fn lemma_params_outer(ps: Seq<FuncFParam>, shapes: Seq<ParamSym>, env: Scopes<Sym>)
    requires
        env.len() >= 1,
        declare_params(ps, shapes, env) is Ok,
    ensures
        declare_params(ps, shapes, env)->Ok_0.len() == env.len(),
        declare_params(ps, shapes, env)->Ok_0.drop_last() == env.drop_last(),
    decreases ps.len(),
{
    if ps.len() > 0 && shapes.len() > 0 {
        lemma_declared_outer(env, ps[0].ident@, param_sym(shapes[0]));
        lemma_params_outer(
            ps.drop_first(),
            shapes.drop_first(),
            declared(env, ps[0].ident@, param_sym(shapes[0]))->Ok_0,
        );
    }
}

/// The scopes and the module at a point of lowering a compilation unit.
pub open spec fn lowered_state(table: SymbolTable, globals: Seq<Global>, functions: Seq<Function>)
    -> Lowered {
    Lowered {
        env: table.places(),
        module: ModuleView {
            globals: globals_view(globals),
            functions: functions_view(functions),
        },
    }
}

/// Lowers the items of a compilation unit, in order.
pub fn lower_unit(
    u: &CompUnit,
    table: &mut SymbolTable,
    globals: &mut Vec<Global>,
    functions: &mut Vec<Function>,
) -> (r: Result<(), SemanticError>)
    requires
        old(table).wf(),
        forall|i: int|
            0 <= i < old(functions)@.len() ==> blocks_well_formed(
                (#[trigger] old(functions)@[i]).blocks@,
            ),
    ensures
        check_unit(*u, old(table).env()) == match r {
            Ok(()) => Ok(final(table).env()),
            Err(e) => Err::<Scopes<Sym>, SemanticError>(e),
        },
        r is Ok ==> final(table).wf() && forall|i: int|
            0 <= i < final(functions)@.len() ==> blocks_well_formed(
                (#[trigger] final(functions)@[i]).blocks@,
            ),
        r is Ok ==> signatures(final(functions)@) == signatures(old(functions)@)
            + defined_functions(*u),
        r is Ok ==> lowered_state(*final(table), final(globals)@, final(functions)@) == code_unit(
            *u,
            lowered_state(*old(table), old(globals)@, old(functions)@),
        ),
    decreases u,
{
    let ghost start = signatures(functions@);
    match &u.prev_unit {
        Some(prev) => {
            lower_unit(prev, table, globals, functions)?;
        },
        None => {
            proof {
                assert(start + Seq::<Signature>::empty() =~= start);
            }
        },
    }
    let ghost before = signatures(functions@);
    match &u.cur_unit {
        DeclOrFuncDef::Decl(d) => lower_global_decl(d, table, globals),
        DeclOrFuncDef::FuncDef(f) => {
            let r = lower_func(f, table, functions);
            proof {
                let earlier = defined_before(*u);
                assert((start + earlier).push(signature_of(**f)) =~= start + earlier.push(
                    signature_of(**f),
                ));
            }
            r
        },
    }
}

/// Whether a function that returns a number can reach the end of its body:
/// its body does not end in a `return`. Such a function is lowered with a
/// return of zero at its end; it is worth a warning.
pub open spec fn ends_without_return(f: FuncDef) -> bool {
    f.func_type is Int && !(f.block.items@.len() > 0 && (f.block.items@.last() matches BlockItem::Stmt(
        s,
    ) && *s is Return))
}

/// The names of the functions of a compilation unit that return a number
/// and do not end in a `return`, in the order of the source text.
pub open spec fn unreturned(u: CompUnit) -> Seq<Seq<char>>
    decreases u,
{
    let before = match u.prev_unit {
        Some(prev) => unreturned(*prev),
        None => Seq::empty(),
    };
    match u.cur_unit {
        DeclOrFuncDef::FuncDef(f) => if ends_without_return(*f) {
            before.push(f.ident@)
        } else {
            before
        },
        DeclOrFuncDef::Decl(_) => before,
    }
}

/// Whether a function that returns a number does not end in a `return`.
pub fn lacks_return(f: &FuncDef) -> (lacks: bool)
    ensures
        lacks == ends_without_return(*f),
{
    match f.func_type {
        FuncType::Void => false,
        FuncType::Int => {
            let n = f.block.items.len();
            if n == 0 {
                true
            } else {
                match &f.block.items[n - 1] {
                    BlockItem::Stmt(s) => match **s {
                        Stmt::Return(_) => false,
                        _ => true,
                    },
                    BlockItem::Decl(_) => true,
                }
            }
        },
    }
}

/// The views of the names.
pub open spec fn name_views(names: Seq<String>) -> Seq<Seq<char>> {
    Seq::new(names.len(), |i: int| names[i]@)
}

/// Appends the names of the functions of a compilation unit that return a
/// number and do not end in a `return`.
fn collect_unreturned(u: &CompUnit, names: &mut Vec<String>)
    ensures
        name_views(final(names)@) == name_views(old(names)@) + unreturned(*u),
    decreases u,
{
    let ghost start = name_views(names@);
    match &u.prev_unit {
        Some(prev) => {
            collect_unreturned(prev, names);
        },
        None => {
            proof {
                assert(start + Seq::<Seq<char>>::empty() =~= start);
            }
        },
    }
    let ghost before = names@;
    match &u.cur_unit {
        DeclOrFuncDef::FuncDef(f) => {
            if lacks_return(f) {
                names.push(f.ident.clone());
                proof {
                    assert(name_views(names@) =~= name_views(before).push(f.ident@));
                    assert(name_views(names@) =~= start + unreturned(*u));
                }
            }
        },
        DeclOrFuncDef::Decl(_) => {},
    }
}

/// The names of the functions that return a number and do not end in a
/// `return`, in the order of the source text: those that deserve a warning.
pub fn missing_returns(u: &CompUnit) -> (names: Vec<String>)
    ensures
        name_views(names@) == unreturned(*u),
{
    let mut names: Vec<String> = Vec::new();
    collect_unreturned(u, &mut names);
    proof {
        assert(name_views(Seq::<String>::empty()) + unreturned(*u) =~= unreturned(*u));
    }
    names
}

/// Checks a program against the static rules and lowers it. A program
/// that the rules accept is lowered to the module that `code_program`
/// gives: its globals and the instructions of every block of every
/// function, in their order. In it every block ends in exactly one transfer
/// of control, which goes to a block of that function. Of a program that they reject, the first thing
/// wrong in the order of the source text is reported, and nothing is
/// lowered.
pub fn compile(unit: &CompUnit) -> (r: Result<Module, SemanticError>)
    ensures
        match r {
            Ok(module) => check_program(*unit) == Ok::<(), SemanticError>(())
                && module_well_formed(module) && signatures(module.functions@)
                == defined_functions(*unit) && module_view(module) == code_program(*unit),
            Err(e) => check_program(*unit) == Err::<(), SemanticError>(e),
        },
{
    let mut table = SymbolTable::new();
    let mut globals: Vec<Global> = Vec::new();
    let mut functions: Vec<Function> = Vec::new();
    proof {
        assert(globals_view(globals@) =~= Seq::<GlobalView>::empty());
        assert(functions_view(functions@) =~= Seq::<FunctionView>::empty());
        assert(lowered_state(table, globals@, functions@) == nothing_lowered());
    }
    lower_unit(unit, &mut table, &mut globals, &mut functions)?;
    proof {
        assert(signatures(Seq::<Function>::empty()) + defined_functions(*unit)
            =~= defined_functions(*unit));
    }
    Ok(Module { globals, functions })
}

} // verus!
